//! Names under which queries are counted.
use vstd::prelude::*;

verus! {

/// The binding under which the dataset of queries is reached.
pub const DATASET_BINDING: &'static str = "QUERIES";

/// The response code of a message: the low four bits of its fourth byte, and
/// zero where there is no such byte.
pub open spec fn rcode(m: Seq<u8>) -> u8 {
    if m.len() < 4 {
        0
    } else {
        m[3] % 0x10
    }
}

/// The response code of a message.
pub fn rcode_of(msg: &[u8]) -> (code: u8)
    ensures
        code == rcode(msg@),
        code < 16,
{
    if msg.len() < 4 {
        return 0;
    }
    let flags = msg[3];
    assert(flags & 0x0f == flags % 0x10) by (bit_vector);
    flags & 0x0f
}

/// What a response code is called.
pub open spec fn rcode_label(code: u8) -> Seq<char> {
    match code {
        0 => "NOERROR"@,
        1 => "FORMERR"@,
        2 => "SERVFAIL"@,
        3 => "NXDOMAIN"@,
        4 => "NOTIMP"@,
        5 => "REFUSED"@,
        _ => "OTHER"@,
    }
}

/// What a response code is called.
pub fn rcode_name(code: u8) -> (name: &'static str)
    ensures
        name@ == rcode_label(code),
{
    match code {
        0 => "NOERROR",
        1 => "FORMERR",
        2 => "SERVFAIL",
        3 => "NXDOMAIN",
        4 => "NOTIMP",
        5 => "REFUSED",
        _ => "OTHER",
    }
}

/// What a query type is called.
pub open spec fn qtype_label(qtype: u16) -> Seq<char> {
    match qtype {
        1 => "A"@,
        2 => "NS"@,
        5 => "CNAME"@,
        6 => "SOA"@,
        12 => "PTR"@,
        15 => "MX"@,
        16 => "TXT"@,
        28 => "AAAA"@,
        33 => "SRV"@,
        35 => "NAPTR"@,
        43 => "DS"@,
        46 => "RRSIG"@,
        47 => "NSEC"@,
        48 => "DNSKEY"@,
        50 => "NSEC3"@,
        52 => "TLSA"@,
        64 => "SVCB"@,
        65 => "HTTPS"@,
        257 => "CAA"@,
        _ => "OTHER"@,
    }
}

/// What a query type is called.
pub fn qtype_name(qtype: u16) -> (name: &'static str)
    ensures
        name@ == qtype_label(qtype),
{
    match qtype {
        1 => "A",
        2 => "NS",
        5 => "CNAME",
        6 => "SOA",
        12 => "PTR",
        15 => "MX",
        16 => "TXT",
        28 => "AAAA",
        33 => "SRV",
        35 => "NAPTR",
        43 => "DS",
        46 => "RRSIG",
        47 => "NSEC",
        48 => "DNSKEY",
        50 => "NSEC3",
        52 => "TLSA",
        64 => "SVCB",
        65 => "HTTPS",
        257 => "CAA",
        _ => "OTHER",
    }
}

} // verus!
