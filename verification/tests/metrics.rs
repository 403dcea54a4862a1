use doh_edge::metrics::{qtype_name, rcode_name, rcode_of, DATASET_BINDING};

#[test]
fn response_codes_are_the_low_four_bits() {
    assert_eq!(rcode_of(&[0, 0, 0x81, 0x83]), 3);
    assert_eq!(rcode_of(&[0, 0, 0x81, 0xf5, 0]), 5);
    assert_eq!(rcode_of(&[0, 0, 0x81]), 0);
}

#[test]
fn response_codes_have_names() {
    let names = ["NOERROR", "FORMERR", "SERVFAIL", "NXDOMAIN", "NOTIMP", "REFUSED", "OTHER"];
    for (code, name) in names.iter().enumerate() {
        assert_eq!(rcode_name(code as u8), *name);
    }
    assert_eq!(rcode_name(255), "OTHER");
}

#[test]
fn types_have_names() {
    let named = [
        (1, "A"), (2, "NS"), (5, "CNAME"), (6, "SOA"), (12, "PTR"), (15, "MX"), (16, "TXT"),
        (28, "AAAA"), (33, "SRV"), (35, "NAPTR"), (43, "DS"), (46, "RRSIG"), (47, "NSEC"),
        (48, "DNSKEY"), (50, "NSEC3"), (52, "TLSA"), (64, "SVCB"), (65, "HTTPS"), (257, "CAA"),
    ];
    for (qtype, name) in named {
        assert_eq!(qtype_name(qtype), name);
    }
    assert_eq!(qtype_name(0), "OTHER");
    assert_eq!(qtype_name(256), "OTHER");
    assert_eq!(DATASET_BINDING, "QUERIES");
}
