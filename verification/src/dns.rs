//! DNS messages on the wire: the transaction id, the question, and the TTL
//! fields of the answer section.
use crate::metrics;
use vstd::prelude::*;

verus! {

/// Seconds for which a reply may be kept that says that there is nothing.
pub const NEGATIVE_TTL: u32 = 60;

/// The response code for a name that does not exist.
pub const NXDOMAIN: u8 = 3;

/// Bytes of the fixed message header.
pub const HEADER_LEN: usize = 12;

// ---------------------------------------------------------------------------
// Numbers in network byte order

/// The big-endian 16-bit number whose first byte is `m[i]`.
pub open spec fn u16_at(m: Seq<u8>, i: int) -> u16 {
    (m[i] * 0x100 + m[i + 1]) as u16
}

/// The big-endian 32-bit number whose first byte is `m[i]`.
pub open spec fn u32_at(m: Seq<u8>, i: int) -> u32 {
    (m[i] * 0x100_0000 + m[i + 1] * 0x1_0000 + m[i + 2] * 0x100 + m[i + 3]) as u32
}

/// `m` with the two bytes at `i` replaced by `v`, big-endian.
pub open spec fn with_u16(m: Seq<u8>, i: int, v: u16) -> Seq<u8> {
    m.update(i, (v / 0x100) as u8).update(i + 1, (v % 0x100) as u8)
}

/// `m` with the four bytes at `i` replaced by `v`, big-endian.
pub open spec fn with_u32(m: Seq<u8>, i: int, v: u32) -> Seq<u8> {
    m.update(i, (v / 0x100_0000) as u8)
        .update(i + 1, (v / 0x1_0000 % 0x100) as u8)
        .update(i + 2, (v / 0x100 % 0x100) as u8)
        .update(i + 3, (v % 0x100) as u8)
}

pub(crate) proof fn lemma_with_u32(m: Seq<u8>, i: int, v: u32)
    requires
        0 <= i,
        i + 4 <= m.len(),
    ensures
        with_u32(m, i, v).len() == m.len(),
        u32_at(with_u32(m, i, v), i) == v,
        forall|j: int|
            0 <= j < m.len() && !(i <= j < i + 4) ==> #[trigger] with_u32(m, i, v)[j] == m[j],
{
    let out = with_u32(m, i, v);
    lemma_four_bytes(v);
    assert(out[i] == (v / 0x100_0000) as u8);
    assert(out[i + 1] == (v / 0x1_0000 % 0x100) as u8);
    assert(out[i + 2] == (v / 0x100 % 0x100) as u8);
    assert(out[i + 3] == (v % 0x100) as u8);
}

/// A number is made up of its four bytes.
proof fn lemma_four_bytes(v: u32)
    ensures
        v / 0x100_0000 < 0x100,
        (v / 0x100_0000) * 0x100_0000 + (v / 0x1_0000 % 0x100) * 0x1_0000 + (v / 0x100 % 0x100)
            * 0x100 + v % 0x100 == v,
{
    assert(v / 0x100_0000 < 0x100 && (v / 0x100_0000) * 0x100_0000 + (v / 0x1_0000 % 0x100)
        * 0x1_0000 + (v / 0x100 % 0x100) * 0x100 + v % 0x100 == v) by (bit_vector);
}

fn read_u16(msg: &[u8], i: usize) -> (v: u16)
    requires
        i + 2 <= msg@.len(),
    ensures
        v == u16_at(msg@, i as int),
{
    msg[i] as u16 * 0x100 + msg[i + 1] as u16
}

fn read_u32(msg: &[u8], i: usize) -> (v: u32)
    requires
        i + 4 <= msg@.len(),
    ensures
        v == u32_at(msg@, i as int),
{
    msg[i] as u32 * 0x100_0000 + msg[i + 1] as u32 * 0x1_0000 + msg[i + 2] as u32 * 0x100
        + msg[i + 3] as u32
}

fn write_u32(msg: &mut [u8], i: usize, v: u32)
    requires
        i + 4 <= old(msg)@.len(),
    ensures
        final(msg)@ == with_u32(old(msg)@, i as int, v),
{
    msg[i] = (v / 0x100_0000) as u8;
    msg[i + 1] = (v / 0x1_0000 % 0x100) as u8;
    msg[i + 2] = (v / 0x100 % 0x100) as u8;
    msg[i + 3] = (v % 0x100) as u8;
}

// ---------------------------------------------------------------------------
// The transaction id

/// `m` with its transaction id set to `id`; a message too short to have one is
/// left alone.
pub open spec fn with_id(m: Seq<u8>, id: u16) -> Seq<u8> {
    if m.len() >= 2 {
        with_u16(m, 0, id)
    } else {
        m
    }
}

/// Puts `id` into the first two bytes of the message.
pub fn rewrite_id(msg: &mut [u8], id: u16)
    ensures
        final(msg)@ == with_id(old(msg)@, id),
{
    if msg.len() >= 2 {
        msg[0] = (id / 0x100) as u8;
        msg[1] = (id % 0x100) as u8;
    }
}

/// The transaction id of a message.
pub fn read_id(msg: &[u8]) -> (id: u16)
    requires
        msg@.len() >= 2,
    ensures
        id == u16_at(msg@, 0),
{
    read_u16(msg, 0)
}

// ---------------------------------------------------------------------------
// The question

/// An ASCII capital letter turned small; any other byte as it is.
pub open spec fn lower(b: u8) -> u8 {
    if 0x41 <= b <= 0x5a {
        (b + 0x20) as u8
    } else {
        b
    }
}

/// The characters of a label, letters small.
pub open spec fn label_text(label: Seq<u8>) -> Seq<char> {
    label.map_values(|b: u8| lower(b) as char)
}

/// The labels of a name, letters small, with a dot between each two.
pub open spec fn dotted(labels: Seq<Seq<u8>>) -> Seq<char>
    decreases labels.len(),
{
    if labels.len() == 0 {
        seq![]
    } else if labels.len() == 1 {
        label_text(labels[0])
    } else {
        dotted(labels.drop_last()).push('.') + label_text(labels.last())
    }
}

/// Reads an uncompressed name at `pos`: its labels, and the position behind
/// the zero byte that ends it. `None` where a length byte asks for more than
/// 63 bytes (a compression pointer among them) or the message ends too early.
pub open spec fn labels_at(m: Seq<u8>, pos: int) -> Option<(Seq<Seq<u8>>, int)>
    decreases m.len() - pos,
{
    if pos < 0 || pos >= m.len() {
        None
    } else if m[pos] == 0 {
        Some((seq![], pos + 1))
    } else if m[pos] >= 0x40 || pos + 1 + m[pos] > m.len() {
        None
    } else {
        let next = pos + 1 + m[pos];
        match labels_at(m, next) {
            Some((rest, end)) => Some((seq![m.subrange(pos + 1, next)] + rest, end)),
            None => None,
        }
    }
}

/// The first question of a message: its name and its type. The class that
/// follows has to be there, and is not looked at.
pub open spec fn question_of(m: Seq<u8>) -> Option<(Seq<char>, u16)> {
    if m.len() < HEADER_LEN || u16_at(m, 4) == 0 {
        None
    } else {
        match labels_at(m, HEADER_LEN as int) {
            Some((labels, end)) => if end + 4 <= m.len() {
                Some((dotted(labels), u16_at(m, end)))
            } else {
                None
            },
            None => None,
        }
    }
}

/// What `parse_question` hands out, as mathematics.
pub open spec fn question_view(q: Option<(String, u16)>) -> Option<(Seq<char>, u16)> {
    match q {
        Some((name, qtype)) => Some((name@, qtype)),
        None => None,
    }
}

fn to_lower(b: u8) -> (l: u8)
    ensures
        l == lower(b),
{
    if 0x41 <= b && b <= 0x5a {
        b + 0x20
    } else {
        b
    }
}

/// Appends one label to a name that is being put together.
fn push_label(name: &mut String, label: &[u8], Ghost(before): Ghost<Seq<Seq<u8>>>)
    requires
        old(name)@ == dotted(before),
        before.len() > 0 ==> old(name)@.len() > 0,
        label@.len() > 0,
    ensures
        final(name)@ == dotted(before.push(label@)),
        final(name)@.len() > 0,
{
    if !name.as_str().is_empty() {
        name.push('.');
    }
    let ghost start = name@;
    let mut i: usize = 0;
    while i < label.len()
        invariant
            i <= label@.len(),
            name@ == start + label_text(label@.take(i as int)),
        decreases label@.len() - i,
    {
        name.push(to_lower(label[i]) as char);
        proof {
            assert(label@.take(i + 1) =~= label@.take(i as int).push(label@[i as int]));
            assert(label_text(label@.take(i + 1)) =~= label_text(label@.take(i as int)).push(
                lower(label@[i as int]) as char,
            ));
        }
        i = i + 1;
    }
    proof {
        assert(label@.take(label@.len() as int) =~= label@);
        let after = before.push(label@);
        assert(after.drop_last() =~= before);
    }
}

/// The first question of a message: its name, letters small, and its type.
///
/// `None` where the message is shorter than a header, announces no question,
/// or ends before the question does; and where the name is compressed.
pub fn parse_question(msg: &[u8]) -> (question: Option<(String, u16)>)
    ensures
        question_view(question) == question_of(msg@),
{
    if msg.len() < HEADER_LEN {
        return None;
    }
    let qdcount = read_u16(msg, 4);
    if qdcount == 0 {
        return None;
    }
    let mut pos: usize = HEADER_LEN;
    let mut name = String::new();
    let ghost mut done: Seq<Seq<u8>> = seq![];
    loop
        invariant_except_break
            HEADER_LEN <= pos <= msg@.len(),
            name@ == dotted(done),
            done.len() > 0 ==> name@.len() > 0,
            labels_at(msg@, HEADER_LEN as int) == (match labels_at(msg@, pos as int) {
                Some((rest, end)) => Some((done + rest, end)),
                None => None,
            }),
        invariant
            msg@.len() >= HEADER_LEN,
            u16_at(msg@, 4) != 0,
        ensures
            pos <= msg@.len(),
            labels_at(msg@, HEADER_LEN as int) == Some((done, pos as int)),
            name@ == dotted(done),
        decreases msg@.len() - pos,
    {
        if pos >= msg.len() {
            return None;
        }
        let len = msg[pos] as usize;
        if len == 0 {
            pos = pos + 1;
            assert(done + Seq::<Seq<u8>>::empty() =~= done);
            break;
        }
        if len >= 0x40 {
            // A question name is never compressed.
            return None;
        }
        if len > msg.len() - pos - 1 {
            return None;
        }
        let start = pos + 1;
        let label = &msg[start..start + len];
        push_label(&mut name, label, Ghost(done));
        proof {
            assert forall|rest: Seq<Seq<u8>>|
                #[trigger] (done + (seq![label@] + rest)) == done.push(label@) + rest by {
                assert(done + (seq![label@] + rest) =~= done.push(label@) + rest);
            }
            done = done.push(label@);
        }
        pos = start + len;
    }
    if msg.len() - pos < 4 {
        return None;
    }
    let qtype = read_u16(msg, pos);
    Some((name, qtype))
}

// ---------------------------------------------------------------------------
// The TTL fields of the answer section

/// Walks over a name at `pos`, compressed or not: whether it comes to an end,
/// and the position where the walk stops. A zero byte ends a name, and so does
/// a two-byte compression pointer; any other byte is the length of a label.
pub open spec fn name_walk(m: Seq<u8>, pos: int) -> (bool, int)
    decreases (if pos < m.len() { m.len() - pos } else { 0 }),
{
    if pos < 0 || pos >= m.len() {
        (false, pos)
    } else if m[pos] == 0 {
        (true, pos + 1)
    } else if m[pos] >= 0xc0 {
        (true, pos + 2)
    } else {
        name_walk(m, pos + 1 + m[pos])
    }
}

/// The position behind `n` questions that start at `pos`: each a name, a type
/// and a class. `None` where one of the names does not come to an end.
pub open spec fn questions_end(m: Seq<u8>, pos: int, n: nat) -> Option<int>
    decreases n,
{
    if n == 0 {
        Some(pos)
    } else {
        let (ended, end) = name_walk(m, pos);
        if ended {
            questions_end(m, end + 4, (n - 1) as nat)
        } else {
            None
        }
    }
}

/// Where the TTL fields of up to `n` records stand, the first record at `pos`.
/// A record is a name, ten bytes of which the fifth to the eighth are the TTL
/// and the last two the length of the data, and that data. The list ends at
/// the first record whose name or ten bytes the message does not hold.
pub open spec fn ttl_fields(m: Seq<u8>, pos: int, n: nat) -> Seq<int>
    decreases n,
{
    let (ended, end) = name_walk(m, pos);
    if n == 0 || !ended || end + 10 > m.len() {
        seq![]
    } else {
        seq![end + 4] + ttl_fields(m, end + 10 + u16_at(m, end + 8), (n - 1) as nat)
    }
}

/// Where the TTL fields of the answer section stand, in the order of the
/// records.
pub open spec fn answer_fields(m: Seq<u8>) -> Seq<int> {
    if m.len() < HEADER_LEN {
        seq![]
    } else {
        match questions_end(m, HEADER_LEN as int, u16_at(m, 4) as nat) {
            Some(pos) => ttl_fields(m, pos, u16_at(m, 6) as nat),
            None => seq![],
        }
    }
}

/// The least of the TTLs at `fields`, or `NEGATIVE_TTL` where there are none.
pub open spec fn least_ttl(m: Seq<u8>, fields: Seq<int>) -> u32
    decreases fields.len(),
{
    if fields.len() == 0 {
        NEGATIVE_TTL
    } else {
        let last = u32_at(m, fields.last());
        let before = least_ttl(m, fields.drop_last());
        if fields.len() == 1 || last < before {
            last
        } else {
            before
        }
    }
}

/// The least TTL in the answer section, or `NEGATIVE_TTL` where no answer can be
/// read.
pub open spec fn ttl_of(m: Seq<u8>) -> u32 {
    least_ttl(m, answer_fields(m))
}

/// The seconds for which a reply is kept: what its answers allow, and
/// `NEGATIVE_TTL` where it has none or says that the name does not exist.
pub open spec fn kept_secs(m: Seq<u8>) -> u32 {
    if metrics::rcode(m) == NXDOMAIN {
        NEGATIVE_TTL
    } else {
        ttl_of(m)
    }
}

/// A list of positions, as integers.
pub open spec fn positions(v: Seq<usize>) -> Seq<int> {
    v.map_values(|p: usize| p as int)
}

/// The lesser of `i` and the largest position there is.
pub open spec fn clamped(i: int) -> int {
    if i <= usize::MAX {
        i
    } else {
        usize::MAX as int
    }
}

/// Moves `pos` over a name. False where the message ends before the name does.
fn skip_name(msg: &[u8], pos: &mut usize) -> (ended: bool)
    ensures
        ended == name_walk(msg@, *old(pos) as int).0,
        *final(pos) == clamped(name_walk(msg@, *old(pos) as int).1),
{
    let ghost start = *pos as int;
    loop
        invariant
            start == *old(pos),
            clamped(name_walk(msg@, *pos as int).1) == clamped(name_walk(msg@, start).1),
            name_walk(msg@, *pos as int).0 == name_walk(msg@, start).0,
        decreases (if *pos < msg@.len() { msg@.len() - *pos } else { 0 }),
    {
        if *pos >= msg.len() {
            return false;
        }
        let b = msg[*pos];
        if b == 0 {
            *pos = *pos + 1;
            return true;
        }
        if b >= 0xc0 {
            // A pointer is the last part of a name.
            *pos = (*pos).saturating_add(2);
            return true;
        }
        proof {
            // A position too large to write down is behind the end either way.
            let next = *pos + 1 + b;
            assert(next >= msg@.len() ==> name_walk(msg@, next) == (false, next));
        }
        *pos = (*pos + 1).saturating_add(b as usize);
    }
}

/// Nothing can be read behind the end of a message.
proof fn lemma_fields_past_end(m: Seq<u8>, pos: int, questions: nat, records: nat)
    requires
        pos >= m.len(),
    ensures
        questions_end(m, pos, questions) matches Some(end) ==> ttl_fields(m, end, records).len()
            == 0,
        ttl_fields(m, pos, records).len() == 0,
{
}

/// Walks the answer section: the least TTL in it, and where its TTL fields
/// stand, so that a caller can rewrite them in place.
///
/// A message without answers, and one whose first answer cannot be read, has
/// the TTL `NEGATIVE_TTL` and no fields.
pub fn answer_ttl_info(msg: &[u8]) -> (info: (u32, Vec<usize>))
    ensures
        info.0 == ttl_of(msg@),
        positions(info.1@) == answer_fields(msg@),
        forall|i: int| 0 <= i < info.1@.len() ==> 0 <= #[trigger] info.1@[i] <= msg@.len() - 4,
{
    if msg.len() < HEADER_LEN {
        return (NEGATIVE_TTL, Vec::new());
    }
    let qdcount = read_u16(msg, 4);
    let ancount = read_u16(msg, 6);
    if ancount == 0 {
        return (NEGATIVE_TTL, Vec::new());
    }
    let mut pos: usize = HEADER_LEN;
    let mut left: u16 = qdcount;
    while left > 0
        invariant
            msg@.len() >= HEADER_LEN,
            questions_end(msg@, HEADER_LEN as int, qdcount as nat) == questions_end(
                msg@,
                pos as int,
                left as nat,
            ),
            qdcount == u16_at(msg@, 4),
            ancount == u16_at(msg@, 6),
        decreases left,
    {
        let ghost start = pos as int;
        if !skip_name(msg, &mut pos) {
            return (NEGATIVE_TTL, Vec::new());
        }
        left = left - 1;
        if pos >= msg.len() - 4 {
            proof {
                lemma_fields_past_end(
                    msg@,
                    name_walk(msg@, start).1 + 4,
                    left as nat,
                    ancount as nat,
                );
            }
            return (NEGATIVE_TTL, Vec::new());
        }
        pos = pos + 4;
    }
    let mut offsets: Vec<usize> = Vec::with_capacity(ancount as usize);
    let mut min: Option<u32> = None;
    let mut left: u16 = ancount;
    while left > 0
        invariant_except_break
            answer_fields(msg@) == positions(offsets@) + ttl_fields(msg@, pos as int, left as nat),
        invariant
            msg@.len() >= HEADER_LEN,
            min is None <==> offsets@.len() == 0,
            min matches Some(least) ==> least == least_ttl(msg@, positions(offsets@)),
            forall|i: int| 0 <= i < offsets@.len() ==> 0 <= #[trigger] offsets@[i] <= msg@.len() - 4,
        ensures
            answer_fields(msg@) == positions(offsets@),
        decreases left,
    {
        let ghost start = pos as int;
        if !skip_name(msg, &mut pos) {
            assert(positions(offsets@) + Seq::<int>::empty() =~= positions(offsets@));
            break;
        }
        if pos > msg.len() - 10 {
            assert(positions(offsets@) + Seq::<int>::empty() =~= positions(offsets@));
            break;
        }
        let ttl_off = pos + 4;
        let ttl = read_u32(msg, ttl_off);
        let rdlen = read_u16(msg, pos + 8) as usize;
        let ghost before = positions(offsets@);
        let ghost rest = ttl_fields(msg@, pos + 10 + rdlen, (left - 1) as nat);
        offsets.push(ttl_off);
        proof {
            assert(positions(offsets@) =~= before.push(ttl_off as int));
            assert(positions(offsets@).drop_last() =~= before);
            assert(before + (seq![ttl_off as int] + rest) =~= positions(offsets@) + rest);
        }
        min = match min {
            None => Some(ttl),
            Some(least) => Some(if ttl < least { ttl } else { least }),
        };
        left = left - 1;
        if rdlen >= msg.len() - (pos + 10) {
            proof {
                lemma_fields_past_end(msg@, pos + 10 + rdlen, 0, left as nat);
                assert(positions(offsets@) + rest =~= positions(offsets@));
            }
            break;
        }
        pos = pos + 10 + rdlen;
    }
    let ttl = match min {
        Some(least) => least,
        None => NEGATIVE_TTL,
    };
    (ttl, offsets)
}

/// The seconds for which a reply is kept: the least TTL of its answers, and
/// `NEGATIVE_TTL` where it has none or says that the name does not exist.
pub fn cache_ttl(msg: &[u8]) -> (secs: u32)
    ensures
        secs == kept_secs(msg@),
{
    if metrics::rcode_of(msg) == NXDOMAIN {
        return NEGATIVE_TTL;
    }
    let (ttl, _) = answer_ttl_info(msg);
    ttl
}

// ---------------------------------------------------------------------------
// Ageing

/// What is left of `ttl` after `elapsed` seconds: never less than nothing.
pub open spec fn aged(ttl: u32, elapsed: u32) -> u32 {
    if ttl >= elapsed {
        (ttl - elapsed) as u32
    } else {
        0
    }
}

/// `m` with the TTL at `field` aged; as it is where the message does not hold
/// the whole field.
pub open spec fn field_aged(m: Seq<u8>, field: int, elapsed: u32) -> Seq<u8> {
    if field + 4 > m.len() {
        m
    } else {
        with_u32(m, field, aged(u32_at(m, field), elapsed))
    }
}

/// `m` with the TTLs at `fields` aged, one field after the other.
pub open spec fn fields_aged(m: Seq<u8>, fields: Seq<int>, elapsed: u32) -> Seq<u8>
    decreases fields.len(),
{
    if fields.len() == 0 {
        m
    } else {
        field_aged(fields_aged(m, fields.drop_last(), elapsed), fields.last(), elapsed)
    }
}

/// `m` with every TTL of its answer section aged.
pub open spec fn answers_aged(m: Seq<u8>, elapsed: u32) -> Seq<u8> {
    fields_aged(m, answer_fields(m), elapsed)
}

/// A cached message as it is handed to a client: its answers aged by `elapsed`
/// seconds, and with the id of the client's query.
pub open spec fn served(m: Seq<u8>, client_id: u16, elapsed: u32) -> Seq<u8> {
    with_id(answers_aged(m, elapsed), client_id)
}

/// Takes `elapsed_secs` from each TTL whose field stands at one of `offsets`,
/// down to zero at the least. Offsets too close to the end are passed over.
pub fn decrement_ttls(msg: &mut [u8], offsets: &[usize], elapsed_secs: u32)
    requires
        forall|i: int| 0 <= i < offsets@.len() ==> #[trigger] offsets@[i] + 4 <= usize::MAX,
    ensures
        final(msg)@ == fields_aged(old(msg)@, positions(offsets@), elapsed_secs),
{
    let mut i: usize = 0;
    while i < offsets.len()
        invariant
            forall|j: int| 0 <= j < offsets@.len() ==> #[trigger] offsets@[j] + 4 <= usize::MAX,
            i <= offsets@.len(),
            msg@ == fields_aged(old(msg)@, positions(offsets@.take(i as int)), elapsed_secs),
        decreases offsets@.len() - i,
    {
        let off = offsets[i];
        proof {
            let taken = positions(offsets@.take(i + 1));
            assert(taken.drop_last() =~= positions(offsets@.take(i as int)));
            assert(taken.last() == off);
        }
        if off + 4 <= msg.len() {
            let ttl = read_u32(msg, off);
            write_u32(msg, off, ttl.saturating_sub(elapsed_secs));
        }
        i = i + 1;
    }
    assert(offsets@.take(offsets@.len() as int) =~= offsets@);
}

/// What a cache hit does to the stored message: ages its answers by
/// `elapsed_secs`, and gives it the transaction id `client_id`.
pub fn apply_cache_hit(msg: &mut [u8], client_id: u16, elapsed_secs: u32)
    ensures
        final(msg)@ == served(old(msg)@, client_id, elapsed_secs),
{
    let (_, offsets) = answer_ttl_info(msg);
    assert(msg@.len() == msg.len());
    decrement_ttls(msg, &offsets, elapsed_secs);
    rewrite_id(msg, client_id);
}

} // verus!
