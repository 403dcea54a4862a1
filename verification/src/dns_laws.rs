//! What holds of DNS messages as they are cached, aged and served.
use crate::dns;
use crate::metrics;
use vstd::prelude::*;

verus! {

/// Whether byte `k` belongs to one of the four-byte fields at `fields`.
pub open spec fn in_field(fields: Seq<int>, k: int) -> bool {
    exists|i: int| 0 <= i < fields.len() && #[trigger] fields[i] <= k < fields[i] + 4
}

/// Two messages of one length that differ at most inside `fields`, from byte
/// `from` on.
pub open spec fn same_outside(a: Seq<u8>, b: Seq<u8>, fields: Seq<int>, from: int) -> bool {
    &&& a.len() == b.len()
    &&& forall|k: int| from <= k < a.len() && !in_field(fields, k) ==> #[trigger] a[k] == b[k]
}

// ---------------------------------------------------------------------------
// Where the fields stand

proof fn lemma_walk_forward(m: Seq<u8>, pos: int)
    requires
        0 <= pos,
    ensures
        dns::name_walk(m, pos).1 >= pos,
        dns::name_walk(m, pos).0 ==> dns::name_walk(m, pos).1 > pos,
        !dns::name_walk(m, pos).0 ==> dns::name_walk(m, pos).1 >= m.len(),
    decreases (if pos < m.len() { m.len() - pos } else { 0 }),
{
    if pos < m.len() && m[pos] != 0 && m[pos] < 0xc0 {
        lemma_walk_forward(m, pos + 1 + m[pos]);
    }
}

proof fn lemma_ttl_fields_layout(m: Seq<u8>, pos: int, n: nat)
    requires
        0 <= pos,
    ensures
        forall|i: int|
            0 <= i < dns::ttl_fields(m, pos, n).len() ==> pos + 5 <= #[trigger] dns::ttl_fields(m, pos, n)[i]
                && dns::ttl_fields(m, pos, n)[i] + 6 <= m.len(),
        forall|i: int, j: int|
            0 <= i < j < dns::ttl_fields(m, pos, n).len() ==> #[trigger] dns::ttl_fields(m, pos, n)[i] + 4
                <= #[trigger] dns::ttl_fields(m, pos, n)[j],
    decreases n,
{
    lemma_walk_forward(m, pos);
    let (ended, end) = dns::name_walk(m, pos);
    if n > 0 && ended && end + 10 <= m.len() {
        let next = end + 10 + dns::u16_at(m, end + 8);
        lemma_ttl_fields_layout(m, next, (n - 1) as nat);
        let rest = dns::ttl_fields(m, next, (n - 1) as nat);
        let all = dns::ttl_fields(m, pos, n);
        assert forall|i: int| 0 < i < all.len() implies #[trigger] all[i] == rest[i - 1] by {}
    }
}

proof fn lemma_questions_forward(m: Seq<u8>, pos: int, n: nat)
    requires
        0 <= pos,
    ensures
        dns::questions_end(m, pos, n) matches Some(end) ==> end >= pos,
        n > 0 ==> (dns::questions_end(m, pos, n) matches Some(end) ==> dns::name_walk(m, pos).0 && end
            >= dns::name_walk(m, pos).1 + 4),
    decreases n,
{
    lemma_walk_forward(m, pos);
    if n > 0 && dns::name_walk(m, pos).0 {
        lemma_questions_forward(m, dns::name_walk(m, pos).1 + 4, (n - 1) as nat);
    }
}

/// The TTL fields of the answer section lie inside the message, behind its
/// header, and none overlaps another.
pub proof fn law_fields_are_apart(m: Seq<u8>)
    ensures
        forall|i: int|
            0 <= i < dns::answer_fields(m).len() ==> 17 <= #[trigger] dns::answer_fields(m)[i]
                && dns::answer_fields(m)[i] + 6 <= m.len(),
        forall|i: int, j: int|
            0 <= i < j < dns::answer_fields(m).len() ==> #[trigger] dns::answer_fields(m)[i] + 4
                <= #[trigger] dns::answer_fields(m)[j],
{
    if m.len() >= 12 {
        if let Some(pos) = dns::questions_end(m, 12, dns::u16_at(m, 4) as nat) {
            lemma_questions_forward(m, 12, dns::u16_at(m, 4) as nat);
            lemma_ttl_fields_layout(m, pos, dns::u16_at(m, 6) as nat);
        }
    }
}

// ---------------------------------------------------------------------------
// What the walk over a message looks at

proof fn lemma_walk_agrees(a: Seq<u8>, b: Seq<u8>, pos: int)
    requires
        0 <= pos,
        a.len() == b.len(),
        forall|k: int| pos <= k < a.len() && k < dns::name_walk(a, pos).1 ==> #[trigger] a[k] == b[k],
    ensures
        dns::name_walk(a, pos) == dns::name_walk(b, pos),
    decreases (if pos < a.len() { a.len() - pos } else { 0 }),
{
    if pos < a.len() {
        lemma_walk_forward(a, pos);
        assert(dns::name_walk(a, pos).1 > pos);
        if a[pos] != 0 && a[pos] < 0xc0 {
            lemma_walk_agrees(a, b, pos + 1 + a[pos]);
        }
    }
}

proof fn lemma_questions_agree(a: Seq<u8>, b: Seq<u8>, pos: int, n: nat)
    requires
        0 <= pos,
        a.len() == b.len(),
        forall|k: int|
            pos <= k < a.len() && (dns::questions_end(a, pos, n) matches Some(end) ==> k < end)
                ==> #[trigger] a[k] == b[k],
    ensures
        dns::questions_end(a, pos, n) == dns::questions_end(b, pos, n),
    decreases n,
{
    if n > 0 {
        lemma_questions_forward(a, pos, n);
        lemma_walk_forward(a, pos);
        lemma_walk_agrees(a, b, pos);
        if dns::name_walk(a, pos).0 {
            lemma_questions_agree(a, b, dns::name_walk(a, pos).1 + 4, (n - 1) as nat);
        }
    }
}

proof fn lemma_ttl_fields_agree(a: Seq<u8>, b: Seq<u8>, pos: int, n: nat)
    requires
        0 <= pos,
        same_outside(a, b, dns::ttl_fields(a, pos, n), pos),
    ensures
        dns::ttl_fields(a, pos, n) == dns::ttl_fields(b, pos, n),
    decreases n,
{
    let all = dns::ttl_fields(a, pos, n);
    let (ended, end) = dns::name_walk(a, pos);
    lemma_walk_forward(a, pos);
    lemma_ttl_fields_layout(a, pos, n);
    if n > 0 {
        if ended && end + 10 <= a.len() {
            let next = end + 10 + dns::u16_at(a, end + 8);
            let rest = dns::ttl_fields(a, next, (n - 1) as nat);
            lemma_ttl_fields_layout(a, next, (n - 1) as nat);
            assert(all[0] == end + 4);
            assert forall|i: int| 0 < i < all.len() implies #[trigger] all[i] == rest[i - 1] by {}
            assert forall|k: int| pos <= k < end + 10 && !(end + 4 <= k < end + 8) implies
                #[trigger] a[k] == b[k] by {
                if in_field(all, k) {
                    let i = choose|i: int| 0 <= i < all.len() && #[trigger] all[i] <= k < all[i] + 4;
                    assert(i == 0);
                }
            }
            assert forall|k: int| next <= k < a.len() && !in_field(rest, k) implies #[trigger] a[k]
                == b[k] by {
                if in_field(all, k) {
                    let i = choose|i: int| 0 <= i < all.len() && #[trigger] all[i] <= k < all[i] + 4;
                    assert(i > 0);
                    assert(rest[i - 1] <= k < rest[i - 1] + 4);
                }
            }
            lemma_walk_agrees(a, b, pos);
            lemma_ttl_fields_agree(a, b, next, (n - 1) as nat);
        } else {
            assert(all.len() == 0);
            lemma_walk_agrees(a, b, pos);
        }
    }
}

/// Whatever stands in the TTL fields of a message, and in its id, the fields
/// are found in the same places.
pub proof fn law_fields_stay(a: Seq<u8>, b: Seq<u8>)
    requires
        same_outside(a, b, dns::answer_fields(a), 2),
    ensures
        dns::answer_fields(a) == dns::answer_fields(b),
{
    let fields = dns::answer_fields(a);
    law_fields_are_apart(a);
    if a.len() >= 12 {
        assert(forall|k: int| 2 <= k < 17 && k < a.len() ==> !in_field(fields, k));
        let n = dns::u16_at(a, 4) as nat;
        lemma_questions_forward(a, 12, n);
        if let Some(pos) = dns::questions_end(a, 12, n) {
            lemma_ttl_fields_layout(a, pos, dns::u16_at(a, 6) as nat);
            assert(forall|k: int| 2 <= k < pos + 5 && k < a.len() ==> !in_field(fields, k));
            lemma_questions_agree(a, b, 12, n);
            lemma_ttl_fields_agree(a, b, pos, dns::u16_at(a, 6) as nat);
        } else {
            assert(forall|k: int| 2 <= k < a.len() ==> !in_field(fields, k));
            lemma_questions_agree(a, b, 12, n);
        }
    }
}

// ---------------------------------------------------------------------------
// Ageing

/// Every TTL of `b` at `fields` is what is left of the one in `a`.
#[verifier::opaque]
spec fn ages_fields(a: Seq<u8>, b: Seq<u8>, fields: Seq<int>, elapsed: u32) -> bool {
    forall|i: int|
        0 <= i < fields.len() ==> dns::u32_at(b, #[trigger] fields[i]) == dns::aged(
            dns::u32_at(a, fields[i]),
            elapsed,
        )
}

/// The field at `i` is the same where its four bytes are.
proof fn lemma_u32_of_same_bytes(a: Seq<u8>, b: Seq<u8>, i: int)
    requires
        forall|k: int| i <= k < i + 4 ==> #[trigger] a[k] == b[k],
    ensures
        dns::u32_at(a, i) == dns::u32_at(b, i),
{
    assert(a[i] == b[i] && a[i + 1] == b[i + 1] && a[i + 2] == b[i + 2] && a[i + 3] == b[i + 3]);
}

/// A number of four bytes has one big-endian form.
proof fn lemma_bytes_of_number(a: u8, b: u8, c: u8, d: u8, w: u8, x: u8, y: u8, z: u8)
    requires
        a * 0x100_0000 + b * 0x1_0000 + c * 0x100 + d == w * 0x100_0000 + x * 0x1_0000 + y * 0x100
            + z,
    ensures
        a == w,
        b == x,
        c == y,
        d == z,
{
    assert(a == w);
    assert(b == x);
    assert(c == y);
}

/// Four bytes are the same where they make up the same number.
proof fn lemma_bytes_of_same_u32(a: Seq<u8>, b: Seq<u8>, i: int)
    requires
        dns::u32_at(a, i) == dns::u32_at(b, i),
    ensures
        forall|k: int| i <= k < i + 4 ==> #[trigger] a[k] == b[k],
{
    lemma_bytes_of_number(
        a[i],
        a[i + 1],
        a[i + 2],
        a[i + 3],
        b[i],
        b[i + 1],
        b[i + 2],
        b[i + 3],
    );
}

/// One field aged: the other bytes stay, and the field holds what is left.
proof fn lemma_field_aged(m: Seq<u8>, field: int, elapsed: u32)
    requires
        0 <= field,
        field + 4 <= m.len(),
    ensures
        dns::field_aged(m, field, elapsed).len() == m.len(),
        forall|k: int|
            0 <= k < m.len() && !(field <= k < field + 4) ==> #[trigger] dns::field_aged(
                m,
                field,
                elapsed,
            )[k] == m[k],
        dns::u32_at(dns::field_aged(m, field, elapsed), field) == dns::aged(
            dns::u32_at(m, field),
            elapsed,
        ),
{
    let left = dns::aged(dns::u32_at(m, field), elapsed);
    assert(dns::field_aged(m, field, elapsed) == dns::with_u32(m, field, left));
    dns::lemma_with_u32(m, field, left);
}

proof fn lemma_fields_aged(m: Seq<u8>, fields: Seq<int>, elapsed: u32)
    requires
        forall|i: int|
            0 <= i < fields.len() ==> 0 <= #[trigger] fields[i] && fields[i] + 4 <= m.len(),
        forall|i: int, j: int|
            0 <= i < j < fields.len() ==> #[trigger] fields[i] + 4 <= #[trigger] fields[j],
    ensures
        same_outside(m, dns::fields_aged(m, fields, elapsed), fields, 0),
        ages_fields(m, dns::fields_aged(m, fields, elapsed), fields, elapsed),
    decreases fields.len(),
{
    if fields.len() > 0 {
        let before = fields.drop_last();
        let last = fields.last();
        let mid = dns::fields_aged(m, before, elapsed);
        let out = dns::fields_aged(m, fields, elapsed);
        assert(forall|i: int| 0 <= i < before.len() ==> #[trigger] before[i] == fields[i]);
        lemma_fields_aged(m, before, elapsed);
        assert(fields[fields.len() - 1] == last);
        assert forall|k: int| last <= k < last + 4 implies #[trigger] m[k] == mid[k] by {
            assert(!in_field(before, k));
        }
        lemma_u32_of_same_bytes(m, mid, last);
        lemma_field_aged(mid, last, elapsed);
        assert(out == dns::field_aged(mid, last, elapsed));
        assert forall|k: int| 0 <= k < m.len() && !in_field(fields, k) implies #[trigger] m[k]
            == out[k] by {
            if in_field(before, k) {
                let i = choose|i: int|
                    0 <= i < before.len() && #[trigger] before[i] <= k < before[i] + 4;
                assert(fields[i] <= k < fields[i] + 4);
            }
            assert(m[k] == mid[k]);
        }
        assert(ages_fields(m, out, fields, elapsed)) by {
            reveal(ages_fields);
            assert forall|i: int| 0 <= i < fields.len() implies dns::u32_at(
                out,
                #[trigger] fields[i],
            ) == dns::aged(dns::u32_at(m, fields[i]), elapsed) by {
                if i < before.len() {
                    assert(before[i] == fields[i]);
                    assert(fields[i] + 4 <= fields[fields.len() - 1]);
                    lemma_u32_of_same_bytes(out, mid, fields[i]);
                }
            }
        }
    } else {
        reveal(ages_fields);
    }
}

/// Ageing takes the elapsed seconds from every TTL of the answer section, down
/// to zero at the least, and leaves every other byte of the message alone; the
/// fields are found where they were.
pub proof fn law_ageing(m: Seq<u8>, elapsed: u32)
    ensures
        same_outside(m, dns::answers_aged(m, elapsed), dns::answer_fields(m), 0),
        dns::answer_fields(dns::answers_aged(m, elapsed)) == dns::answer_fields(m),
        forall|i: int|
            0 <= i < dns::answer_fields(m).len() ==> dns::u32_at(
                dns::answers_aged(m, elapsed),
                #[trigger] dns::answer_fields(m)[i],
            ) == dns::aged(dns::u32_at(m, dns::answer_fields(m)[i]), elapsed),
{
    law_fields_are_apart(m);
    lemma_fields_aged(m, dns::answer_fields(m), elapsed);
    reveal(ages_fields);
    law_fields_stay(m, dns::answers_aged(m, elapsed));
}

/// A served message has the client's id; every TTL in its answers is what is
/// left of the stored one; and every other byte is the stored one.
pub proof fn law_served(m: Seq<u8>, client_id: u16, elapsed: u32)
    ensures
        dns::served(m, client_id, elapsed).len() == m.len(),
        m.len() >= 2 ==> dns::u16_at(dns::served(m, client_id, elapsed), 0) == client_id,
        same_outside(m, dns::served(m, client_id, elapsed), dns::answer_fields(m), 2),
        dns::answer_fields(dns::served(m, client_id, elapsed)) == dns::answer_fields(m),
        forall|i: int|
            0 <= i < dns::answer_fields(m).len() ==> dns::u32_at(
                dns::served(m, client_id, elapsed),
                #[trigger] dns::answer_fields(m)[i],
            ) == dns::aged(dns::u32_at(m, dns::answer_fields(m)[i]), elapsed),
{
    law_fields_are_apart(m);
    law_ageing(m, elapsed);
    law_fields_stay(m, dns::served(m, client_id, elapsed));
}

/// The TTL of a message is the least in its answers: none is less, and one is
/// as much. Without answers it is `NEGATIVE_TTL`.
pub proof fn law_ttl_is_least(m: Seq<u8>)
    ensures
        dns::answer_fields(m).len() == 0 ==> dns::ttl_of(m) == dns::NEGATIVE_TTL,
        forall|i: int|
            0 <= i < dns::answer_fields(m).len() ==> dns::ttl_of(m) <= dns::u32_at(
                m,
                #[trigger] dns::answer_fields(m)[i],
            ),
        dns::answer_fields(m).len() > 0 ==> exists|i: int|
            0 <= i < dns::answer_fields(m).len() && dns::ttl_of(m) == dns::u32_at(
                m,
                #[trigger] dns::answer_fields(m)[i],
            ),
{
    lemma_least(m, dns::answer_fields(m));
}

/// A reply is kept for the least TTL of its answers; one without answers, and
/// one that says that the name does not exist, is kept for `NEGATIVE_TTL`.
pub proof fn law_kept_secs(m: Seq<u8>)
    ensures
        dns::answer_fields(m).len() == 0 || metrics::rcode(m) == dns::NXDOMAIN ==> dns::kept_secs(m)
            == dns::NEGATIVE_TTL,
        metrics::rcode(m) != dns::NXDOMAIN ==> forall|i: int|
            0 <= i < dns::answer_fields(m).len() ==> dns::kept_secs(m) <= dns::u32_at(
                m,
                #[trigger] dns::answer_fields(m)[i],
            ),
        metrics::rcode(m) != dns::NXDOMAIN && dns::answer_fields(m).len() > 0 ==> exists|i: int|
            0 <= i < dns::answer_fields(m).len() && dns::kept_secs(m) == dns::u32_at(
                m,
                #[trigger] dns::answer_fields(m)[i],
            ),
{
    law_ttl_is_least(m);
}

proof fn lemma_least(m: Seq<u8>, fields: Seq<int>)
    ensures
        forall|i: int|
            0 <= i < fields.len() ==> dns::least_ttl(m, fields) <= dns::u32_at(
                m,
                #[trigger] fields[i],
            ),
        fields.len() > 0 ==> exists|i: int|
            0 <= i < fields.len() && dns::least_ttl(m, fields) == dns::u32_at(
                m,
                #[trigger] fields[i],
            ),
    decreases fields.len(),
{
    if fields.len() > 0 {
        let before = fields.drop_last();
        let n = fields.len() - 1;
        lemma_least(m, before);
        assert(forall|i: int| 0 <= i < before.len() ==> #[trigger] before[i] == fields[i]);
        assert(fields[n] == fields.last());
        if fields.len() > 1 && dns::u32_at(m, fields.last()) >= dns::least_ttl(m, before) {
            let i = choose|i: int|
                0 <= i < before.len() && dns::least_ttl(m, before) == dns::u32_at(
                    m,
                    #[trigger] before[i],
                );
            assert(dns::least_ttl(m, fields) == dns::u32_at(m, fields[i]));
        }
        assert forall|i: int| 0 <= i < fields.len() implies dns::least_ttl(m, fields)
            <= dns::u32_at(m, #[trigger] fields[i]) by {
            if i < n {
                assert(before[i] == fields[i]);
            }
        }
    }
}

/// The TTL of a served message is what is left of the stored one's. A message
/// without answers keeps `NEGATIVE_TTL`.
pub proof fn law_served_ttl(m: Seq<u8>, client_id: u16, elapsed: u32)
    ensures
        dns::ttl_of(dns::served(m, client_id, elapsed)) == (if dns::answer_fields(m).len() == 0 {
            dns::NEGATIVE_TTL
        } else {
            dns::aged(dns::ttl_of(m), elapsed)
        }),
{
    let out = dns::served(m, client_id, elapsed);
    law_served(m, client_id, elapsed);
    law_ttl_is_least(m);
    law_ttl_is_least(out);
}

/// A message that is served before its TTL has run out carries no answer that
/// has: each has as many seconds left as were stored, less the elapsed ones.
pub proof fn law_fresh_answers(m: Seq<u8>, client_id: u16, elapsed: u32)
    requires
        elapsed < dns::ttl_of(m),
    ensures
        forall|i: int|
            0 <= i < dns::answer_fields(m).len() ==> {
                &&& dns::u32_at(
                    dns::served(m, client_id, elapsed),
                    #[trigger] dns::answer_fields(m)[i],
                ) == dns::u32_at(m, dns::answer_fields(m)[i]) - elapsed
                &&& dns::u32_at(dns::served(m, client_id, elapsed), dns::answer_fields(m)[i]) > 0
            },
{
    law_served(m, client_id, elapsed);
    law_ttl_is_least(m);
}

/// The sum of two spans, as far as a span can be written down.
pub open spec fn added_secs(a: u32, b: u32) -> u32 {
    if a + b <= u32::MAX {
        (a + b) as u32
    } else {
        u32::MAX
    }
}

proof fn lemma_aged_twice(ttl: u32, first: u32, second: u32)
    ensures
        dns::aged(dns::aged(ttl, first), second) == dns::aged(ttl, added_secs(first, second)),
{
}

/// Two messages are the same where their ids, their TTL fields and all other
/// bytes are.
proof fn lemma_same_message(a: Seq<u8>, b: Seq<u8>, fields: Seq<int>)
    requires
        same_outside(a, b, fields, 2),
        forall|k: int| 0 <= k < 2 && k < a.len() ==> #[trigger] a[k] == b[k],
        forall|i: int|
            0 <= i < fields.len() ==> dns::u32_at(a, #[trigger] fields[i]) == dns::u32_at(
                b,
                fields[i],
            ),
    ensures
        a == b,
{
    assert forall|k: int| 0 <= k < a.len() implies #[trigger] a[k] == b[k] by {
        if in_field(fields, k) {
            let i = choose|i: int| 0 <= i < fields.len() && #[trigger] fields[i] <= k < fields[i] + 4;
            lemma_bytes_of_same_u32(a, b, fields[i]);
        }
    }
    assert(a =~= b);
}

/// The id of a message is its first two bytes.
proof fn lemma_id_bytes(m: Seq<u8>, id: u16)
    requires
        m.len() >= 2,
    ensures
        dns::with_id(m, id)[0] == (id / 0x100) as u8,
        dns::with_id(m, id)[1] == (id % 0x100) as u8,
{
}

/// What was aged twice is what was aged once by both spans.
proof fn lemma_twice_is_once(
    m: Seq<u8>,
    mid: Seq<u8>,
    twice: Seq<u8>,
    once: Seq<u8>,
    fields: Seq<int>,
    first: u32,
    second: u32,
)
    requires
        same_outside(m, mid, fields, 2),
        same_outside(mid, twice, fields, 2),
        same_outside(m, once, fields, 2),
        ages_fields(m, mid, fields, first),
        ages_fields(mid, twice, fields, second),
        ages_fields(m, once, fields, added_secs(first, second)),
        forall|k: int| 0 <= k < 2 && k < m.len() ==> #[trigger] twice[k] == once[k],
    ensures
        twice == once,
{
    assert forall|i: int| 0 <= i < fields.len() implies dns::u32_at(twice, #[trigger] fields[i])
        == dns::u32_at(once, fields[i]) by {
        reveal(ages_fields);
        lemma_aged_twice(dns::u32_at(m, fields[i]), first, second);
    }
    assert forall|k: int| 2 <= k < m.len() && !in_field(fields, k) implies #[trigger] twice[k]
        == once[k] by {
        assert(m[k] == mid[k]);
        assert(mid[k] == twice[k]);
        assert(m[k] == once[k]);
    }
    lemma_same_message(twice, once, fields);
}

proof fn lemma_served_shape(m: Seq<u8>, client_id: u16, elapsed: u32, out: Seq<u8>)
    requires
        out == dns::served(m, client_id, elapsed),
    ensures
        same_outside(m, out, dns::answer_fields(m), 2),
        dns::answer_fields(out) == dns::answer_fields(m),
        ages_fields(m, out, dns::answer_fields(m), elapsed),
        m.len() >= 2 ==> out[0] == (client_id / 0x100) as u8 && out[1] == (client_id
            % 0x100) as u8,
        m.len() < 2 ==> out == m,
{
    law_served(m, client_id, elapsed);
    law_fields_are_apart(m);
    assert(ages_fields(m, out, dns::answer_fields(m), elapsed)) by {
        reveal(ages_fields);
    }
    if m.len() >= 2 {
        law_ageing(m, elapsed);
        lemma_id_bytes(dns::answers_aged(m, elapsed), client_id);
    }
}

/// Serving what was served ages it further: two hits in a row amount to one
/// after both spans, with the second client's id.
pub proof fn law_served_again(m: Seq<u8>, first_id: u16, first: u32, second_id: u16, second: u32)
    ensures
        dns::served(dns::served(m, first_id, first), second_id, second) == dns::served(
            m,
            second_id,
            added_secs(first, second),
        ),
{
    let both = added_secs(first, second);
    let mid = dns::served(m, first_id, first);
    let twice = dns::served(mid, second_id, second);
    let once = dns::served(m, second_id, both);
    lemma_served_shape(m, first_id, first, mid);
    lemma_served_shape(mid, second_id, second, twice);
    lemma_served_shape(m, second_id, both, once);
    lemma_twice_is_once(m, mid, twice, once, dns::answer_fields(m), first, second);
}

/// Serving a message in its first second changes nothing but the id.
pub proof fn law_served_at_once(m: Seq<u8>, client_id: u16)
    ensures
        dns::served(m, client_id, 0) == dns::with_id(m, client_id),
{
    let out = dns::answers_aged(m, 0);
    law_fields_are_apart(m);
    law_ageing(m, 0);
    assert(ages_fields(m, out, dns::answer_fields(m), 0)) by {
        reveal(ages_fields);
    }
    lemma_aged_by_nothing(m, out, dns::answer_fields(m));
}

proof fn lemma_aged_by_nothing(m: Seq<u8>, out: Seq<u8>, fields: Seq<int>)
    requires
        same_outside(m, out, fields, 0),
        ages_fields(m, out, fields, 0),
        forall|i: int| 0 <= i < fields.len() ==> 2 <= #[trigger] fields[i],
    ensures
        out == m,
{
    reveal(ages_fields);
    lemma_same_message(out, m, fields);
}

// ---------------------------------------------------------------------------
// The question as a key

/// An uncompressed name ends where the walk over it does, and what it says
/// depends on no byte behind its end.
proof fn lemma_labels_agree(a: Seq<u8>, b: Seq<u8>, pos: int)
    requires
        0 <= pos,
        a.len() == b.len(),
        dns::name_walk(a, pos).0,
        forall|k: int|
            pos <= k < a.len() && k < dns::name_walk(a, pos).1 ==> #[trigger] a[k] == b[k],
    ensures
        dns::labels_at(a, pos) == dns::labels_at(b, pos),
        dns::labels_at(a, pos) matches Some((_, end)) ==> end == dns::name_walk(a, pos).1,
    decreases a.len() - pos,
{
    lemma_walk_forward(a, pos);
    if pos < a.len() && 0 < a[pos] < 0x40 && pos + 1 + a[pos] <= a.len() {
        let next = pos + 1 + a[pos];
        lemma_walk_forward(a, next);
        lemma_labels_agree(a, b, next);
        assert(a.subrange(pos + 1, next) =~= b.subrange(pos + 1, next));
    }
}

/// A served message asks what the stored one asked.
pub proof fn law_served_question(m: Seq<u8>, client_id: u16, elapsed: u32)
    ensures
        dns::question_of(dns::served(m, client_id, elapsed)) == dns::question_of(m),
{
    let out = dns::served(m, client_id, elapsed);
    lemma_served_shape(m, client_id, elapsed, out);
    lemma_same_question(m, out);
}

/// Messages that differ at most in their ids and their TTL fields ask the same.
proof fn lemma_same_question(a: Seq<u8>, b: Seq<u8>)
    requires
        same_outside(a, b, dns::answer_fields(a), 2),
    ensures
        dns::question_of(a) == dns::question_of(b),
{
    let fields = dns::answer_fields(a);
    law_fields_are_apart(a);
    if a.len() >= 12 {
        assert(forall|k: int| 2 <= k < 17 && k < a.len() ==> !in_field(fields, k));
        let n = dns::u16_at(a, 4) as nat;
        lemma_questions_forward(a, 12, n);
        lemma_walk_forward(a, 12);
        if n > 0 {
            if fields.len() > 0 {
                let pos = dns::questions_end(a, 12, n)->0;
                lemma_ttl_fields_layout(a, pos, dns::u16_at(a, 6) as nat);
                assert(forall|k: int| 2 <= k < pos + 5 && k < a.len() ==> !in_field(fields, k));
                lemma_labels_agree(a, b, 12);
            } else {
                assert(forall|k: int| 2 <= k < a.len() ==> !in_field(fields, k));
                lemma_labels_of_same_bytes(a, b, 12);
            }
        }
    }
}

proof fn lemma_labels_of_same_bytes(a: Seq<u8>, b: Seq<u8>, pos: int)
    requires
        0 <= pos,
        a.len() == b.len(),
        forall|k: int| pos <= k < a.len() ==> #[trigger] a[k] == b[k],
    ensures
        dns::labels_at(a, pos) == dns::labels_at(b, pos),
        dns::labels_at(a, pos) matches Some((_, end)) ==> pos < end,
    decreases a.len() - pos,
{
    if pos < a.len() && 0 < a[pos] < 0x40 && pos + 1 + a[pos] <= a.len() {
        let next = pos + 1 + a[pos];
        lemma_labels_of_same_bytes(a, b, next);
        assert(a.subrange(pos + 1, next) =~= b.subrange(pos + 1, next));
    }
}

/// The labels of the name at `pos`.
spec fn labels_of(m: Seq<u8>, pos: int) -> Seq<Seq<u8>> {
    match dns::labels_at(m, pos) {
        Some((labels, _)) => labels,
        None => seq![],
    }
}

/// Names that differ at most in the case of their letters have labels of the
/// same text.
proof fn lemma_labels_ignore_case(a: Seq<u8>, b: Seq<u8>, pos: int, end: int)
    requires
        0 <= pos,
        dns::labels_at(a, pos) matches Some((_, e)) && e == end,
        end <= b.len(),
        forall|k: int| pos <= k < end ==> dns::lower(#[trigger] a[k]) == dns::lower(b[k]),
    ensures
        pos < end <= a.len(),
        dns::labels_at(b, pos) matches Some((_, e)) && e == end,
        labels_of(a, pos).len() == labels_of(b, pos).len(),
        forall|i: int|
            0 <= i < labels_of(a, pos).len() ==> dns::label_text(
                #[trigger] labels_of(a, pos)[i],
            ) == dns::label_text(labels_of(b, pos)[i]),
    decreases a.len() - pos,
{
    if a[pos] == 0 {
        assert(dns::lower(a[pos]) == dns::lower(b[pos]));
        assert(b[pos] == 0);
    } else {
        let next = pos + 1 + a[pos];
        let (rest, e) = dns::labels_at(a, next)->0;
        assert(e == end);
        lemma_labels_forward(a, next);
        assert(dns::lower(a[pos]) == dns::lower(b[pos]));
        assert(b[pos] == a[pos]);
        lemma_labels_ignore_case(a, b, next, end);
        let (rest_b, _) = dns::labels_at(b, next)->0;
        let la = labels_of(a, pos);
        let lb = labels_of(b, pos);
        assert forall|i: int| 0 <= i < la.len() implies dns::label_text(#[trigger] la[i])
            == dns::label_text(lb[i]) by {
            if i == 0 {
                assert forall|j: int| 0 <= j < la[0].len() implies dns::label_text(la[0])[j]
                    == dns::label_text(lb[0])[j] by {
                    assert(la[0][j] == a[pos + 1 + j]);
                    assert(lb[0][j] == b[pos + 1 + j]);
                }
                assert(dns::label_text(la[0]) =~= dns::label_text(lb[0]));
            } else {
                assert(la[i] == rest[i - 1]);
                assert(lb[i] == rest_b[i - 1]);
            }
        }
    }
}

/// A name ends behind where it starts.
proof fn lemma_labels_forward(m: Seq<u8>, pos: int)
    requires
        0 <= pos,
    ensures
        dns::labels_at(m, pos) matches Some((_, end)) ==> pos < end <= m.len(),
    decreases m.len() - pos,
{
    if pos < m.len() && 0 < m[pos] < 0x40 && pos + 1 + m[pos] <= m.len() {
        lemma_labels_forward(m, pos + 1 + m[pos]);
    }
}

proof fn lemma_dotted_same_text(a: Seq<Seq<u8>>, b: Seq<Seq<u8>>)
    requires
        a.len() == b.len(),
        forall|i: int|
            0 <= i < a.len() ==> dns::label_text(#[trigger] a[i]) == dns::label_text(b[i]),
    ensures
        dns::dotted(a) == dns::dotted(b),
    decreases a.len(),
{
    if a.len() > 0 {
        assert(dns::label_text(a[a.len() - 1]) == dns::label_text(b[b.len() - 1]));
        assert(dns::label_text(a[0]) == dns::label_text(b[0]));
        lemma_dotted_same_text(a.drop_last(), b.drop_last());
    }
}

proof fn lemma_dotted_small(labels: Seq<Seq<u8>>)
    ensures
        forall|i: int|
            0 <= i < dns::dotted(labels).len() ==> !('A' <= #[trigger] dns::dotted(labels)[i] <= 'Z'),
    decreases labels.len(),
{
    let all = dns::dotted(labels);
    if labels.len() > 0 {
        let last = dns::label_text(labels.last());
        assert forall|i: int| 0 <= i < last.len() implies !('A' <= #[trigger] last[i] <= 'Z') by {
            assert(last[i] == dns::lower(labels.last()[i]) as char);
        }
        if labels.len() > 1 {
            let before = dns::dotted(labels.drop_last());
            lemma_dotted_small(labels.drop_last());
            assert forall|i: int| 0 <= i < all.len() implies !('A' <= #[trigger] all[i] <= 'Z') by {
                if i < before.len() {
                    assert(all[i] == before[i]);
                } else if i > before.len() {
                    assert(all[i] == last[i - before.len() - 1]);
                }
            }
        }
    }
}

/// The name of a question has no capital letters.
pub proof fn law_names_are_small(m: Seq<u8>, qname: Seq<char>, qtype: u16)
    requires
        dns::question_of(m) == Some((qname, qtype)),
    ensures
        forall|i: int| 0 <= i < qname.len() ==> !('A' <= #[trigger] qname[i] <= 'Z'),
{
    lemma_dotted_small(labels_of(m, 12));
}

/// The position behind the name of the first question.
pub open spec fn name_end(m: Seq<u8>) -> int {
    match dns::labels_at(m, 12) {
        Some((_, end)) => end,
        None => 12,
    }
}

/// Two queries ask the same where their names differ at most in the case of
/// their letters and their types are the same. Their ids, flags, classes, and
/// whatever records follow (EDNS options among them), do not matter.
pub proof fn law_question_is_all_that_matters(a: Seq<u8>, b: Seq<u8>)
    requires
        dns::question_of(a) is Some,
        b.len() >= name_end(a) + 4,
        dns::u16_at(b, 4) != 0,
        forall|k: int| 12 <= k < name_end(a) ==> dns::lower(#[trigger] a[k]) == dns::lower(b[k]),
        dns::u16_at(a, name_end(a)) == dns::u16_at(b, name_end(a)),
    ensures
        dns::question_of(b) == dns::question_of(a),
{
    let end = name_end(a);
    lemma_labels_ignore_case(a, b, 12, end);
    lemma_dotted_same_text(labels_of(a, 12), labels_of(b, 12));
}

/// Where a message asks a question, its name ends behind the header, and the
/// type and the class follow it.
pub proof fn law_name_end_is_inside(m: Seq<u8>)
    requires
        dns::question_of(m) is Some,
    ensures
        12 < name_end(m),
        name_end(m) + 4 <= m.len(),
{
    lemma_labels_forward(m, 12);
}

} // verus!
