//! What the functions on DNS messages do, told by how messages are written: a
//! question by the labels of its name, an answer section by its records.
use crate::dns;
use crate::dns_laws;
use crate::metrics;
use vstd::prelude::*;

verus! {

// ---------------------------------------------------------------------------
// How messages are written

/// The number in the two bytes at `i`, the high one first.
pub open spec fn num16(m: Seq<u8>, i: int) -> int {
    m[i] * 256 + m[i + 1]
}

/// The number in the four bytes at `i`, the highest first.
pub open spec fn num32(m: Seq<u8>, i: int) -> int {
    num16(m, i) * 65536 + num16(m, i + 2)
}

/// Two bytes that hold a number, the high one first.
pub open spec fn be16(v: u16) -> Seq<u8> {
    seq![(v / 256) as u8, (v % 256) as u8]
}

/// Four bytes that hold a number, the highest first.
pub open spec fn be32(v: u32) -> Seq<u8> {
    be16((v / 65536) as u16) + be16((v % 65536) as u16)
}

/// Whether `part` stands in `m` at `pos`.
pub open spec fn stands(m: Seq<u8>, pos: int, part: Seq<u8>) -> bool {
    &&& 0 <= pos
    &&& pos + part.len() <= m.len()
    &&& m.subrange(pos, pos + part.len()) == part
}

proof fn lemma_stands_parts(m: Seq<u8>, pos: int, a: Seq<u8>, b: Seq<u8>)
    requires
        stands(m, pos, a + b),
    ensures
        stands(m, pos, a),
        stands(m, pos + a.len(), b),
{
    let whole = a + b;
    assert(m.subrange(pos, pos + a.len()) =~= whole.subrange(0, a.len() as int)) by {
        assert forall|k: int| 0 <= k < a.len() implies m[pos + k] == whole[k] by {
            assert(m.subrange(pos, pos + whole.len())[k] == whole[k]);
        }
    }
    assert(whole.subrange(0, a.len() as int) =~= a);
    assert(m.subrange(pos + a.len(), pos + a.len() + b.len()) =~= b) by {
        assert forall|k: int| 0 <= k < b.len() implies m[pos + a.len() + k] == b[k] by {
            assert(m.subrange(pos, pos + whole.len())[a.len() + k] == whole[a.len() + k]);
        }
    }
}

proof fn lemma_stands_at(m: Seq<u8>, pos: int, part: Seq<u8>, k: int)
    requires
        stands(m, pos, part),
        0 <= k < part.len(),
    ensures
        m[pos + k] == part[k],
{
    assert(m.subrange(pos, pos + part.len())[k] == part[k]);
}

// ---------------------------------------------------------------------------
// The question

/// Labels that a name can have: of one byte to 63.
pub open spec fn plain(labels: Seq<Seq<u8>>) -> bool {
    forall|i: int| 0 <= i < labels.len() ==> 1 <= (#[trigger] labels[i]).len() <= 63
}

/// A name as it is written in a question: each label behind its length, and a
/// zero at the end.
pub open spec fn written_name(labels: Seq<Seq<u8>>) -> Seq<u8>
    decreases labels.len(),
{
    if labels.len() == 0 {
        seq![0u8]
    } else {
        seq![labels[0].len() as u8] + labels[0] + written_name(labels.skip(1))
    }
}

/// A byte of a label as a character, capital letters made small.
pub open spec fn small_char(b: u8) -> char {
    if 'A' as int <= b <= 'Z' as int {
        (b + 32) as char
    } else {
        b as char
    }
}

/// A label as text, capital letters made small.
pub open spec fn small_text(label: Seq<u8>) -> Seq<char> {
    Seq::new(label.len(), |i: int| small_char(label[i]))
}

/// A name as text: its labels, with dots between them.
pub open spec fn name_text(labels: Seq<Seq<u8>>) -> Seq<char>
    decreases labels.len(),
{
    if labels.len() == 0 {
        seq![]
    } else if labels.len() == 1 {
        small_text(labels[0])
    } else {
        small_text(labels[0]) + seq!['.'] + name_text(labels.skip(1))
    }
}

/// Whether `m` is a message whose first question is for the name made of
/// `labels` and for `qtype`; two bytes of class follow.
pub open spec fn asks(m: Seq<u8>, labels: Seq<Seq<u8>>, qtype: u16) -> bool {
    &&& m.len() >= 12
    &&& num16(m, 4) != 0
    &&& plain(labels)
    &&& stands(m, 12, written_name(labels))
    &&& 12 + written_name(labels).len() + 4 <= m.len()
    &&& num16(m, 12int + written_name(labels).len()) == qtype
}

proof fn lemma_small_text(label: Seq<u8>)
    ensures
        dns::label_text(label) == small_text(label),
{
    assert(dns::label_text(label) =~= small_text(label));
}

proof fn lemma_name_text_back(labels: Seq<Seq<u8>>)
    requires
        labels.len() >= 2,
    ensures
        name_text(labels) == name_text(labels.drop_last()) + seq!['.'] + small_text(labels.last()),
    decreases labels.len(),
{
    let rest = labels.skip(1);
    let front = labels.drop_last();
    assert(front[0] == labels[0]);
    assert(rest.last() == labels.last());
    if labels.len() == 2 {
        assert(rest.len() == 1 && rest[0] == labels[1]);
        assert(name_text(rest) == small_text(labels.last()));
        assert(name_text(front) == small_text(labels[0]));
    } else {
        lemma_name_text_back(rest);
        assert(rest.drop_last() =~= front.skip(1));
        assert(name_text(front) == small_text(labels[0]) + seq!['.'] + name_text(front.skip(1)));
    }
    assert(name_text(labels) == small_text(labels[0]) + seq!['.'] + name_text(rest));
    assert(name_text(labels) =~= name_text(front) + seq!['.'] + small_text(labels.last()));
}

proof fn lemma_dotted_is_name_text(labels: Seq<Seq<u8>>)
    ensures
        dns::dotted(labels) == name_text(labels),
    decreases labels.len(),
{
    if labels.len() == 1 {
        lemma_small_text(labels[0]);
    } else if labels.len() > 1 {
        lemma_dotted_is_name_text(labels.drop_last());
        lemma_small_text(labels.last());
        lemma_name_text_back(labels);
        assert(dns::dotted(labels) =~= name_text(labels));
    }
}

proof fn lemma_labels_read(m: Seq<u8>, pos: int, labels: Seq<Seq<u8>>)
    requires
        plain(labels),
        stands(m, pos, written_name(labels)),
    ensures
        dns::labels_at(m, pos) == Some((labels, pos + written_name(labels).len())),
    decreases labels.len(),
{
    let all = written_name(labels);
    if labels.len() == 0 {
        lemma_stands_at(m, pos, all, 0);
        assert(labels =~= seq![]);
    } else {
        let first = labels[0];
        let rest = labels.skip(1);
        let head = seq![first.len() as u8] + first;
        assert(all == head + written_name(rest));
        lemma_stands_parts(m, pos, head, written_name(rest));
        lemma_stands_parts(m, pos, seq![first.len() as u8], first);
        lemma_stands_at(m, pos, head, 0);
        assert forall|i: int| 0 <= i < rest.len() implies 1 <= (#[trigger] rest[i]).len() <= 63 by {
            assert(rest[i] == labels[i + 1]);
        }
        lemma_labels_read(m, pos + head.len(), rest);
        assert(m[pos] == first.len());
        assert(m.subrange(pos + 1, pos + 1 + first.len()) == first);
        assert(seq![first] + rest =~= labels);
        lemma_written_len(rest);
    }
}

proof fn lemma_written_len(labels: Seq<Seq<u8>>)
    ensures
        written_name(labels).len() >= 1,
    decreases labels.len(),
{
    if labels.len() > 0 {
        lemma_written_len(labels.skip(1));
    }
}

proof fn lemma_labels_written(m: Seq<u8>, pos: int)
    requires
        dns::labels_at(m, pos) is Some,
    ensures
        plain(dns::labels_at(m, pos)->Some_0.0),
        stands(m, pos, written_name(dns::labels_at(m, pos)->Some_0.0)),
        dns::labels_at(m, pos)->Some_0.1 == pos + written_name(dns::labels_at(m, pos)->Some_0.0).len(),
    decreases m.len() - pos,
{
    let (labels, end) = dns::labels_at(m, pos)->0;
    if m[pos] == 0 {
        assert(m.subrange(pos, pos + 1) =~= written_name(labels));
    } else {
        let next = pos + 1 + m[pos];
        lemma_labels_written(m, next);
        let rest = dns::labels_at(m, next)->Some_0.0;
        let first = m.subrange(pos + 1, next);
        assert(labels == seq![first] + rest);
        assert(labels.skip(1) =~= rest);
        assert forall|i: int| 0 <= i < labels.len() implies 1 <= (#[trigger] labels[i]).len()
            <= 63 by {
            if i > 0 {
                assert(labels[i] == rest[i - 1]);
            }
        }
        let tail = written_name(rest);
        let all = written_name(labels);
        assert(all == seq![first.len() as u8] + first + tail);
        assert forall|k: int| 0 <= k < all.len() implies m[pos + k] == all[k] by {
            if k > first.len() {
                lemma_stands_at(m, next, tail, k - 1 - first.len());
            }
        }
        assert(m.subrange(pos, pos + all.len()) =~= all);
    }
}

/// A question comes out where one is written, and only there.
pub(crate) proof fn lemma_question(m: Seq<u8>)
    ensures
        dns::question_of(m) matches Some((qname, qtype)) ==> exists|labels: Seq<Seq<u8>>|
            #[trigger] asks(m, labels, qtype) && qname == name_text(labels),
        dns::question_of(m) is None ==> forall|labels: Seq<Seq<u8>>, qtype: u16|
            !#[trigger] asks(m, labels, qtype),
{
    if let Some((qname, qtype)) = dns::question_of(m) {
        let labels = dns::labels_at(m, 12)->Some_0.0;
        lemma_labels_written(m, 12);
        lemma_dotted_is_name_text(labels);
        assert(asks(m, labels, qtype));
    } else {
        assert forall|labels: Seq<Seq<u8>>, qtype: u16| !#[trigger] asks(m, labels, qtype) by {
            if asks(m, labels, qtype) {
                lemma_labels_read(m, 12, labels);
            }
        }
    }
}

pub(crate) proof fn lemma_asked(m: Seq<u8>, labels: Seq<Seq<u8>>, qtype: u16)
    requires
        asks(m, labels, qtype),
    ensures
        dns::question_of(m) == Some((name_text(labels), qtype)),
{
    lemma_labels_read(m, 12, labels);
    lemma_dotted_is_name_text(labels);
}

/// A question is read as it was written: the name that comes out is made of the
/// labels that stand in the message, and the type is the number behind them.
pub proof fn law_question_is_read(
    msg: &[u8],
    question: Option<(String, u16)>,
    labels: Seq<Seq<u8>>,
    qtype: u16,
)
    requires
        call_ensures(dns::parse_question, (msg,), question),
        asks(msg@, labels, qtype),
    ensures
        question is Some,
        question->Some_0.0@ == name_text(labels),
        question->Some_0.1 == qtype,
{
    lemma_labels_read(msg@, 12, labels);
    lemma_dotted_is_name_text(labels);
}

/// No question is made up: where one comes out, it was written in the message,
/// with that name and that type.
pub proof fn law_question_was_asked(msg: &[u8], question: Option<(String, u16)>)
    requires
        call_ensures(dns::parse_question, (msg,), question),
        question is Some,
    ensures
        exists|labels: Seq<Seq<u8>>|
            #[trigger] asks(msg@, labels, question->Some_0.1) && question->Some_0.0@ == name_text(labels),
{
    let labels = dns::labels_at(msg@, 12)->Some_0.0;
    lemma_labels_written(msg@, 12);
    lemma_dotted_is_name_text(labels);
    assert(asks(msg@, labels, question->Some_0.1));
}

/// The type that is asked for is the number in the two bytes behind the name.
pub proof fn law_type_stands_behind_the_name(m: Seq<u8>, qname: Seq<char>, qtype: u16)
    requires
        dns::question_of(m) == Some((qname, qtype)),
    ensures
        qtype == num16(m, dns_laws::name_end(m)),
{
}

/// Two messages that ask for different types ask different questions, and so do
/// two whose names have different texts.
pub proof fn law_questions_differ(
    a: Seq<u8>,
    a_labels: Seq<Seq<u8>>,
    a_type: u16,
    b: Seq<u8>,
    b_labels: Seq<Seq<u8>>,
    b_type: u16,
)
    requires
        asks(a, a_labels, a_type),
        asks(b, b_labels, b_type),
        a_type != b_type || name_text(a_labels) != name_text(b_labels),
    ensures
        dns::question_of(a) is Some,
        dns::question_of(b) is Some,
        dns::question_of(a) != dns::question_of(b),
{
    lemma_labels_read(a, 12, a_labels);
    lemma_dotted_is_name_text(a_labels);
    lemma_labels_read(b, 12, b_labels);
    lemma_dotted_is_name_text(b_labels);
}

// ---------------------------------------------------------------------------
// The answer section

/// A name as it may be written anywhere in a message: labels behind their
/// lengths, and at the end a zero or a pointer of two bytes.
pub open spec fn wire_name(name: Seq<u8>) -> bool
    decreases name.len(),
{
    if name.len() == 0 {
        false
    } else if name[0] == 0 {
        name.len() == 1
    } else if name[0] >= 192 {
        name.len() == 2
    } else {
        1 + name[0] < name.len() && wire_name(name.skip(1 + name[0]))
    }
}

/// A record of a message.
pub struct Record {
    pub name: Seq<u8>,
    pub rtype: u16,
    pub class: u16,
    pub ttl: u32,
    pub data: Seq<u8>,
}

/// A record that can be written.
pub open spec fn writable(r: Record) -> bool {
    wire_name(r.name) && r.data.len() <= 65535
}

/// A record as it is written.
pub open spec fn written_record(r: Record) -> Seq<u8> {
    r.name + (be16(r.rtype) + be16(r.class) + be32(r.ttl) + be16(r.data.len() as u16) + r.data)
}

/// Records as they are written, one behind the other.
pub open spec fn written_records(records: Seq<Record>) -> Seq<u8>
    decreases records.len(),
{
    if records.len() == 0 {
        seq![]
    } else {
        written_record(records[0]) + written_records(records.skip(1))
    }
}

/// A question of a message: a name, and four bytes of type and class.
pub open spec fn written_question(q: Seq<u8>) -> bool {
    q.len() > 4 && wire_name(q.take(q.len() - 4))
}

/// Questions as they are written, one behind the other.
pub open spec fn written_questions(questions: Seq<Seq<u8>>) -> Seq<u8>
    decreases questions.len(),
{
    if questions.len() == 0 {
        seq![]
    } else {
        questions[0] + written_questions(questions.skip(1))
    }
}

/// Whether `m` is a message with these questions and these records in its
/// answer section. Whatever follows them does not matter.
pub open spec fn carries(m: Seq<u8>, questions: Seq<Seq<u8>>, records: Seq<Record>) -> bool {
    &&& m.len() >= 12
    &&& num16(m, 4) == questions.len()
    &&& num16(m, 6) == records.len()
    &&& forall|i: int| 0 <= i < questions.len() ==> written_question(#[trigger] questions[i])
    &&& forall|i: int| 0 <= i < records.len() ==> writable(#[trigger] records[i])
    &&& stands(m, 12, written_questions(questions) + written_records(records))
}

/// Where the TTL of a record stands: four bytes behind the end of its name.
pub open spec fn ttl_place(questions: Seq<Seq<u8>>, records: Seq<Record>, i: int) -> int {
    12int + written_questions(questions).len() + written_records(records.take(i)).len()
        + records[i].name.len() + 4
}

proof fn lemma_walk_over(m: Seq<u8>, pos: int, name: Seq<u8>)
    requires
        wire_name(name),
        stands(m, pos, name),
    ensures
        dns::name_walk(m, pos) == (true, pos + name.len()),
    decreases name.len(),
{
    lemma_stands_at(m, pos, name, 0);
    if 0 < name[0] < 192 {
        let n = 1 + name[0] as int;
        assert(name.take(n) + name.skip(n) =~= name);
        lemma_stands_parts(m, pos, name.take(n), name.skip(n));
        lemma_walk_over(m, pos + n, name.skip(n));
    }
}

proof fn lemma_questions_over(m: Seq<u8>, pos: int, questions: Seq<Seq<u8>>)
    requires
        forall|i: int| 0 <= i < questions.len() ==> written_question(#[trigger] questions[i]),
        stands(m, pos, written_questions(questions)),
    ensures
        dns::questions_end(m, pos, questions.len()) == Some(
            pos + written_questions(questions).len(),
        ),
    decreases questions.len(),
{
    if questions.len() > 0 {
        let q = questions[0];
        let rest = questions.skip(1);
        lemma_stands_parts(m, pos, q, written_questions(rest));
        let name = q.take(q.len() - 4);
        assert(name + q.skip(q.len() - 4) =~= q);
        lemma_stands_parts(m, pos, name, q.skip(q.len() - 4));
        assert(written_question(questions[0]));
        lemma_walk_over(m, pos, name);
        assert forall|i: int| 0 <= i < rest.len() implies written_question(#[trigger] rest[i]) by {
            assert(rest[i] == questions[i + 1]);
        }
        lemma_questions_over(m, pos + q.len(), rest);
    }
}

/// What is read of one record.
proof fn lemma_record_read(m: Seq<u8>, pos: int, r: Record)
    requires
        writable(r),
        stands(m, pos, written_record(r)),
    ensures
        dns::name_walk(m, pos) == (true, pos + r.name.len()),
        pos + r.name.len() + 10 + r.data.len() <= m.len(),
        num32(m, pos + r.name.len() + 4) == r.ttl,
        dns::u16_at(m, pos + r.name.len() + 8) == r.data.len(),
        written_record(r).len() == r.name.len() + 10 + r.data.len(),
{
    let tail = be16(r.rtype) + be16(r.class) + be32(r.ttl) + be16(r.data.len() as u16) + r.data;
    lemma_stands_parts(m, pos, r.name, tail);
    lemma_walk_over(m, pos, r.name);
    let at = pos + r.name.len();
    assert(tail.len() == 10 + r.data.len());
    lemma_stands_at(m, at, tail, 4);
    lemma_stands_at(m, at, tail, 5);
    lemma_stands_at(m, at, tail, 6);
    lemma_stands_at(m, at, tail, 7);
    lemma_stands_at(m, at, tail, 8);
    lemma_stands_at(m, at, tail, 9);
    assert(tail[4] == be32(r.ttl)[0] && tail[5] == be32(r.ttl)[1] && tail[6] == be32(r.ttl)[2]
        && tail[7] == be32(r.ttl)[3]);
    assert(tail[8] == be16(r.data.len() as u16)[0] && tail[9] == be16(r.data.len() as u16)[1]);
}

proof fn lemma_records_over(m: Seq<u8>, pos: int, records: Seq<Record>)
    requires
        forall|i: int| 0 <= i < records.len() ==> writable(#[trigger] records[i]),
        stands(m, pos, written_records(records)),
    ensures
        dns::ttl_fields(m, pos, records.len()).len() == records.len(),
        forall|i: int|
            0 <= i < records.len() ==> #[trigger] dns::ttl_fields(m, pos, records.len())[i] == pos
                + written_records(records.take(i)).len() + records[i].name.len() + 4,
        forall|i: int|
            0 <= i < records.len() ==> num32(
                m,
                #[trigger] dns::ttl_fields(m, pos, records.len())[i],
            ) == records[i].ttl,
    decreases records.len(),
{
    if records.len() > 0 {
        let r = records[0];
        let rest = records.skip(1);
        assert(writable(records[0]));
        lemma_stands_parts(m, pos, written_record(r), written_records(rest));
        lemma_record_read(m, pos, r);
        let next = pos + written_record(r).len();
        assert forall|i: int| 0 <= i < rest.len() implies writable(#[trigger] rest[i]) by {
            assert(rest[i] == records[i + 1]);
        }
        lemma_records_over(m, next, rest);
        let all = dns::ttl_fields(m, pos, records.len());
        let later = dns::ttl_fields(m, next, rest.len());
        assert(all == seq![pos + r.name.len() + 4] + later);
        assert(written_records(records.take(0)).len() == 0);
        assert forall|i: int| 0 < i < records.len() implies #[trigger] all[i] == pos
            + written_records(records.take(i)).len() + records[i].name.len() + 4 && num32(m, all[i])
            == records[i].ttl by {
            assert(all[i] == later[i - 1]);
            assert(rest[i - 1] == records[i]);
            assert(records.take(i).skip(1) =~= rest.take(i - 1));
            assert(records.take(i)[0] == r);
        }
    }
}

/// Every record of the answer section has its TTL found, whatever its type, its
/// class and its data are: as many fields as records, each four bytes behind
/// the end of its record's name, in order.
pub proof fn law_every_answer_is_found(
    msg: &[u8],
    info: (u32, Vec<usize>),
    questions: Seq<Seq<u8>>,
    records: Seq<Record>,
)
    requires
        call_ensures(dns::answer_ttl_info, (msg,), info),
        carries(msg@, questions, records),
    ensures
        dns::answer_fields(msg@).len() == records.len(),
        info.1@.len() == records.len(),
        forall|i: int|
            0 <= i < records.len() ==> {
                &&& #[trigger] info.1@[i] == ttl_place(questions, records, i)
                &&& dns::answer_fields(msg@)[i] == info.1@[i]
                &&& num32(msg@, info.1@[i] as int) == records[i].ttl
            },
{
    let m = msg@;
    lemma_stands_parts(m, 12, written_questions(questions), written_records(records));
    lemma_questions_over(m, 12, questions);
    lemma_records_over(m, 12int + written_questions(questions).len(), records);
    assert forall|i: int| 0 <= i < records.len() implies #[trigger] info.1@[i]
        == dns::answer_fields(m)[i] by {
        assert(dns::positions(info.1@)[i] == info.1@[i]);
    }
}

/// The time that comes out is the least TTL of the records: no record has less,
/// and one has as much. It is a minute where there is no record.
pub proof fn law_least_ttl_of_the_records(
    msg: &[u8],
    info: (u32, Vec<usize>),
    questions: Seq<Seq<u8>>,
    records: Seq<Record>,
)
    requires
        call_ensures(dns::answer_ttl_info, (msg,), info),
        carries(msg@, questions, records),
    ensures
        records.len() == 0 ==> info.0 == 60,
        forall|i: int| 0 <= i < records.len() ==> info.0 <= (#[trigger] records[i]).ttl,
        records.len() > 0 ==> exists|i: int|
            0 <= i < records.len() && info.0 == (#[trigger] records[i]).ttl,
{
    law_every_answer_is_found(msg, info, questions, records);
    dns_laws::law_ttl_is_least(msg@);
    let fields = dns::answer_fields(msg@);
    assert forall|i: int| 0 <= i < records.len() implies info.0 <= (#[trigger] records[i]).ttl by {
        assert(fields[i] == info.1@[i]);
        assert(dns::u32_at(msg@, fields[i]) == num32(msg@, fields[i]));
    }
    if records.len() > 0 {
        let i = choose|i: int|
            0 <= i < fields.len() && dns::ttl_of(msg@) == dns::u32_at(msg@, #[trigger] fields[i]);
        assert(fields[i] == info.1@[i]);
        assert(info.0 == records[i].ttl);
    }
}

/// Of any message, the time that comes out goes by the numbers in the fields
/// that are found: none is less, one is as much, and it is a minute where there
/// are none.
pub proof fn law_least_ttl_of_the_fields(msg: &[u8], info: (u32, Vec<usize>))
    requires
        call_ensures(dns::answer_ttl_info, (msg,), info),
    ensures
        info.1@.len() == 0 ==> info.0 == 60,
        forall|i: int| 0 <= i < info.1@.len() ==> info.0 <= num32(msg@, #[trigger] info.1@[i] as int),
        info.1@.len() > 0 ==> exists|i: int|
            0 <= i < info.1@.len() && info.0 == num32(msg@, #[trigger] info.1@[i] as int),
{
    let fields = dns::answer_fields(msg@);
    dns_laws::law_ttl_is_least(msg@);
    assert(fields.len() == info.1@.len());
    assert forall|i: int| 0 <= i < info.1@.len() implies info.0 <= num32(
        msg@,
        #[trigger] info.1@[i] as int,
    ) by {
        assert(fields[i] == info.1@[i]);
        assert(dns::u32_at(msg@, fields[i]) == num32(msg@, fields[i]));
    }
    if info.1@.len() > 0 {
        let i = choose|i: int|
            0 <= i < fields.len() && dns::ttl_of(msg@) == dns::u32_at(msg@, #[trigger] fields[i]);
        assert(fields[i] == info.1@[i]);
        assert(info.0 == num32(msg@, info.1@[i] as int));
    }
}

// ---------------------------------------------------------------------------
// Messages that are cut off

proof fn lemma_walk_of_cut(m: Seq<u8>, k: int, pos: int)
    requires
        0 <= k <= m.len(),
        0 <= pos,
    ensures
        dns::name_walk(m.take(k), pos).0 ==> dns::name_walk(m, pos) == dns::name_walk(
            m.take(k),
            pos,
        ),
        !dns::name_walk(m.take(k), pos).0 && dns::name_walk(m, pos).0 ==> dns::name_walk(m, pos).1
            > k,
        pos <= dns::name_walk(m, pos).1,
    decreases (if pos < m.len() { m.len() - pos } else { 0 }),
{
    if pos < m.len() && m[pos] != 0 && m[pos] < 192 {
        lemma_walk_of_cut(m, k, pos + 1 + m[pos]);
    }
    if pos < k {
        assert(m.take(k)[pos] == m[pos]);
    }
}

proof fn lemma_questions_of_cut(m: Seq<u8>, k: int, pos: int, n: nat)
    requires
        0 <= k <= m.len(),
        0 <= pos,
    ensures
        dns::questions_end(m.take(k), pos, n) is Some ==> dns::questions_end(m, pos, n)
            == dns::questions_end(m.take(k), pos, n),
        dns::questions_end(m.take(k), pos, n) is None ==> (dns::questions_end(m, pos, n) matches Some(
            end,
        ) ==> end > k),
        dns::questions_end(m, pos, n) matches Some(end) ==> end >= pos,
    decreases n,
{
    if n > 0 {
        lemma_walk_of_cut(m, k, pos);
        let end = dns::name_walk(m, pos).1;
        lemma_questions_of_cut(m, k, end + 4, (n - 1) as nat);
    }
}

/// Which of the fields are left where a message is cut off at `k`: the first
/// ones, as far as the bytes up to the length of the data are there.
pub open spec fn left_of(cut: Seq<int>, all: Seq<int>, k: int) -> bool {
    &&& cut.len() <= all.len()
    &&& forall|i: int| 0 <= i < cut.len() ==> #[trigger] cut[i] == all[i]
    &&& forall|i: int| 0 <= i < all.len() ==> (i < cut.len() <==> #[trigger] all[i] + 6 <= k)
}

proof fn lemma_fields_start(m: Seq<u8>, pos: int, n: nat)
    requires
        0 <= pos,
    ensures
        forall|i: int|
            0 <= i < dns::ttl_fields(m, pos, n).len() ==> pos + 5 <= #[trigger] dns::ttl_fields(m, pos, n)[i],
    decreases n,
{
    let (ended, end) = dns::name_walk(m, pos);
    lemma_walk_of_cut(m, 0, pos);
    if n > 0 && ended && end + 10 <= m.len() {
        lemma_walk_ahead(m, pos);
        let next = end + 10 + dns::u16_at(m, end + 8);
        lemma_fields_start(m, next, (n - 1) as nat);
        let later = dns::ttl_fields(m, next, (n - 1) as nat);
        assert forall|i: int| 0 < i < dns::ttl_fields(m, pos, n).len() implies
            #[trigger] dns::ttl_fields(m, pos, n)[i] == later[i - 1] by {}
    }
}

proof fn lemma_walk_ahead(m: Seq<u8>, pos: int)
    requires
        0 <= pos,
    ensures
        dns::name_walk(m, pos).0 ==> dns::name_walk(m, pos).1 > pos,
    decreases (if pos < m.len() { m.len() - pos } else { 0 }),
{
    if pos < m.len() && m[pos] != 0 && m[pos] < 192 {
        lemma_walk_ahead(m, pos + 1 + m[pos]);
    }
}

proof fn lemma_fields_of_cut(m: Seq<u8>, k: int, pos: int, n: nat)
    requires
        0 <= k <= m.len(),
        0 <= pos,
    ensures
        left_of(dns::ttl_fields(m.take(k), pos, n), dns::ttl_fields(m, pos, n), k),
    decreases n,
{
    let cut = m.take(k);
    let (ended, end) = dns::name_walk(m, pos);
    lemma_walk_of_cut(m, k, pos);
    lemma_fields_start(m, pos, n);
    let all = dns::ttl_fields(m, pos, n);
    if n > 0 && ended && end + 10 <= m.len() {
        let next = end + 10 + dns::u16_at(m, end + 8);
        let later = dns::ttl_fields(m, next, (n - 1) as nat);
        assert(all == seq![end + 4] + later);
        assert forall|i: int| 0 < i < all.len() implies #[trigger] all[i] == later[i - 1] by {}
        lemma_fields_start(m, next, (n - 1) as nat);
        lemma_fields_of_cut(m, k, next, (n - 1) as nat);
        if dns::name_walk(cut, pos).0 && end + 10 <= k {
            assert(cut[end + 8] == m[end + 8] && cut[end + 9] == m[end + 9]);
            let later_cut = dns::ttl_fields(cut, next, (n - 1) as nat);
            let all_cut = dns::ttl_fields(cut, pos, n);
            assert(all_cut == seq![end + 4] + later_cut);
            assert forall|i: int| 0 <= i < all_cut.len() implies #[trigger] all_cut[i] == all[i] by {
                if i > 0 {
                    assert(all_cut[i] == later_cut[i - 1]);
                }
            }
            assert forall|i: int| 0 <= i < all.len() implies (i < all_cut.len() <==> #[trigger] all[i]
                + 6 <= k) by {
                if i > 0 {
                    assert(all[i] == later[i - 1]);
                }
            }
        } else {
            assert(dns::ttl_fields(cut, pos, n).len() == 0);
            assert forall|i: int| 0 <= i < all.len() implies #[trigger] all[i] + 6 > k by {}
        }
    }
}

/// A message that is cut off has the TTL fields of the whole one, as far as
/// their records' fixed parts are there, and no others.
pub proof fn law_cut_message(
    whole: &[u8],
    info: (u32, Vec<usize>),
    cut: &[u8],
    cut_info: (u32, Vec<usize>),
)
    requires
        call_ensures(dns::answer_ttl_info, (whole,), info),
        call_ensures(dns::answer_ttl_info, (cut,), cut_info),
        cut@.len() <= whole@.len(),
        cut@ == whole@.take(cut@.len() as int),
    ensures
        left_of(dns::answer_fields(cut@), dns::answer_fields(whole@), cut@.len() as int),
        cut_info.1@.len() <= info.1@.len(),
        forall|i: int| 0 <= i < cut_info.1@.len() ==> #[trigger] cut_info.1@[i] == info.1@[i],
        forall|i: int|
            0 <= i < info.1@.len() ==> (i < cut_info.1@.len() <==> #[trigger] info.1@[i] + 6
                <= cut@.len()),
{
    let m = whole@;
    let k = cut@.len() as int;
    lemma_answers_of_cut(m, k);
    assert forall|i: int| 0 <= i < info.1@.len() implies #[trigger] info.1@[i] == dns::answer_fields(
        m,
    )[i] by {
        assert(dns::positions(info.1@)[i] == info.1@[i]);
    }
    assert forall|i: int| 0 <= i < cut_info.1@.len() implies #[trigger] cut_info.1@[i]
        == dns::answer_fields(cut@)[i] by {
        assert(dns::positions(cut_info.1@)[i] == cut_info.1@[i]);
    }
    assert(dns::answer_fields(m).len() == info.1@.len());
    assert(dns::answer_fields(cut@).len() == cut_info.1@.len());
}

proof fn lemma_answers_of_cut(m: Seq<u8>, k: int)
    requires
        0 <= k <= m.len(),
    ensures
        left_of(dns::answer_fields(m.take(k)), dns::answer_fields(m), k),
{
    let cut = m.take(k);
    dns_laws::law_fields_are_apart(m);
    if k >= 12 {
        assert(cut[4] == m[4] && cut[5] == m[5] && cut[6] == m[6] && cut[7] == m[7]);
        let n = dns::u16_at(m, 4) as nat;
        let an = dns::u16_at(m, 6) as nat;
        lemma_questions_of_cut(m, k, 12, n);
        if let Some(pos) = dns::questions_end(m, 12, n) {
            lemma_fields_of_cut(m, k, pos, an);
            lemma_fields_start(m, pos, an);
        }
    }
}

// ---------------------------------------------------------------------------
// Ids and TTLs

/// The id of a message is the number in its first two bytes.
pub proof fn law_id_is_read(msg: &[u8], id: u16)
    requires
        call_ensures(dns::read_id, (msg,), id),
        msg@.len() >= 2,
    ensures
        id == num16(msg@, 0),
{
}

/// Whether `out` is `m` but for its id, which is `id` where there is room for
/// one.
pub open spec fn has_id(m: Seq<u8>, out: Seq<u8>, id: u16) -> bool {
    &&& out.len() == m.len()
    &&& m.len() >= 2 ==> num16(out, 0) == id
    &&& m.len() < 2 ==> out == m
    &&& forall|k: int| 2 <= k < m.len() ==> #[trigger] out[k] == m[k]
}

pub(crate) proof fn lemma_has_id(m: Seq<u8>, id: u16)
    ensures
        has_id(m, dns::with_id(m, id), id),
{
}

/// Setting the id sets the first two bytes and no others.
pub proof fn law_id_is_set(msg: &mut [u8], id: u16)
    requires
        call_ensures(dns::rewrite_id, (msg, id), ()),
    ensures
        has_id(old(msg)@, final(msg)@, id),
{
    lemma_has_id(old(msg)@, id);
}

/// What is left of a TTL after a time.
pub open spec fn less(ttl: int, elapsed: int) -> int {
    if ttl > elapsed {
        ttl - elapsed
    } else {
        0
    }
}

/// One TTL is taken down by the elapsed seconds, to zero at the least, and no
/// other byte changes; one that the message does not hold is passed over.
pub proof fn law_one_ttl_goes_down(msg: &mut [u8], offsets: &[usize], elapsed: u32)
    requires
        call_ensures(dns::decrement_ttls, (msg, offsets, elapsed), ()),
        offsets@.len() == 1,
    ensures
        final(msg)@.len() == old(msg)@.len(),
        offsets@[0] + 4 > old(msg)@.len() ==> final(msg)@ == old(msg)@,
        offsets@[0] + 4 <= old(msg)@.len() ==> {
            &&& num32(final(msg)@, offsets@[0] as int) == less(
                num32(old(msg)@, offsets@[0] as int),
                elapsed as int,
            )
            &&& forall|k: int|
                0 <= k < old(msg)@.len() && !(offsets@[0] <= k < offsets@[0] + 4)
                    ==> #[trigger] final(msg)@[k] == old(msg)@[k]
        },
{
    let m = old(msg)@;
    let fields = dns::positions(offsets@);
    let at = offsets@[0] as int;
    assert(fields.len() == 1 && fields.last() == at);
    assert(fields.drop_last() =~= seq![]);
    assert(dns::fields_aged(m, fields.drop_last(), elapsed) == m);
    if at + 4 <= m.len() {
        let ttl = dns::u32_at(m, at);
        dns::lemma_with_u32(m, at, dns::aged(ttl, elapsed));
        assert(dns::u32_at(final(msg)@, at) == num32(final(msg)@, at));
        assert(ttl == num32(m, at));
    }
}

proof fn lemma_aged_in_turn(m: Seq<u8>, a: Seq<int>, b: Seq<int>, elapsed: u32)
    ensures
        dns::fields_aged(m, a + b, elapsed) == dns::fields_aged(
            dns::fields_aged(m, a, elapsed),
            b,
            elapsed,
        ),
    decreases b.len(),
{
    if b.len() == 0 {
        assert(a + b =~= a);
    } else {
        lemma_aged_in_turn(m, a, b.drop_last(), elapsed);
        assert((a + b).drop_last() =~= a + b.drop_last());
        assert((a + b).last() == b.last());
    }
}

/// TTLs are taken down one after the other: a list of places does what its two
/// parts do in turn, and an empty list does nothing.
pub proof fn law_ttls_go_down_in_turn(
    msg: &mut [u8],
    offsets: &[usize],
    first: &mut [u8],
    first_part: &[usize],
    second: &mut [u8],
    second_part: &[usize],
    elapsed: u32,
)
    requires
        call_ensures(dns::decrement_ttls, (msg, offsets, elapsed), ()),
        call_ensures(dns::decrement_ttls, (first, first_part, elapsed), ()),
        call_ensures(dns::decrement_ttls, (second, second_part, elapsed), ()),
        offsets@ == first_part@ + second_part@,
        old(first)@ == old(msg)@,
        old(second)@ == final(first)@,
    ensures
        final(msg)@ == final(second)@,
        first_part@.len() == 0 ==> final(first)@ == old(first)@,
{
    let a = dns::positions(first_part@);
    let b = dns::positions(second_part@);
    assert(dns::positions(offsets@) =~= a + b);
    lemma_aged_in_turn(old(msg)@, a, b, elapsed);
}

/// Whether `out` is what a cache hands out of the stored message `m` after a
/// time: every TTL of an answer has gone down by the elapsed seconds, to zero
/// at the least; the id is the client's; and every other byte is the stored one.
pub open spec fn hands_out(m: Seq<u8>, out: Seq<u8>, id: u16, elapsed: int) -> bool {
    &&& out.len() == m.len()
    &&& m.len() >= 2 ==> num16(out, 0) == id
    &&& m.len() < 2 ==> out == m
    &&& dns_laws::same_outside(m, out, dns::answer_fields(m), 2)
    &&& dns::answer_fields(out) == dns::answer_fields(m)
    &&& forall|i: int|
        0 <= i < dns::answer_fields(m).len() ==> num32(out, #[trigger] dns::answer_fields(m)[i])
            == less(num32(m, dns::answer_fields(m)[i]), elapsed)
}

pub(crate) proof fn lemma_hands_out(m: Seq<u8>, id: u16, elapsed: u32)
    ensures
        hands_out(m, dns::served(m, id, elapsed), id, elapsed as int),
{
    let out = dns::served(m, id, elapsed);
    let fields = dns::answer_fields(m);
    dns_laws::law_served(m, id, elapsed);
    dns_laws::law_fields_are_apart(m);
    if m.len() < 2 {
        dns_laws::law_ageing(m, elapsed);
        assert(fields.len() == 0);
        assert(out =~= m);
    }
    assert forall|i: int| 0 <= i < fields.len() implies num32(out, #[trigger] fields[i]) == less(
        num32(m, fields[i]),
        elapsed as int,
    ) by {
        assert(dns::u32_at(out, fields[i]) == num32(out, fields[i]));
        assert(dns::u32_at(m, fields[i]) == num32(m, fields[i]));
    }
}

/// A cache hit takes every TTL of the answers down by the elapsed seconds and
/// sets the client's id; nothing else changes.
pub proof fn law_cache_hit(msg: &mut [u8], id: u16, elapsed: u32)
    requires
        call_ensures(dns::apply_cache_hit, (msg, id, elapsed), ()),
    ensures
        hands_out(old(msg)@, final(msg)@, id, elapsed as int),
{
    lemma_hands_out(old(msg)@, id, elapsed);
}

/// A cache hit on a message with given records hands out each record with what
/// is left of its TTL.
pub proof fn law_cache_hit_on_records(
    msg: &mut [u8],
    id: u16,
    elapsed: u32,
    questions: Seq<Seq<u8>>,
    records: Seq<Record>,
)
    requires
        call_ensures(dns::apply_cache_hit, (msg, id, elapsed), ()),
        carries(old(msg)@, questions, records),
    ensures
        num16(final(msg)@, 0) == id,
        forall|i: int|
            0 <= i < records.len() ==> num32(final(msg)@, #[trigger] ttl_place(questions, records, i))
                == less(records[i].ttl as int, elapsed as int),
{
    let m = old(msg)@;
    lemma_hands_out(m, id, elapsed);
    lemma_carried_fields(m, questions, records);
    assert forall|i: int| 0 <= i < records.len() implies num32(
        final(msg)@,
        #[trigger] ttl_place(questions, records, i),
    ) == less(records[i].ttl as int, elapsed as int) by {
        assert(dns::answer_fields(m)[i] == ttl_place(questions, records, i));
    }
}

pub(crate) proof fn lemma_carried_fields(
    m: Seq<u8>,
    questions: Seq<Seq<u8>>,
    records: Seq<Record>,
)
    requires
        carries(m, questions, records),
    ensures
        dns::answer_fields(m).len() == records.len(),
        forall|i: int|
            0 <= i < records.len() ==> #[trigger] dns::answer_fields(m)[i] == ttl_place(
                questions,
                records,
                i,
            ) && num32(m, dns::answer_fields(m)[i]) == records[i].ttl,
{
    lemma_stands_parts(m, 12, written_questions(questions), written_records(records));
    lemma_questions_over(m, 12, questions);
    lemma_records_over(m, 12int + written_questions(questions).len(), records);
}

// ---------------------------------------------------------------------------
// How long a reply is kept

/// Whether a reply says that the name does not exist.
pub open spec fn denies(m: Seq<u8>) -> bool {
    m.len() >= 4 && m[3] % 16 == 3
}

/// Whether `secs` is the time for which a reply is kept: a minute where it
/// denies its name or has no answers, and else the least TTL of its answers.
pub open spec fn keeps_for(m: Seq<u8>, secs: int) -> bool {
    let fields = dns::answer_fields(m);
    if denies(m) || fields.len() == 0 {
        secs == 60
    } else {
        &&& forall|i: int| 0 <= i < fields.len() ==> secs <= num32(m, #[trigger] fields[i])
        &&& exists|i: int| 0 <= i < fields.len() && secs == num32(m, #[trigger] fields[i])
    }
}

pub(crate) proof fn lemma_keeps_for(m: Seq<u8>)
    ensures
        keeps_for(m, dns::kept_secs(m) as int),
{
    let fields = dns::answer_fields(m);
    let secs = dns::kept_secs(m);
    dns_laws::law_ttl_is_least(m);
    if !denies(m) && fields.len() > 0 {
        assert(metrics::rcode(m) != 3);
        assert forall|i: int| 0 <= i < fields.len() implies secs <= num32(m, #[trigger] fields[i]) by {
            assert(dns::u32_at(m, fields[i]) == num32(m, fields[i]));
        }
        let i = choose|i: int|
            0 <= i < fields.len() && dns::ttl_of(m) == dns::u32_at(m, #[trigger] fields[i]);
        assert(secs == num32(m, fields[i]));
    }
}

/// There is one time for which a reply is kept.
pub(crate) proof fn lemma_keeps_for_one(m: Seq<u8>, a: int, b: int)
    requires
        keeps_for(m, a),
        keeps_for(m, b),
    ensures
        a == b,
{
}

/// A reply is kept for the least TTL of its answers, and for a minute where it
/// has none or says that the name does not exist.
pub proof fn law_time_to_keep(msg: &[u8], secs: u32)
    requires
        call_ensures(dns::cache_ttl, (msg,), secs),
    ensures
        keeps_for(msg@, secs as int),
{
    lemma_keeps_for(msg@);
}

/// The response code is the low half of the fourth byte, and zero where there
/// is no such byte.
pub proof fn law_response_code(msg: &[u8], code: u8)
    requires
        call_ensures(metrics::rcode_of, (msg,), code),
    ensures
        msg@.len() < 4 ==> code == 0,
        msg@.len() >= 4 ==> code < 16 && (msg@[3] - code) % 16 == 0,
{
}

} // verus!
