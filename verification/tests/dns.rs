use doh_edge::dns::{
    answer_ttl_info, apply_cache_hit, cache_ttl, decrement_ttls, parse_question, read_id, rewrite_id,
    NEGATIVE_TTL,
};

fn header(id: u16, qd: u16, an: u16) -> Vec<u8> {
    let mut m = id.to_be_bytes().to_vec();
    m.extend([0x81, 0x80]);
    m.extend(qd.to_be_bytes());
    m.extend(an.to_be_bytes());
    m.extend([0, 0, 0, 0]);
    m
}

fn question(m: &mut Vec<u8>, labels: &[&str], qtype: u16) {
    for l in labels {
        m.push(l.len() as u8);
        m.extend(l.as_bytes());
    }
    m.push(0);
    m.extend(qtype.to_be_bytes());
    m.extend([0, 1]);
}

/// An answer whose name is a pointer to the question.
fn answer(m: &mut Vec<u8>, ttl: u32, data: &[u8]) {
    m.extend([0xc0, 0x0c, 0, 1, 0, 1]);
    m.extend(ttl.to_be_bytes());
    m.extend((data.len() as u16).to_be_bytes());
    m.extend(data);
}

fn reply(ttls: &[u32]) -> Vec<u8> {
    let mut m = header(0x1234, 1, ttls.len() as u16);
    question(&mut m, &["example", "com"], 1);
    for t in ttls {
        answer(&mut m, *t, &[1, 2, 3, 4]);
    }
    m
}

#[test]
fn ids_are_read_and_rewritten() {
    let mut m = reply(&[]);
    assert_eq!(read_id(&m), 0x1234);
    let before = m.clone();
    rewrite_id(&mut m, 0xabcd);
    assert_eq!(read_id(&m), 0xabcd);
    assert_eq!(m[2..], before[2..]);
}

#[test]
fn a_message_without_room_for_an_id_stays() {
    let mut m = [7u8];
    rewrite_id(&mut m, 0xabcd);
    assert_eq!(m, [7]);
    let mut none: [u8; 0] = [];
    rewrite_id(&mut none, 1);
    assert_eq!(none, []);
}

#[test]
fn names_come_out_small_and_dotted() {
    let mut m = header(1, 1, 0);
    question(&mut m, &["WwW", "Example", "COM"], 28);
    assert_eq!(parse_question(&m), Some(("www.example.com".to_string(), 28)));
}

#[test]
fn the_root_has_an_empty_name() {
    let mut m = header(1, 1, 0);
    question(&mut m, &[], 2);
    assert_eq!(parse_question(&m), Some((String::new(), 2)));
}

#[test]
fn high_bytes_become_characters_of_their_number() {
    let mut m = header(1, 1, 0);
    m.extend([2, 0xe9, b'Z', 0, 0, 1, 0, 1]);
    assert_eq!(parse_question(&m), Some(("\u{e9}z".to_string(), 1)));
}

#[test]
fn unreadable_questions_are_none() {
    assert_eq!(parse_question(&[0; 11]), None);
    let mut none = header(1, 0, 0);
    question(&mut none, &["a"], 1);
    assert_eq!(parse_question(&none), None);
    let mut compressed = header(1, 1, 0);
    compressed.extend([0xc0, 0x0c, 0, 1, 0, 1]);
    assert_eq!(parse_question(&compressed), None);
    let mut long = header(1, 1, 0);
    long.push(0x40);
    long.extend([b'a'; 0x40]);
    long.extend([0, 0, 1, 0, 1]);
    assert_eq!(parse_question(&long), None);
    let mut cut = header(1, 1, 0);
    cut.extend([5, b'a', b'b']);
    assert_eq!(parse_question(&cut), None);
    let mut unended = header(1, 1, 0);
    unended.extend([1, b'a']);
    assert_eq!(parse_question(&unended), None);
    let mut classless = header(1, 1, 0);
    question(&mut classless, &["a"], 1);
    classless.pop();
    assert_eq!(parse_question(&classless), None);
}

#[test]
fn a_label_of_63_bytes_is_read() {
    let label = "a".repeat(63);
    let mut m = header(1, 1, 0);
    question(&mut m, &[&label], 1);
    assert_eq!(parse_question(&m), Some((label, 1)));
}

#[test]
fn the_least_ttl_and_all_places_are_found() {
    // 12 bytes of header, 17 of question; a record is 16 bytes.
    assert_eq!(answer_ttl_info(&reply(&[300, 120, 500])), (120, vec![35, 51, 67]));
    assert_eq!(answer_ttl_info(&reply(&[0xffff_ffff])), (0xffff_ffff, vec![35]));
    assert_eq!(answer_ttl_info(&reply(&[0, 9])), (0, vec![35, 51]));
}

#[test]
fn without_answers_the_negative_ttl_holds() {
    assert_eq!(NEGATIVE_TTL, 60);
    assert_eq!(answer_ttl_info(&reply(&[])), (60, vec![]));
    assert_eq!(answer_ttl_info(&[0; 5]), (60, vec![]));
    // A question whose name never ends.
    let mut m = header(1, 1, 1);
    m.extend([9, b'a']);
    assert_eq!(answer_ttl_info(&m), (60, vec![]));
    // Two questions announced, one there.
    let mut m = reply(&[300]);
    m[5] = 2;
    m.truncate(29);
    assert_eq!(answer_ttl_info(&m), (60, vec![]));
}

#[test]
fn reading_stops_at_the_first_broken_record() {
    let mut m = reply(&[300, 120]);
    m.truncate(m.len() - 4);
    // The second record has its ten bytes, and none of its data.
    assert_eq!(answer_ttl_info(&m), (120, vec![35, 51]));
    m.truncate(m.len() - 1);
    assert_eq!(answer_ttl_info(&m), (300, vec![35]));
    // Data longer than the message ends the section.
    let mut m = reply(&[300, 120]);
    m[39] = 0xff;
    assert_eq!(answer_ttl_info(&m), (300, vec![35]));
    // A pointer cut in half.
    let mut m = reply(&[300]);
    m[7] = 2;
    m.push(0xc0);
    assert_eq!(answer_ttl_info(&m), (300, vec![35]));
}

#[test]
fn names_in_answers_may_be_written_out() {
    let mut m = header(1, 0, 1);
    m.extend([3, b'a', b'b', b'c', 0, 0, 1, 0, 1, 0, 0, 0, 77, 0, 0]);
    assert_eq!(answer_ttl_info(&m), (77, vec![21]));
    // In the answer section a byte of 64 to 191 is a length.
    let mut m = header(1, 0, 1);
    m.push(0x40);
    m.extend([b'a'; 0x40]);
    m.extend([0, 0, 1, 0, 1, 0, 0, 0, 78, 0, 0]);
    assert_eq!(answer_ttl_info(&m), (78, vec![82]));
}

#[test]
fn ttls_go_down_to_zero_and_no_further() {
    let mut m = reply(&[300, 120]);
    decrement_ttls(&mut m, &[35, 51], 200);
    assert_eq!(m[35..39], [0, 0, 0, 100]);
    assert_eq!(m[51..55], [0, 0, 0, 0]);
}

#[test]
fn offsets_near_the_end_are_passed_over() {
    let mut m = vec![0, 0, 1, 0, 9, 9];
    decrement_ttls(&mut m, &[3, 0, 6], 1);
    assert_eq!(m, vec![0, 0, 0, 255, 9, 9]);
    // A field named twice ages twice.
    decrement_ttls(&mut m, &[0, 0], 5);
    assert_eq!(m, vec![0, 0, 0, 245, 9, 9]);
}

#[test]
fn a_hit_ages_the_answers_and_sets_the_id() {
    let stored = reply(&[300, 120]);
    let mut m = stored.clone();
    apply_cache_hit(&mut m, 0xbeef, 50);
    assert_eq!(read_id(&m), 0xbeef);
    assert_eq!(answer_ttl_info(&m), (70, vec![35, 51]));
    assert_eq!(m[35..39], [0, 0, 0, 250]);
    assert_eq!(parse_question(&m), parse_question(&stored));
    // Everything else is as stored.
    assert_eq!(m[2..35], stored[2..35]);
    assert_eq!(m[39..51], stored[39..51]);
    assert_eq!(m[55..], stored[55..]);
}

#[test]
fn a_hit_in_the_first_second_changes_the_id_alone() {
    let stored = reply(&[300, 120]);
    let mut m = stored.clone();
    apply_cache_hit(&mut m, 7, 0);
    let mut expected = stored;
    rewrite_id(&mut expected, 7);
    assert_eq!(m, expected);
}

#[test]
fn two_hits_amount_to_one() {
    let mut twice = reply(&[300, 120, 20]);
    let mut once = twice.clone();
    apply_cache_hit(&mut twice, 5, 30);
    apply_cache_hit(&mut twice, 6, 40);
    apply_cache_hit(&mut once, 6, 70);
    assert_eq!(twice, once);
    let mut twice = reply(&[u32::MAX]);
    let mut once = twice.clone();
    apply_cache_hit(&mut twice, 5, u32::MAX);
    apply_cache_hit(&mut twice, 6, 2);
    apply_cache_hit(&mut once, 6, u32::MAX);
    assert_eq!(twice, once);
}

#[test]
fn a_fresh_message_has_time_left_in_every_answer() {
    let stored = reply(&[300, 120]);
    let mut m = stored.clone();
    apply_cache_hit(&mut m, 1, 119);
    assert_eq!(answer_ttl_info(&m), (1, vec![35, 51]));
}

#[test]
fn case_class_and_trailer_do_not_matter() {
    let mut a = header(1, 1, 0);
    question(&mut a, &["example", "com"], 1);
    let mut b = header(0x9999, 1, 0);
    question(&mut b, &["EXAMPLE", "Com"], 1);
    let n = b.len();
    b[n - 1] = 3;
    b.extend([0, 0, 41, 4, 208, 0, 0, 0, 0, 0, 0]);
    assert_eq!(parse_question(&a), parse_question(&b));
    let mut c = header(1, 1, 0);
    question(&mut c, &["example", "com"], 28);
    assert_ne!(parse_question(&a), parse_question(&c));
}

#[test]
fn replies_are_kept_for_the_least_ttl() {
    assert_eq!(cache_ttl(&reply(&[300, 120, 500])), 120);
    assert_eq!(cache_ttl(&reply(&[5])), 5);
    assert_eq!(cache_ttl(&reply(&[])), NEGATIVE_TTL);
    assert_eq!(cache_ttl(&[]), NEGATIVE_TTL);
}

#[test]
fn replies_that_deny_a_name_are_kept_for_a_minute() {
    // A name that leads to another which does not exist.
    let mut m = reply(&[300]);
    m[3] = 0x83;
    assert_eq!(cache_ttl(&m), 60);
    assert_eq!(answer_ttl_info(&m), (300, vec![35]));
    m[3] = 0x82;
    assert_eq!(cache_ttl(&m), 300);
}
