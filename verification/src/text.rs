//! Text that replies and pages are put together from: decimal numbers, padded
//! columns, replacement of a word.
use vstd::prelude::*;

verus! {

/// `String::push` appends the given character to the end of the string.
pub assume_specification[ String::push ](s: &mut String, c: char)
    ensures
        final(s)@ == old(s)@.push(c),
;

// ---------------------------------------------------------------------------
// Decimal numbers

/// The character of a digit.
pub open spec fn digit(d: nat) -> char {
    (0x30 + d) as char
}

/// A number in decimal, without leading zeros.
pub open spec fn decimal(n: nat) -> Seq<char>
    decreases n,
{
    if n < 10 {
        seq![digit(n)]
    } else {
        decimal(n / 10).push(digit(n % 10))
    }
}

/// Appends a number in decimal.
pub(crate) fn push_decimal(out: &mut String, n: u64)
    ensures
        final(out)@ == old(out)@ + decimal(n as nat),
    decreases n,
{
    let ghost start = out@;
    if n >= 10 {
        push_decimal(out, n / 10);
    }
    out.push((0x30u8 + (n % 10) as u8) as char);
    assert(out@ =~= start + decimal(n as nat));
}

/// A number in decimal.
pub fn decimal_text(n: u64) -> (s: String)
    ensures
        s@ == decimal(n as nat),
{
    let mut s = String::new();
    push_decimal(&mut s, n);
    assert(Seq::<char>::empty() + decimal(n as nat) =~= decimal(n as nat));
    s
}

pub(crate) proof fn lemma_decimal_digits(n: nat)
    ensures
        decimal(n).len() > 0,
        forall|i: int| 0 <= i < decimal(n).len() ==> 0x30 <= #[trigger] decimal(n)[i] <= 0x39,
    decreases n,
{
    if n >= 10 {
        lemma_decimal_digits(n / 10);
    }
}

pub(crate) proof fn lemma_decimal_injective(a: nat, b: nat)
    requires
        decimal(a) == decimal(b),
    ensures
        a == b,
    decreases a,
{
    lemma_decimal_digits(a / 10);
    lemma_decimal_digits(b / 10);
    assert(decimal(a).last() == digit(a % 10));
    assert(decimal(b).last() == digit(b % 10));
    if a >= 10 && b >= 10 {
        assert(decimal(a).drop_last() =~= decimal(a / 10));
        assert(decimal(b).drop_last() =~= decimal(b / 10));
        lemma_decimal_injective(a / 10, b / 10);
    }
}

// ---------------------------------------------------------------------------
// Columns

/// As many copies of a character as asked for.
pub open spec fn copies(c: char, n: nat) -> Seq<char> {
    Seq::new(n, |_i: int| c)
}

/// The spaces that bring a text of `len` characters to `width`.
pub open spec fn filling(len: nat, width: nat) -> Seq<char> {
    if len < width {
        copies(' ', (width - len) as nat)
    } else {
        seq![]
    }
}

/// A text at the left of a column at least `width` characters wide.
pub open spec fn left_aligned(s: Seq<char>, width: nat) -> Seq<char> {
    s + filling(s.len(), width)
}

/// A text at the right of a column at least `width` characters wide.
pub open spec fn right_aligned(s: Seq<char>, width: nat) -> Seq<char> {
    filling(s.len(), width) + s
}

/// Appends `n` copies of a character.
pub(crate) fn push_copies(out: &mut String, c: char, n: usize)
    ensures
        final(out)@ == old(out)@ + copies(c, n as nat),
{
    let ghost start = out@;
    let mut i: usize = 0;
    assert(out@ =~= start + copies(c, 0));
    while i < n
        invariant
            i <= n,
            out@ == start + copies(c, i as nat),
        decreases n - i,
    {
        out.push(c);
        i = i + 1;
        assert(out@ =~= start + copies(c, i as nat));
    }
}

/// Appends a text and the spaces to its right.
pub(crate) fn push_left_aligned(out: &mut String, s: &str, width: usize)
    ensures
        final(out)@ == old(out)@ + left_aligned(s@, width as nat),
{
    let ghost start = out@;
    let len = s.unicode_len();
    out.append(s);
    if len < width {
        push_copies(out, ' ', width - len);
    }
    assert(out@ =~= start + left_aligned(s@, width as nat));
}

/// Appends a text and the spaces to its left.
pub(crate) fn push_right_aligned(out: &mut String, s: &str, width: usize)
    ensures
        final(out)@ == old(out)@ + right_aligned(s@, width as nat),
{
    let ghost start = out@;
    let len = s.unicode_len();
    if len < width {
        push_copies(out, ' ', width - len);
    }
    out.append(s);
    assert(out@ =~= start + right_aligned(s@, width as nat));
}

// ---------------------------------------------------------------------------
// Replacement

/// Every occurrence of `word` replaced by `by`, from left to right.
pub open spec fn replaced(s: Seq<char>, word: Seq<char>, by: Seq<char>) -> Seq<char>
    decreases s.len(),
{
    if s.len() < word.len() || word.len() == 0 {
        s
    } else if s.take(word.len() as int) == word {
        by + replaced(s.skip(word.len() as int), word, by)
    } else {
        seq![s[0]] + replaced(s.skip(1), word, by)
    }
}

/// The characters of a text.
fn chars_of(s: &str) -> (v: Vec<char>)
    ensures
        v@ == s@,
{
    let mut v: Vec<char> = Vec::new();
    for c in it: s.chars()
        invariant
            v@ == s@.take(it.index() as int),
            it.seq() == s@,
    {
        v.push(c);
        assert(s@.take(it.index() + 1) =~= s@.take(it.index() as int).push(c));
    }
    assert(s@.take(s@.len() as int) =~= s@);
    v
}

/// Whether `word` stands in `s` at `i`.
fn stands_at(s: &Vec<char>, i: usize, word: &Vec<char>) -> (yes: bool)
    requires
        i + word@.len() <= s@.len(),
    ensures
        yes == (s@.skip(i as int).take(word@.len() as int) == word@),
{
    let len = s.len();
    let mut j: usize = 0;
    while j < word.len()
        invariant
            len == s@.len(),
            i + word@.len() <= len,
            j <= word@.len(),
            forall|k: int| 0 <= k < j ==> s@[i + k] == #[trigger] word@[k],
        decreases word@.len() - j,
    {
        if s[i + j] != word[j] {
            assert(s@.skip(i as int).take(word@.len() as int)[j as int] != word@[j as int]);
            return false;
        }
        j = j + 1;
    }
    assert(s@.skip(i as int).take(word@.len() as int) =~= word@);
    true
}

/// Replaces every occurrence of a word, from left to right.
pub(crate) fn replace_word(s: &str, word: &str, by: &str) -> (out: String)
    requires
        word@.len() > 0,
    ensures
        out@ == replaced(s@, word@, by@),
{
    let chars = chars_of(s);
    let pattern = chars_of(word);
    let mut out = String::new();
    let mut i: usize = 0;
    assert(chars@.skip(0) =~= chars@);
    assert(Seq::<char>::empty() + replaced(s@, word@, by@) =~= replaced(s@, word@, by@));
    while i < chars.len()
        invariant
            i <= chars@.len(),
            pattern@ == word@,
            word@.len() > 0,
            out@ + replaced(chars@.skip(i as int), word@, by@) == replaced(chars@, word@, by@),
        decreases chars@.len() - i,
    {
        let ghost before = out@;
        let ghost rest = chars@.skip(i as int);
        if pattern.len() <= chars.len() - i && stands_at(&chars, i, &pattern) {
            out.append(by);
            i = i + pattern.len();
            proof {
                let tail = replaced(chars@.skip(i as int), word@, by@);
                assert(rest.skip(word@.len() as int) =~= chars@.skip(i as int));
                assert(before + (by@ + tail) =~= out@ + tail);
            }
        } else {
            out.push(chars[i]);
            i = i + 1;
            proof {
                let tail = replaced(chars@.skip(i as int), word@, by@);
                assert(rest.skip(1) =~= chars@.skip(i as int));
                if rest.len() < word@.len() {
                    assert(rest =~= seq![rest[0]] + chars@.skip(i as int));
                }
                assert(before + (seq![rest[0]] + tail) =~= out@ + tail);
            }
        }
    }
    assert(chars@.skip(i as int) =~= Seq::<char>::empty());
    assert(out@ + Seq::<char>::empty() =~= out@);
    out
}

} // verus!
