//! Character classes and runs of characters, shared by the two grammars.

use vstd::prelude::*;

verus! {

pub open spec fn is_digit(c: char) -> bool {
    '0' <= c <= '9'
}

pub open spec fn is_letter(c: char) -> bool {
    ('a' <= c <= 'z') || ('A' <= c <= 'Z')
}

/// Blank characters, the no-break space of HTML text included.
pub open spec fn is_space(c: char) -> bool {
    c == ' ' || c == '\t' || c == '\n' || c == '\r' || c == '\u{a0}'
}

/// The number of digits that follow position `i`, `i` included.
pub open spec fn digit_run(s: Seq<char>, i: int) -> nat
    decreases s.len() - i,
{
    if 0 <= i < s.len() && is_digit(s[i]) {
        1 + digit_run(s, i + 1)
    } else {
        0
    }
}

/// The number of letters that follow position `i`, `i` included.
pub open spec fn letter_run(s: Seq<char>, i: int) -> nat
    decreases s.len() - i,
{
    if 0 <= i < s.len() && is_letter(s[i]) {
        1 + letter_run(s, i + 1)
    } else {
        0
    }
}

/// The number of blank characters that follow position `i`, `i` included.
pub open spec fn space_run(s: Seq<char>, i: int) -> nat
    decreases s.len() - i,
{
    if 0 <= i < s.len() && is_space(s[i]) {
        1 + space_run(s, i + 1)
    } else {
        0
    }
}

/// The decimal value of the `n` digits at position `i`.
pub open spec fn digits_value(s: Seq<char>, i: int, n: nat) -> nat
    decreases n,
{
    if n == 0 {
        0
    } else {
        digits_value(s, i, (n - 1) as nat) * 10 + ((s[i + n - 1] as nat) - ('0' as nat)) as nat
    }
}

pub proof fn lemma_runs_bounded(s: Seq<char>, i: int)
    requires
        0 <= i <= s.len(),
    ensures
        i + digit_run(s, i) <= s.len(),
        i + letter_run(s, i) <= s.len(),
        i + space_run(s, i) <= s.len(),
    decreases s.len() - i,
{
    if i < s.len() {
        lemma_runs_bounded(s, i + 1);
    }
}

/// Each position inside the run of digits at `i` holds a digit.
pub proof fn lemma_digit_run_prefix(s: Seq<char>, i: int, k: int)
    requires
        0 <= i <= k < i + digit_run(s, i),
    ensures
        k < s.len(),
        is_digit(s[k]),
    decreases k - i,
{
    if k > i {
        lemma_digit_run_prefix(s, i + 1, k);
    }
}

pub fn is_digit_char(c: char) -> (r: bool)
    ensures
        r == is_digit(c),
{
    '0' <= c && c <= '9'
}

pub fn is_letter_char(c: char) -> (r: bool)
    ensures
        r == is_letter(c),
{
    ('a' <= c && c <= 'z') || ('A' <= c && c <= 'Z')
}

pub fn is_space_char(c: char) -> (r: bool)
    ensures
        r == is_space(c),
{
    c == ' ' || c == '\t' || c == '\n' || c == '\r' || c == '\u{a0}'
}

/// The characters of `s`, in order.
pub fn chars_of(s: &str) -> (r: Vec<char>)
    ensures
        r@ == s@,
{
    let mut out: Vec<char> = Vec::new();
    for c in it: s.chars()
        invariant
            out@ == it.seq().take(it.index() as int),
    {
        out.push(c);
    }
    out
}

/// Relies on std's `FromIterator<char>` for `String`: the string holds the characters
/// given, in their order.
#[verifier::external_body]
pub(crate) fn string_from_chars(v: &Vec<char>) -> (r: String)
    ensures
        r@ == v@,
{
    String::from_iter(v.iter())
}

/// The characters of `s` in `[a, b)` as a string.
pub fn substring(s: &Vec<char>, a: usize, b: usize) -> (r: String)
    requires
        a <= b <= s.len(),
    ensures
        r@ == s@.subrange(a as int, b as int),
{
    let mut out: Vec<char> = Vec::new();
    let mut k: usize = a;
    while k < b
        invariant
            a <= k <= b <= s.len(),
            out@ == s@.subrange(a as int, k as int),
        decreases b - k,
    {
        out.push(s[k]);
        k = k + 1;
        assert(out@ =~= s@.subrange(a as int, k as int));
    }
    string_from_chars(&out)
}

/// The length of the run of digits at `i`.
pub fn digit_run_at(s: &Vec<char>, i: usize) -> (r: usize)
    requires
        i <= s.len(),
    ensures
        r == digit_run(s@, i as int),
        i + r <= s.len(),
{
    let mut j: usize = i;
    while j < s.len() && is_digit_char(s[j])
        invariant
            i <= j <= s.len(),
            digit_run(s@, i as int) == (j - i) + digit_run(s@, j as int),
        decreases s.len() - j,
    {
        j = j + 1;
    }
    j - i
}

/// The length of the run of letters at `i`.
pub fn letter_run_at(s: &Vec<char>, i: usize) -> (r: usize)
    requires
        i <= s.len(),
    ensures
        r == letter_run(s@, i as int),
        i + r <= s.len(),
{
    let mut j: usize = i;
    while j < s.len() && is_letter_char(s[j])
        invariant
            i <= j <= s.len(),
            letter_run(s@, i as int) == (j - i) + letter_run(s@, j as int),
        decreases s.len() - j,
    {
        j = j + 1;
    }
    j - i
}

/// The length of the run of blank characters at `i`.
pub fn space_run_at(s: &Vec<char>, i: usize) -> (r: usize)
    requires
        i <= s.len(),
    ensures
        r == space_run(s@, i as int),
        i + r <= s.len(),
{
    let mut j: usize = i;
    while j < s.len() && is_space_char(s[j])
        invariant
            i <= j <= s.len(),
            space_run(s@, i as int) == (j - i) + space_run(s@, j as int),
        decreases s.len() - j,
    {
        j = j + 1;
    }
    j - i
}

/// The value of the one or two digits at `i`.
pub fn small_number_at(s: &Vec<char>, i: usize, n: usize) -> (r: u32)
    requires
        1 <= n <= 2,
        i + n <= s.len(),
        forall|k: int| i <= k < i + n ==> is_digit(#[trigger] s@[k]),
    ensures
        r as nat == digits_value(s@, i as int, n as nat),
        r < 100,
{
    let d0 = (s[i] as u32) - ('0' as u32);
    assert(digits_value(s@, i as int, 1) == d0) by {
        assert(digits_value(s@, i as int, 0) == 0);
    }
    if n == 1 {
        d0
    } else {
        let d1 = (s[i + 1] as u32) - ('0' as u32);
        d0 * 10 + d1
    }
}

/// Whether the characters of `s` in `[start, end)` are those of `w`.
pub fn slice_equals(s: &Vec<char>, start: usize, end: usize, w: &Vec<char>) -> (r: bool)
    requires
        start <= end <= s.len(),
    ensures
        r == (s@.subrange(start as int, end as int) == w@),
{
    if end - start != w.len() {
        return false;
    }
    let mut k: usize = 0;
    while k < w.len()
        invariant
            end - start == w.len(),
            start <= end <= s.len(),
            0 <= k <= w.len(),
            forall|m: int| 0 <= m < k ==> s@[start + m] == w@[m],
        decreases w.len() - k,
    {
        if s[start + k] != w[k] {
            assert(s@.subrange(start as int, end as int)[k as int] != w@[k as int]);
            return false;
        }
        k = k + 1;
    }
    assert(s@.subrange(start as int, end as int) =~= w@);
    true
}

} // verus!
