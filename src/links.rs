//! Short random alphabetic links that name stored archives.
use rand::Rng;
use vstd::prelude::*;

verus! {

/// Fewest letters in a minted link.
pub const MIN_LINK_LEN: u32 = 10;

/// Most letters in a minted link.
pub const MAX_LINK_LEN: u32 = 14;

/// An ASCII letter, upper or lower case.
pub open spec fn is_link_char(c: char) -> bool {
    ('A' <= c && c <= 'Z') || ('a' <= c && c <= 'z')
}

/// Every character of `s` is an ASCII letter.
pub open spec fn all_link_chars(s: Seq<char>) -> bool {
    forall|i: int| 0 <= i < s.len() ==> is_link_char(#[trigger] s[i])
}

/// A well-formed link: 10 to 14 ASCII letters.
pub open spec fn is_link(s: Seq<char>) -> bool {
    MIN_LINK_LEN <= s.len() <= MAX_LINK_LEN && all_link_chars(s)
}

/// Relies on rand's `thread_rng().gen_range(min..max)`: a value in `min..max`.
#[verifier::external_body]
fn random_number(min: u32, max: u32) -> (r: u32)
    requires
        min < max,
    ensures
        min <= r < max,
{
    rand::thread_rng().gen_range(min..max)
}

/// Relies on `String::push`: appends one character.
#[verifier::external_body]
pub(crate) fn push_char(s: &mut String, c: char)
    ensures
        final(s)@ == old(s)@.push(c),
{
    s.push(c)
}

/// The letter that a case draw and an offset draw pick: the `off`-th upper
/// case letter when `case` is 0, else the `off`-th lower case letter.
pub open spec fn letter_of(case: u32, off: u32) -> char {
    if case == 0 {
        (65 + off) as char
    } else {
        (97 + off) as char
    }
}

/// The link that the draws spell: for each position, a case draw (below
/// 2) and a letter offset (below 26).
pub fn link_from_draws(cases: &Vec<u32>, offsets: &Vec<u32>) -> (link: String)
    requires
        cases@.len() == offsets@.len(),
        MIN_LINK_LEN <= cases@.len() <= MAX_LINK_LEN,
        forall|i: int| 0 <= i < cases@.len() ==> #[trigger] cases@[i] < 2,
        forall|i: int| 0 <= i < offsets@.len() ==> #[trigger] offsets@[i] < 26,
    ensures
        link@.len() == cases@.len(),
        forall|i: int| 0 <= i < link@.len() ==> #[trigger] link@[i] == letter_of(cases@[i], offsets@[i]),
        is_link(link@),
{
    let mut link = String::new();
    let mut i: usize = 0;
    while i < cases.len()
        invariant
            cases@.len() == offsets@.len(),
            forall|j: int| 0 <= j < cases@.len() ==> #[trigger] cases@[j] < 2,
            forall|j: int| 0 <= j < offsets@.len() ==> #[trigger] offsets@[j] < 26,
            i <= cases@.len(),
            link@.len() == i,
            forall|j: int| 0 <= j < i ==> #[trigger] link@[j] == letter_of(cases@[j], offsets@[j]),
            all_link_chars(link@),
        decreases cases.len() - i,
    {
        let off = offsets[i] as u8;
        let c = if cases[i] == 0 {
            (65u8 + off) as char
        } else {
            (97u8 + off) as char
        };
        push_char(&mut link, c);
        i = i + 1;
    }
    link
}

/// Mints a fresh link: a length drawn from 10 to 14, then for each letter
/// a case, each with even odds, and a letter of that case. Nothing checks
/// it against links already in use.
pub fn generate_random_link() -> (link: String)
    ensures
        is_link(link@),
{
    let number_of_letters = random_number(MIN_LINK_LEN, MAX_LINK_LEN + 1);
    let mut cases: Vec<u32> = Vec::new();
    let mut offsets: Vec<u32> = Vec::new();
    let mut i: u32 = 0;
    while i < number_of_letters
        invariant
            MIN_LINK_LEN <= number_of_letters <= MAX_LINK_LEN,
            i <= number_of_letters,
            cases@.len() == i,
            offsets@.len() == i,
            forall|j: int| 0 <= j < i ==> #[trigger] cases@[j] < 2,
            forall|j: int| 0 <= j < i ==> #[trigger] offsets@[j] < 26,
        decreases number_of_letters - i,
    {
        cases.push(random_number(0, 2));
        offsets.push(random_number(0, 26));
        i = i + 1;
    }
    link_from_draws(&cases, &offsets)
}

/// Whether every character of `link` is an ASCII letter (the empty text
/// included).
pub fn is_link_valid(link: &str) -> (r: bool)
    ensures
        r == all_link_chars(link@),
{
    let n = link.unicode_len();
    let mut i: usize = 0;
    while i < n
        invariant
            n == link@.len(),
            i <= n,
            all_link_chars(link@.subrange(0, i as int)),
        decreases n - i,
    {
        let x = link.get_char(i);
        if !(('A' <= x && x <= 'Z') || ('a' <= x && x <= 'z')) {
            assert(!is_link_char(link@[i as int]));
            return false;
        }
        assert(link@.subrange(0, i + 1) =~= link@.subrange(0, i as int).push(x));
        i = i + 1;
    }
    assert(link@.subrange(0, n as int) =~= link@);
    true
}

} // verus!
