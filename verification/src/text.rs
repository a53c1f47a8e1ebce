//! Small text helpers: building a `String` from characters, and trimming
//! surrounding whitespace.
use vstd::prelude::*;

verus! {

/// Relies on `String::from_iter`: the string holds exactly the given
/// characters, in order.
#[verifier::external_body]
pub fn chars_to_string(v: Vec<char>) -> (r: String)
    ensures
        r@ == v@,
{
    String::from_iter(v)
}

/// An ASCII whitespace character, as `str::trim` strips at either end of
/// the movement commands this server receives.
pub open spec fn is_space(c: char) -> bool {
    c == ' ' || c == '\t' || c == '\n' || c == '\r'
}

/// Tests for an ASCII whitespace character.
pub fn is_space_char(c: char) -> (r: bool)
    ensures
        r == is_space(c),
{
    c == ' ' || c == '\t' || c == '\n' || c == '\r'
}

/// How many whitespace characters the sequence starts with.
pub open spec fn leading_spaces(s: Seq<char>) -> int
    decreases s.len(),
{
    if s.len() == 0 {
        0
    } else if !is_space(s[0]) {
        0
    } else {
        1 + leading_spaces(s.drop_first())
    }
}

/// How many whitespace characters the sequence ends with.
pub open spec fn trailing_spaces(s: Seq<char>) -> int
    decreases s.len(),
{
    if s.len() == 0 {
        0
    } else if !is_space(s.last()) {
        0
    } else {
        1 + trailing_spaces(s.drop_last())
    }
}

/// The sequence with surrounding whitespace removed.
pub open spec fn spec_trim(s: Seq<char>) -> Seq<char> {
    if leading_spaces(s) == s.len() {
        Seq::empty()
    } else {
        s.subrange(leading_spaces(s), s.len() - trailing_spaces(s))
    }
}

/// The count of leading whitespace is the index of the first character
/// that is not whitespace.
proof fn lemma_leading_spaces_characterize(s: Seq<char>, i: int)
    requires
        0 <= i <= s.len(),
        forall|j: int| 0 <= j < i ==> is_space(#[trigger] s[j]),
        i < s.len() ==> !is_space(s[i]),
    ensures
        leading_spaces(s) == i,
    decreases s.len(),
{
    if s.len() == 0 {
    } else if !is_space(s[0]) {
        assert(i == 0);
    } else {
        assert(forall|j: int| 0 <= j < s.len() - 1 ==> s.drop_first()[j] == s[j + 1]);
        lemma_leading_spaces_characterize(s.drop_first(), i - 1);
    }
}

/// The count of trailing whitespace is determined by the last character
/// that is not whitespace.
proof fn lemma_trailing_spaces_characterize(s: Seq<char>, i: int)
    requires
        0 <= i <= s.len(),
        forall|j: int| i <= j < s.len() ==> is_space(#[trigger] s[j]),
        i > 0 ==> !is_space(s[i - 1]),
    ensures
        trailing_spaces(s) == s.len() - i,
    decreases s.len(),
{
    if s.len() == 0 {
    } else if !is_space(s.last()) {
        assert(i == s.len());
    } else {
        assert(i < s.len());
        assert(forall|j: int| 0 <= j < s.len() - 1 ==> s.drop_last()[j] == s[j]);
        lemma_trailing_spaces_characterize(s.drop_last(), i);
    }
}

/// Removes whitespace from both ends of a string.
pub fn trim_string(s: &String) -> (r: String)
    ensures
        r@ == spec_trim(s@),
{
    let text = s.as_str();
    let n = text.unicode_len();
    let mut start: usize = 0;
    while start < n && is_space_char(text.get_char(start))
        invariant
            text@ == s@,
            n == text@.len(),
            0 <= start <= n,
            forall|j: int| 0 <= j < start ==> is_space(#[trigger] text@[j]),
        decreases n - start,
    {
        start = start + 1;
    }
    if start == n {
        proof {
            lemma_leading_spaces_characterize(s@, n as int);
        }
        return String::new();
    }
    proof {
        lemma_leading_spaces_characterize(s@, start as int);
    }
    let mut end: usize = n;
    while end > start && is_space_char(text.get_char(end - 1))
        invariant
            text@ == s@,
            n == text@.len(),
            start < n,
            !is_space(text@[start as int]),
            start <= end <= n,
            forall|j: int| end <= j < n ==> is_space(#[trigger] text@[j]),
        decreases end,
    {
        end = end - 1;
    }
    proof {
        assert(end > start);
        lemma_trailing_spaces_characterize(s@, end as int);
    }
    let trimmed = text.substring_char(start, end);
    trimmed.to_owned()
}

/// The decimal text of a number below one hundred.
pub open spec fn label_chars(n: int) -> Seq<char> {
    if n < 10 {
        seq![((48 + n) as u8) as char]
    } else {
        seq![((48 + n / 10) as u8) as char, ((48 + n % 10) as u8) as char]
    }
}

/// Writes a number below one hundred in decimal.
pub fn push_label(out: &mut Vec<char>, n: u32)
    requires
        n < 100,
    ensures
        final(out)@ == old(out)@ + label_chars(n as int),
{
    if n < 10 {
        out.push(((48 + n) as u8) as char);
        proof {
            assert(out@ =~= old(out)@ + label_chars(n as int));
        }
    } else {
        out.push(((48 + n / 10) as u8) as char);
        out.push(((48 + n % 10) as u8) as char);
        proof {
            assert(out@ =~= old(out)@ + label_chars(n as int));
        }
    }
}

} // verus!
