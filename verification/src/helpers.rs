use vstd::prelude::*;

verus! {

/// A character that UTF-8 encodes in a single byte.
pub open spec fn is_single_byte(c: char) -> bool {
    (c as u32) < 128
}

/// `trim_start_end_char` accepts a string whose first and last characters each
/// take one byte and that holds at least two characters: only then do byte
/// offsets `1` and `len - 1` fall on character boundaries in the right order.
pub open spec fn can_trim(s: Seq<char>) -> bool {
    &&& s.len() >= 2
    &&& is_single_byte(s[0])
    &&& is_single_byte(s[s.len() - 1])
}

/// The string without its first and its last character.
pub open spec fn trimmed(s: Seq<char>) -> Seq<char> {
    s.subrange(1, s.len() - 1)
}

/// Tells whether `trim_start_end_char` accepts `string`.
pub fn can_trim_start_end_char(string: &str) -> (r: bool)
    ensures
        r == can_trim(string@),
{
    let n: usize = string.unicode_len();
    if n < 2 {
        return false;
    }
    let first = string.get_char(0);
    let last = string.get_char(n - 1);
    (first as u32) < 128 && (last as u32) < 128
}

/// Drops the first and the last character of `string` (the quotes that
/// org-roam's database puts around its text values).
pub fn trim_start_end_char(string: &str) -> (r: String)
    requires
        can_trim(string@),
    ensures
        r@ == trimmed(string@),
{
    let n: usize = string.unicode_len();
    String::from_str(string.substring_char(1, n - 1))
}

/// Taking off the quotes that the database writes around a value gives the
/// value back.
pub proof fn lemma_trim_quoted(s: Seq<char>, open: char, close: char)
    requires
        is_single_byte(open),
        is_single_byte(close),
    ensures
        can_trim(seq![open] + s + seq![close]),
        trimmed(seq![open] + s + seq![close]) == s,
{
    let q = seq![open] + s + seq![close];
    assert(q[0] == open);
    assert(q[q.len() - 1] == close);
    assert(q.subrange(1, q.len() - 1) =~= s);
}

} // verus!
