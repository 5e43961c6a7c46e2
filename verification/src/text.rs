//! Small operations on text.
use vstd::prelude::*;

verus! {

/// Whether a character has the Unicode property `White_Space`.
pub open spec fn white_space(c: char) -> bool {
    let point = c as int;
    ||| 0x9 <= point <= 0xd
    ||| point == 0x20
    ||| point == 0x85
    ||| point == 0xa0
    ||| point == 0x1680
    ||| 0x2000 <= point <= 0x200a
    ||| 0x2028 <= point <= 0x2029
    ||| point == 0x202f
    ||| point == 0x205f
    ||| point == 0x3000
}

/// `text` is `line` without its trailing white space.
pub open spec fn trimmed(line: Seq<char>, text: Seq<char>) -> bool {
    &&& text.len() <= line.len()
    &&& text == line.take(text.len() as int)
    &&& text.len() > 0 ==> !white_space(text.last())
    &&& forall|i: int| text.len() <= i < line.len() ==> white_space(#[trigger] line[i])
}

/// Calls `char::is_whitespace` of the standard library, which tells whether a
/// character has the Unicode property `White_Space`.
#[verifier::external_body]
fn is_white(c: char) -> (white: bool)
    ensures
        white == white_space(c),
{
    c.is_whitespace()
}

/// Whether two texts are the same.
pub fn same_text(a: &str, b: &str) -> (same: bool)
    ensures
        same == (a@ == b@),
{
    a.to_owned() == b.to_owned()
}

/// The two texts, one behind the other.
pub fn joined(a: &str, b: &str) -> (text: String)
    ensures
        text@ == a@ + b@,
{
    let mut text = a.to_owned();
    text.append(b);
    text
}

/// What a received line asks: its text without trailing white space, or `None`
/// where all of it is white space, in which case the line is skipped.
pub fn request_text(line: &str) -> (text: Option<String>)
    ensures
        text is None <==> forall|i: int| 0 <= i < line@.len() ==> white_space(#[trigger] line@[i]),
        text matches Some(asked) ==> trimmed(line@, asked@),
{
    let mut seen: usize = 0;
    let mut end: usize = 0;
    let total: usize = line.unicode_len();
    for c in it: line.chars()
        invariant
            it.seq() == line@,
            total == line@.len(),
            seen == it.index(),
            end <= seen,
            end > 0 ==> !white_space(line@[end - 1]),
            forall|i: int| end <= i < seen ==> white_space(#[trigger] line@[i]),
    {
        seen += 1;
        if !is_white(c) {
            end = seen;
        }
    }
    if end == 0 {
        None
    } else {
        let left = line.substring_char(0, end);
        assert(left@ =~= line@.take(end as int));
        Some(left.to_owned())
    }
}

/// There is only one way to trim a line.
pub proof fn law_trimming_is_determined(line: Seq<char>, a: Seq<char>, b: Seq<char>)
    requires
        trimmed(line, a),
        trimmed(line, b),
    ensures
        a == b,
{
    if a.len() < b.len() {
        assert(white_space(line[b.len() - 1]));
    } else if b.len() < a.len() {
        assert(white_space(line[a.len() - 1]));
    }
}

/// A trimmed line is the front of the line; behind it there is nothing but white
/// space, and it does not end with any.
pub proof fn law_trimming_takes_white_space_only(line: Seq<char>, text: Seq<char>)
    requires
        trimmed(line, text),
    ensures
        line == text + line.skip(text.len() as int),
        forall|i: int|
            0 <= i < line.len() - text.len() ==> white_space(
                #[trigger] line.skip(text.len() as int)[i],
            ),
        text.len() > 0 ==> !white_space(text[text.len() - 1]),
{
    assert(line =~= text + line.skip(text.len() as int));
}

/// Which characters are white space, in the order of their code points.
pub proof fn law_white_space(c: char)
    ensures
        white_space(c) <==> c == '\t' || c == '\n' || c == '\u{b}' || c == '\u{c}' || c == '\r'
            || c == ' ' || c == '\u{85}' || c == '\u{a0}' || c == '\u{1680}' || '\u{2000}' <= c
            <= '\u{200a}' || c == '\u{2028}' || c == '\u{2029}' || c == '\u{202f}' || c
            == '\u{205f}' || c == '\u{3000}',
{
}

} // verus!
