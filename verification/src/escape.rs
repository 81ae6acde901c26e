//! HTML escaping of the values that a template takes in.

use vstd::prelude::*;
use vstd::string::*;

verus! {

/// What stands for one character in escaped text: the entity of each of the
/// six characters `&`, `<`, `>`, `"`, `'` and `/`, and any other character
/// itself.
pub open spec fn escaped_char(c: char) -> Seq<char> {
    if c == '&' {
        seq!['&', 'a', 'm', 'p', ';']
    } else if c == '<' {
        seq!['&', 'l', 't', ';']
    } else if c == '>' {
        seq!['&', 'g', 't', ';']
    } else if c == '"' {
        seq!['&', 'q', 'u', 'o', 't', ';']
    } else if c == '\'' {
        seq!['&', '#', 'x', '2', '7', ';']
    } else if c == '/' {
        seq!['&', '#', 'x', '2', 'F', ';']
    } else {
        seq![c]
    }
}

/// The text with each of its characters escaped.
pub open spec fn html_escaped(text: Seq<char>) -> Seq<char>
    decreases text.len(),
{
    if text.len() == 0 {
        Seq::empty()
    } else {
        escaped_char(text[0]) + html_escaped(text.drop_first())
    }
}

/// Escapes a value for HTML by `html_escape::encode_safe`, which replaces each
/// `&`, `<`, `>`, `"`, `'` and `/` of the text by `&amp;`, `&lt;`, `&gt;`,
/// `&quot;`, `&#x27;` and `&#x2F;` and keeps every other character. The
/// contract is taken from that crate's documentation and is not proved here.
#[verifier::external_body]
pub(crate) fn encode_safe(text: &str) -> (escaped: String)
    ensures
        escaped@ == html_escaped(text@),
{
    html_escape::encode_safe(text).into_owned()
}

/// Escaped text holds none of the characters `<`, `>`, `"`, `'` and `/`:
/// whatever a value holds, it opens or closes no tag and ends no attribute.
pub proof fn escaped_text_is_inert(text: Seq<char>, i: int)
    requires
        0 <= i < html_escaped(text).len(),
    ensures
        html_escaped(text)[i] != '<',
        html_escaped(text)[i] != '>',
        html_escaped(text)[i] != '"',
        html_escaped(text)[i] != '\'',
        html_escaped(text)[i] != '/',
    decreases text.len(),
{
    let head = escaped_char(text[0]);
    if i >= head.len() {
        escaped_text_is_inert(text.drop_first(), i - head.len());
    }
}

} // verus!
