//! Text as bytes: templates and values are UTF-8 strings, and every offset in
//! this crate is a byte offset into the UTF-8 encoding of a string.

use vstd::prelude::*;
use vstd::string::*;
use vstd::utf8::*;

verus! {

/// The UTF-8 bytes of a sequence of characters.
pub open spec fn utf8(chars: Seq<char>) -> Seq<u8> {
    encode_utf8(chars)
}

/// Encoding distributes over concatenation.
pub proof fn lemma_utf8_concat(a: Seq<char>, b: Seq<char>)
    ensures
        utf8(a + b) == utf8(a) + utf8(b),
    decreases a.len(),
{
    if a.len() == 0 {
        assert(a + b =~= b);
        assert(utf8(a) + utf8(b) =~= utf8(b));
    } else {
        lemma_utf8_concat(a.drop_first(), b);
        assert((a + b).drop_first() =~= a.drop_first() + b);
        assert((a + b)[0] == a[0]);
        assert(utf8(a + b) =~= utf8(a) + utf8(b));
    }
}

/// Two strings with the same bytes are the same string.
pub proof fn lemma_utf8_injective(a: Seq<char>, b: Seq<char>)
    requires
        utf8(a) == utf8(b),
    ensures
        a == b,
{
    encode_utf8_decode_utf8(a);
    encode_utf8_decode_utf8(b);
}

/// In valid UTF-8 an ASCII byte is a whole character: a character starts at
/// it and another one, or the end of the text, follows it.
pub proof fn lemma_ascii_byte_boundaries(bytes: Seq<u8>, i: int)
    requires
        valid_utf8(bytes),
        0 <= i < bytes.len(),
        bytes[i] <= 0x7f,
    ensures
        is_char_boundary(bytes, i),
        is_char_boundary(bytes, i + 1),
{
    is_char_boundary_iff_is_leading_byte(bytes, i);
    assert(is_leading_byte_width_1(bytes[i]));
    if i + 1 == bytes.len() {
        is_char_boundary_start_end_of_seq(bytes);
    } else {
        valid_utf8_split(bytes, i);
        let suffix = bytes.subrange(i, bytes.len() as int);
        assert(suffix[0] == bytes[i]);
        assert(length_of_first_scalar(suffix) == 1);
        let rest = pop_first_scalar(suffix);
        assert(rest =~= bytes.subrange(i + 1, bytes.len() as int));
        assert(valid_utf8(rest));
        assert(rest.len() > 0);
        assert(rest[0] == bytes[i + 1]);
        assert(valid_first_scalar(rest));
        assert(!is_continuation_byte(bytes[i + 1]));
        is_char_boundary_iff_not_is_continuation_byte(bytes, i + 1);
    }
}

/// The part of `s` between two byte offsets that lie on character boundaries.
pub(crate) fn slice_text(s: &str, from: usize, to: usize) -> (part: &str)
    requires
        from <= to <= s.spec_bytes().len(),
        is_char_boundary(s.spec_bytes(), from as int),
        is_char_boundary(s.spec_bytes(), to as int),
    ensures
        part.spec_bytes() == s.spec_bytes().subrange(from as int, to as int),
{
    let ghost bytes = s.spec_bytes();
    let (head, _) = s.split_at(to);
    proof {
        encode_utf8_valid_utf8(s@);
        encode_utf8_valid_utf8(head@);
        if from == to {
            is_char_boundary_start_end_of_seq(head.spec_bytes());
        } else {
            is_char_boundary_iff_not_is_continuation_byte(bytes, from as int);
            is_char_boundary_iff_not_is_continuation_byte(head.spec_bytes(), from as int);
        }
    }
    let (_, part) = head.split_at(from);
    assert(part.spec_bytes() =~= bytes.subrange(from as int, to as int));
    part
}

/// An empty text with room for `capacity` bytes, by `String::with_capacity`,
/// which allocates and returns an empty string. It panics where the capacity
/// exceeds `isize::MAX`, which the precondition rules out.
#[verifier::external_body]
pub(crate) fn text_with_capacity(capacity: usize) -> (text: String)
    requires
        capacity <= isize::MAX,
    ensures
        text@ == Seq::<char>::empty(),
{
    String::with_capacity(capacity)
}

/// The character of a decimal digit.
pub open spec fn digit(d: int) -> char {
    if d == 0 {
        '0'
    } else if d == 1 {
        '1'
    } else if d == 2 {
        '2'
    } else if d == 3 {
        '3'
    } else if d == 4 {
        '4'
    } else if d == 5 {
        '5'
    } else if d == 6 {
        '6'
    } else if d == 7 {
        '7'
    } else if d == 8 {
        '8'
    } else {
        '9'
    }
}

/// A natural number in decimal digits, without leading zeros.
pub open spec fn decimal(n: nat) -> Seq<char>
    decreases n,
{
    if n < 10 {
        seq![digit(n as int)]
    } else {
        decimal(n / 10).push(digit((n % 10) as int))
    }
}

/// An integer in decimal digits, with a minus sign before a negative one.
pub open spec fn signed_decimal(n: int) -> Seq<char> {
    if n < 0 {
        seq!['-'] + decimal((-n) as nat)
    } else {
        decimal(n as nat)
    }
}

/// The text of one decimal digit.
fn digit_text(d: u64) -> (text: &'static str)
    requires
        d < 10,
    ensures
        text@ == seq![digit(d as int)],
{
    proof {
        reveal_strlit("0");
        reveal_strlit("1");
        reveal_strlit("2");
        reveal_strlit("3");
        reveal_strlit("4");
        reveal_strlit("5");
        reveal_strlit("6");
        reveal_strlit("7");
        reveal_strlit("8");
        reveal_strlit("9");
    }
    let text = if d == 0 {
        "0"
    } else if d == 1 {
        "1"
    } else if d == 2 {
        "2"
    } else if d == 3 {
        "3"
    } else if d == 4 {
        "4"
    } else if d == 5 {
        "5"
    } else if d == 6 {
        "6"
    } else if d == 7 {
        "7"
    } else if d == 8 {
        "8"
    } else {
        "9"
    };
    assert(text@ =~= seq![digit(d as int)]);
    text
}

/// Appends a number in decimal digits to a text.
fn push_decimal(out: &mut String, n: u64)
    ensures
        final(out)@ == old(out)@ + decimal(n as nat),
    decreases n,
{
    if n >= 10 {
        push_decimal(out, n / 10);
    }
    out.append(digit_text(n % 10));
    assert(out@ =~= old(out)@ + decimal(n as nat));
}

/// A number in decimal digits.
pub fn decimal_text(n: u64) -> (text: String)
    ensures
        text@ == decimal(n as nat),
{
    let mut text = String::new();
    push_decimal(&mut text, n);
    assert(text@ =~= decimal(n as nat));
    text
}

/// An integer in decimal digits, with a minus sign before a negative one.
pub fn signed_decimal_text(n: i64) -> (text: String)
    ensures
        text@ == signed_decimal(n as int),
{
    if n < 0 {
        let magnitude: u64 = if n == i64::MIN {
            9223372036854775808u64
        } else {
            (-n) as u64
        };
        let mut text = String::new();
        text.append("-");
        push_decimal(&mut text, magnitude);
        proof {
            reveal_strlit("-");
            assert(text@ =~= signed_decimal(n as int));
        }
        text
    } else {
        decimal_text(n as u64)
    }
}

} // verus!
