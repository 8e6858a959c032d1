//! Byte-level building blocks shared by the template parsers: ASCII
//! constants, byte classes and their maximal runs, literal tags, and the
//! conversion of byte ranges to text.
use vstd::prelude::*;
use vstd::utf8::{decode_utf8, valid_utf8};

verus! {

pub const TAB: u8 = 9;
pub const LF: u8 = 10;
pub const CR: u8 = 13;
pub const SPACE: u8 = 32;
pub const BANG: u8 = 33;
pub const DQUOTE: u8 = 34;
pub const AMP: u8 = 38;
pub const SQUOTE: u8 = 39;
pub const LPAREN: u8 = 40;
pub const RPAREN: u8 = 41;
pub const STAR: u8 = 42;
pub const COMMA: u8 = 44;
pub const DOT: u8 = 46;
pub const SLASH: u8 = 47;
pub const COLON: u8 = 58;
pub const SEMI: u8 = 59;
pub const LT: u8 = 60;
pub const EQ: u8 = 61;
pub const GT: u8 = 62;
pub const AT: u8 = 64;
pub const LBRACKET: u8 = 91;
pub const BACKSLASH: u8 = 92;
pub const RBRACKET: u8 = 93;
pub const UNDERSCORE: u8 = 95;
pub const LBRACE: u8 = 123;
pub const PIPE: u8 = 124;
pub const RBRACE: u8 = 125;

/// The classes of bytes whose maximal runs the grammar consumes.
#[derive(Clone, Copy, PartialEq, Eq, Debug)]
pub enum ByteClass {
    /// Anything but `[`, `]`, `(`, `)`, `"` and `/`.
    NotBracketSpecial,
    /// Anything but `{`, `}`, `[`, `]`, `(`, `)`, `"` and `/`.
    NotBraceSpecial,
    /// Anything but `"` and `\`.
    NotQuoteOrBackslash,
    /// Anything but `*`.
    NotStar,
    /// Anything but `@`, `{` and `}`.
    NotTextSpecial,
    /// Anything but `;`, `(` and `)`.
    NotPreambleSpecial,
    /// `_`, ASCII digits and ASCII letters.
    NameTail,
    /// ASCII letters.
    Alpha,
    /// ASCII digits.
    Digit,
    /// Space, tab, carriage return and line feed.
    MultiSpace,
    /// The space character only.
    Space,
    /// Anything but a line feed.
    NotNewline,
}

/// An ASCII letter.
pub open spec fn is_alpha(b: u8) -> bool {
    (65 <= b <= 90) || (97 <= b <= 122)
}

/// An ASCII digit.
pub open spec fn is_digit(b: u8) -> bool {
    48 <= b <= 57
}

/// Space, tab, carriage return or line feed.
pub open spec fn is_multispace(b: u8) -> bool {
    b == SPACE || b == TAB || b == CR || b == LF
}

/// Whether byte `b` belongs to class `c`.
pub open spec fn class_has(c: ByteClass, b: u8) -> bool {
    match c {
        ByteClass::NotBracketSpecial => !(b == LBRACKET || b == RBRACKET || b == LPAREN || b
            == RPAREN || b == DQUOTE || b == SLASH),
        ByteClass::NotBraceSpecial => !(b == LBRACE || b == RBRACE || b == LBRACKET || b
            == RBRACKET || b == LPAREN || b == RPAREN || b == DQUOTE || b == SLASH),
        ByteClass::NotQuoteOrBackslash => !(b == DQUOTE || b == BACKSLASH),
        ByteClass::NotStar => b != STAR,
        ByteClass::NotTextSpecial => !(b == AT || b == LBRACE || b == RBRACE),
        ByteClass::NotPreambleSpecial => !(b == SEMI || b == LPAREN || b == RPAREN),
        ByteClass::NameTail => b == UNDERSCORE || is_digit(b) || is_alpha(b),
        ByteClass::Alpha => is_alpha(b),
        ByteClass::Digit => is_digit(b),
        ByteClass::MultiSpace => is_multispace(b),
        ByteClass::Space => b == SPACE,
        ByteClass::NotNewline => b != LF,
    }
}

/// Whether byte `b` belongs to class `c`.
pub fn class_contains(c: ByteClass, b: u8) -> (r: bool)
    ensures
        r == class_has(c, b),
{
    match c {
        ByteClass::NotBracketSpecial => !(b == LBRACKET || b == RBRACKET || b == LPAREN || b
            == RPAREN || b == DQUOTE || b == SLASH),
        ByteClass::NotBraceSpecial => !(b == LBRACE || b == RBRACE || b == LBRACKET || b
            == RBRACKET || b == LPAREN || b == RPAREN || b == DQUOTE || b == SLASH),
        ByteClass::NotQuoteOrBackslash => !(b == DQUOTE || b == BACKSLASH),
        ByteClass::NotStar => b != STAR,
        ByteClass::NotTextSpecial => !(b == AT || b == LBRACE || b == RBRACE),
        ByteClass::NotPreambleSpecial => !(b == SEMI || b == LPAREN || b == RPAREN),
        ByteClass::NameTail => b == UNDERSCORE || (48 <= b && b <= 57) || (65 <= b && b <= 90)
            || (97 <= b && b <= 122),
        ByteClass::Alpha => (65 <= b && b <= 90) || (97 <= b && b <= 122),
        ByteClass::Digit => 48 <= b && b <= 57,
        ByteClass::MultiSpace => b == SPACE || b == TAB || b == CR || b == LF,
        ByteClass::Space => b == SPACE,
        ByteClass::NotNewline => b != LF,
    }
}

/// The end of the maximal run of bytes of class `c` that starts at `p`.
pub open spec fn span_end(s: Seq<u8>, p: int, c: ByteClass) -> int
    decreases s.len() - p,
{
    if 0 <= p < s.len() && class_has(c, s[p]) {
        span_end(s, p + 1, c)
    } else {
        p
    }
}

/// A maximal run lies inside the input, holds only bytes of its class,
/// and is followed by a byte of another class or by the end.
pub proof fn lemma_span_end(s: Seq<u8>, p: int, c: ByteClass)
    requires
        0 <= p <= s.len(),
    ensures
        p <= span_end(s, p, c) <= s.len(),
        forall|i: int| p <= i < span_end(s, p, c) ==> class_has(c, #[trigger] s[i]),
        span_end(s, p, c) < s.len() ==> !class_has(c, s[span_end(s, p, c)]),
    decreases s.len() - p,
{
    if p < s.len() && class_has(c, s[p]) {
        lemma_span_end(s, p + 1, c);
    }
}

/// Finds the end of the maximal run of bytes of class `c` from `p`.
pub fn span(s: &[u8], p: usize, c: ByteClass) -> (e: usize)
    requires
        p <= s@.len(),
    ensures
        e == span_end(s@, p as int, c),
        p <= e <= s@.len(),
        s@.len() <= usize::MAX,
{
    let mut i = p;
    while i < s.len() && class_contains(c, s[i])
        invariant
            p <= i <= s@.len(),
            span_end(s@, p as int, c) == span_end(s@, i as int, c),
        decreases s@.len() - i,
    {
        i += 1;
    }
    i
}

/// Whether the bytes of `t` occur in `s` at position `p`.
pub open spec fn tag_at(s: Seq<u8>, p: int, t: Seq<u8>) -> bool {
    0 <= p && p + t.len() <= s.len() && s.subrange(p, p + t.len()) == t
}

/// Whether the bytes of `t` occur in `s` at position `p`.
pub fn has_tag(s: &[u8], p: usize, t: &[u8]) -> (r: bool)
    requires
        p <= s@.len(),
    ensures
        r == tag_at(s@, p as int, t@),
        s@.len() <= usize::MAX,
{
    if t.len() > s.len() - p {
        return false;
    }
    let mut i: usize = 0;
    while i < t.len()
        invariant
            i <= t@.len(),
            p <= s@.len(),
            s@.len() <= usize::MAX,
            p + t@.len() <= s@.len(),
            forall|j: int| 0 <= j < i ==> s@[p + j] == t@[j],
        decreases t@.len() - i,
    {
        if s[p + i] != t[i] {
            assert(s@.subrange(p as int, p + t@.len())[i as int] != t@[i as int]);
            return false;
        }
        i += 1;
    }
    assert(s@.subrange(p as int, p + t@.len()) =~= t@);
    true
}

/// Whether byte `b` is at position `p` of `s`.
pub open spec fn byte_at(s: Seq<u8>, p: int, b: u8) -> bool {
    0 <= p < s.len() && s[p] == b
}

/// Whether byte `b` is at position `p` of `s`.
pub fn has_byte(s: &[u8], p: usize, b: u8) -> (r: bool)
    requires
        p <= s@.len(),
    ensures
        r == byte_at(s@, p as int, b),
        s@.len() <= usize::MAX,
{
    p < s.len() && s[p] == b
}

/// `std::str::Utf8Error`, the error of `std::str::from_utf8`, held as an
/// opaque value.
#[verifier::external_type_specification]
#[verifier::external_body]
pub struct ExUtf8Error(std::str::Utf8Error);

/// `std::str::from_utf8`: succeeds exactly on valid UTF-8, and the string
/// it returns has exactly the given bytes (so its characters are their
/// decoding).
#[verifier::external_body]
pub(crate) fn str_from_utf8(v: &[u8]) -> (r: Result<&str, std::str::Utf8Error>)
    ensures
        r is Ok <==> valid_utf8(v@),
        r matches Ok(t) ==> t@ == decode_utf8(v@),
{
    std::str::from_utf8(v)
}

/// Whether the bytes of `s` from `a` to `b` are valid UTF-8.
pub open spec fn is_text(s: Seq<u8>, a: int, b: int) -> bool {
    valid_utf8(s.subrange(a, b))
}

/// The characters that the bytes of `s` from `a` to `b` spell (meaningful
/// when they are valid UTF-8).
pub open spec fn range_text(s: Seq<u8>, a: int, b: int) -> Seq<char> {
    decode_utf8(s.subrange(a, b))
}

/// Copies the bytes from `a` to `b` into a `String`, if they are valid
/// UTF-8.
pub fn range_string(s: &[u8], a: usize, b: usize) -> (r: Option<String>)
    requires
        a <= b <= s@.len(),
    ensures
        r is Some <==> is_text(s@, a as int, b as int),
        r matches Some(t) ==> t@ == range_text(s@, a as int, b as int),
{
    let sub = vstd::slice::slice_subrange(s, a, b);
    match str_from_utf8(sub) {
        Ok(t) => Some(t.to_owned()),
        Err(_) => None,
    }
}

/// The bytes from `a` to `b` as a string slice, if they are valid UTF-8.
pub fn range_str(s: &[u8], a: usize, b: usize) -> (r: Option<&str>)
    requires
        a <= b <= s@.len(),
    ensures
        r is Some <==> is_text(s@, a as int, b as int),
        r matches Some(t) ==> t@ == range_text(s@, a as int, b as int),
{
    let sub = vstd::slice::slice_subrange(s, a, b);
    match str_from_utf8(sub) {
        Ok(t) => Some(t),
        Err(_) => None,
    }
}

/// Whether the bytes from `a` to `b` are valid UTF-8.
pub fn range_is_utf8(s: &[u8], a: usize, b: usize) -> (r: bool)
    requires
        a <= b <= s@.len(),
    ensures
        r == is_text(s@, a as int, b as int),
{
    let sub = vstd::slice::slice_subrange(s, a, b);
    str_from_utf8(sub).is_ok()
}

/// Bytes below 128 are valid UTF-8 on their own.
pub proof fn lemma_ascii_range_is_text(s: Seq<u8>, a: int, b: int)
    requires
        0 <= a <= b <= s.len(),
        forall|i: int| a <= i < b ==> #[trigger] s[i] < 128,
    ensures
        is_text(s, a, b),
{
    let t = s.subrange(a, b);
    assert forall|i: int| 0 <= 0 <= i < t.len() <= t.len() implies #[trigger]
        vstd::utf8::is_leading_byte_width_1(t[i]) by {
        assert(t[i] == s[a + i]);
    }
    assert(t.subrange(0, 0) =~= Seq::<u8>::empty());
    assert(valid_utf8(Seq::<u8>::empty()));
    vstd::utf8::partial_valid_utf8_extend_ascii_block(t, 0, t.len() as int);
    assert(t.subrange(0, t.len() as int) =~= t);
}

/// `String::push`: appends one character.
#[verifier::external_body]
pub(crate) fn push_char(s: &mut String, c: char)
    ensures
        final(s)@ == old(s)@.push(c),
{
    s.push(c)
}

} // verus!
