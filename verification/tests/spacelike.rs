use ructe::parseresult::{ErrorEntry, ErrorKind, PrimitiveKind, ParseError};
use ructe::spacelike::{comment, comment_tail, spacelike};

#[test]
fn comment1() {
    assert_eq!(comment(b"@* a simple comment *@"), Ok((&b""[..], ())));
}
#[test]
fn comment2() {
    let space_before = b" @* comment *@";
    assert_eq!(
        comment(space_before),
        Err(ParseError {
            errors: vec![ErrorEntry { pos: 0, kind: ErrorKind::Primitive(PrimitiveKind::Tag) }],
        }),
    )
}
#[test]
fn comment3() {
    assert_eq!(comment(b"@* comment *@ & stuff"), Ok((&b" & stuff"[..], ())));
}
#[test]
fn comment4() {
    assert_eq!(
        comment(b"@* comment *@ and @* another *@"),
        Ok((&b" and @* another *@"[..], ()))
    );
}
#[test]
fn comment5() {
    assert_eq!(comment(b"@* comment containing * and @ *@"), Ok((&b""[..], ())));
}
#[test]
fn comment6() {
    assert_eq!(comment(b"@*** peculiar comment ***@***"), Ok((&b"***"[..], ())));
}

#[test]
fn spacelike_empty() {
    assert_eq!(spacelike(b""), Ok((&b""[..], ())));
}
#[test]
fn spacelike_simple() {
    assert_eq!(spacelike(b" "), Ok((&b""[..], ())));
}
#[test]
fn spacelike_long() {
    assert_eq!(
        spacelike(
            b"\n\
              @* a comment on a line by itself *@\n\
              \t\t   \n\n\r\n\
              @*another comment*@    something else"
        ),
        Ok((&b"something else"[..], ()))
    );
}

#[test]
fn comment_unterminated() {
    assert_eq!(
        comment(b"@* never closed"),
        Err(ParseError {
            errors: vec![ErrorEntry { pos: 15, kind: ErrorKind::Primitive(PrimitiveKind::Tag) }],
        }),
    );
}

#[test]
fn comment_tail_stops_after_close() {
    assert_eq!(comment_tail(b" rest *@ after"), Ok((&b" after"[..], ())));
}

#[test]
fn spacelike_stops_at_text() {
    assert_eq!(spacelike(b"  x "), Ok((&b"x "[..], ())));
}
