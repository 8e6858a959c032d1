//! Whitespace and `@* ... *@` comments.
use crate::bytes::{byte_at, has_byte, has_tag, span, span_end, tag_at, ByteClass, AT, STAR};
use crate::parseresult::{
    err1, mk_err, pos_rel, presult_rel, ErrorKind, PrimitiveKind, PResult, ParseError, SpecPos,
};
use vstd::prelude::*;

verus! {

/// `@*` followed by the rest of a comment.
pub open spec fn spec_comment(s: Seq<u8>, p: int) -> SpecPos {
    if tag_at(s, p, seq![AT, STAR]) {
        spec_comment_tail(s, p + 2)
    } else {
        SpecPos::Err(err1(p, ErrorKind::Primitive(PrimitiveKind::Tag)))
    }
}

/// One piece of comment text: a run without `*`, or a `*` followed by a
/// byte other than `@`.
pub open spec fn comment_piece(s: Seq<u8>, i: int) -> Option<int> {
    if span_end(s, i, ByteClass::NotStar) > i {
        Some(span_end(s, i, ByteClass::NotStar))
    } else if byte_at(s, i, STAR) && i + 1 < s.len() && s[i + 1] != AT {
        Some(i + 2)
    } else {
        None
    }
}

/// As many comment pieces as there are, from `i`.
pub open spec fn comment_pieces(s: Seq<u8>, i: int) -> SpecPos
    decreases s.len() - i,
{
    match comment_piece(s, i) {
        None => SpecPos::Ok(i),
        Some(j) => if i < j <= s.len() {
            comment_pieces(s, j)
        } else {
            SpecPos::Err(err1(i, ErrorKind::Primitive(PrimitiveKind::Many0)))
        },
    }
}

/// The text of a comment up to and including its closing `*@`.
pub open spec fn spec_comment_tail(s: Seq<u8>, p: int) -> SpecPos {
    match comment_pieces(s, p) {
        SpecPos::Err(e) => SpecPos::Err(e),
        SpecPos::Ok(q) => if tag_at(s, q, seq![STAR, AT]) {
            SpecPos::Ok(q + 2)
        } else {
            SpecPos::Err(err1(q, ErrorKind::Primitive(PrimitiveKind::Tag)))
        },
    }
}

/// One piece of space: a comment or a run of whitespace.
pub open spec fn space_piece(s: Seq<u8>, p: int) -> Option<int> {
    match spec_comment(s, p) {
        SpecPos::Ok(q) => Some(q),
        SpecPos::Err(_) => if span_end(s, p, ByteClass::MultiSpace) > p {
            Some(span_end(s, p, ByteClass::MultiSpace))
        } else {
            None
        },
    }
}

/// Any amount of whitespace and comments.
pub open spec fn spec_spacelike(s: Seq<u8>, p: int) -> SpecPos
    decreases s.len() - p,
{
    match space_piece(s, p) {
        None => SpecPos::Ok(p),
        Some(q) => if p < q <= s.len() {
            spec_spacelike(s, q)
        } else {
            SpecPos::Err(err1(p, ErrorKind::Primitive(PrimitiveKind::Many0)))
        },
    }
}

fn comment_piece_at(s: &[u8], i: usize) -> (r: Option<usize>)
    requires
        i <= s@.len(),
    ensures
        r matches Some(j) ==> comment_piece(s@, i as int) == Some(j as int),
        r is None ==> comment_piece(s@, i as int) is None,
        r matches Some(j) ==> i < j <= s@.len(),
{
    let e = span(s, i, ByteClass::NotStar);
    if e > i {
        Some(e)
    } else if has_byte(s, i, STAR) && s.len() - i > 1 && s[i + 1] != AT {
        Some(i + 2)
    } else {
        None
    }
}

/// Parses the rest of a comment, up to and including `*@`, at `p`.
pub fn comment_tail_at(s: &[u8], p: usize) -> (r: Result<usize, ParseError>)
    requires
        p <= s@.len(),
    ensures
        pos_rel(r, spec_comment_tail(s@, p as int)),
        r matches Ok(q) ==> p + 2 <= q <= s@.len(),
{
    let mut i = p;
    loop
        invariant
            p <= i <= s@.len(),
            comment_pieces(s@, p as int) == comment_pieces(s@, i as int),
        ensures
            p <= i <= s@.len(),
            comment_pieces(s@, p as int) == SpecPos::Ok(i as int),
        decreases s@.len() - i,
    {
        match comment_piece_at(s, i) {
            None => {
                break ;
            },
            Some(j) => {
                i = j;
            },
        }
    }
    let end: [u8; 2] = [STAR, AT];
    assert(end@ == seq![STAR, AT]);
    if has_tag(s, i, &end) {
        assert(end@.len() == 2);
        Ok(i + 2)
    } else {
        Err(mk_err(i, ErrorKind::Primitive(PrimitiveKind::Tag)))
    }
}

/// Parses a `@* *@` comment at `p`.
pub fn comment_at(s: &[u8], p: usize) -> (r: Result<usize, ParseError>)
    requires
        p <= s@.len(),
    ensures
        pos_rel(r, spec_comment(s@, p as int)),
        r matches Ok(q) ==> p + 4 <= q <= s@.len(),
{
    let start: [u8; 2] = [AT, STAR];
    assert(start@ == seq![AT, STAR]);
    if has_tag(s, p, &start) {
        assert(start@.len() == 2);
        comment_tail_at(s, p + 2)
    } else {
        Err(mk_err(p, ErrorKind::Primitive(PrimitiveKind::Tag)))
    }
}

fn space_piece_at(s: &[u8], p: usize) -> (r: Option<usize>)
    requires
        p <= s@.len(),
    ensures
        r matches Some(j) ==> space_piece(s@, p as int) == Some(j as int),
        r is None ==> space_piece(s@, p as int) is None,
        r matches Some(j) ==> p < j <= s@.len(),
{
    match comment_at(s, p) {
        Ok(q) => Some(q),
        Err(_) => {
            let e = span(s, p, ByteClass::MultiSpace);
            if e > p {
                Some(e)
            } else {
                None
            }
        },
    }
}

/// Skips whitespace and comments from `p`; never fails.
pub fn spacelike_at(s: &[u8], p: usize) -> (q: usize)
    requires
        p <= s@.len(),
    ensures
        spec_spacelike(s@, p as int) == SpecPos::Ok(q as int),
        p <= q <= s@.len(),
{
    let mut i = p;
    loop
        invariant
            p <= i <= s@.len(),
            spec_spacelike(s@, p as int) == spec_spacelike(s@, i as int),
        decreases s@.len() - i,
    {
        match space_piece_at(s, i) {
            None => {
                return i;
            },
            Some(j) => {
                i = j;
            },
        }
    }
}

/// Where the whitespace and comments from `p` end.
pub open spec fn sp(s: Seq<u8>, p: int) -> int {
    match spec_spacelike(s, p) {
        SpecPos::Ok(q) => q,
        SpecPos::Err(_) => p,
    }
}

/// Skipping space never fails, and ends between `p` and the end of input.
pub proof fn lemma_spacelike(s: Seq<u8>, p: int)
    requires
        0 <= p <= s.len(),
    ensures
        spec_spacelike(s, p) == SpecPos::Ok(sp(s, p)),
        p <= sp(s, p) <= s.len(),
    decreases s.len() - p,
{
    match space_piece(s, p) {
        None => {},
        Some(q) => {
            if p < q <= s.len() {
                lemma_spacelike(s, q);
            } else {
                assert(false) by {
                    lemma_space_piece_fwd(s, p);
                }
            }
        },
    }
}

proof fn lemma_comment_pieces_fwd(s: Seq<u8>, i: int)
    requires
        0 <= i <= s.len(),
    ensures
        comment_pieces(s, i) matches SpecPos::Ok(q) ==> i <= q <= s.len(),
    decreases s.len() - i,
{
    crate::bytes::lemma_span_end(s, i, ByteClass::NotStar);
    match comment_piece(s, i) {
        None => {},
        Some(j) => {
            if i < j <= s.len() {
                lemma_comment_pieces_fwd(s, j);
            }
        },
    }
}

proof fn lemma_space_piece_fwd(s: Seq<u8>, p: int)
    requires
        0 <= p <= s.len(),
    ensures
        space_piece(s, p) matches Some(q) ==> p < q <= s.len(),
{
    crate::bytes::lemma_span_end(s, p, ByteClass::MultiSpace);
    if tag_at(s, p, seq![AT, STAR]) {
        lemma_comment_pieces_fwd(s, p + 2);
    }
}

/// Whitespace and comments at the start of `input`.
pub fn spacelike(input: &[u8]) -> (r: PResult<()>)
    ensures
        presult_rel(r, input@, spec_spacelike(input@, 0)),
        r is Ok,
{
    let q = spacelike_at(input, 0);
    Ok((vstd::slice::slice_subrange(input, q, input.len()), ()))
}

/// A `@* ... *@` comment at the start of `input`.
pub fn comment(input: &[u8]) -> (r: PResult<()>)
    ensures
        presult_rel(r, input@, spec_comment(input@, 0)),
{
    match comment_at(input, 0) {
        Ok(q) => Ok((vstd::slice::slice_subrange(input, q, input.len()), ())),
        Err(e) => Err(e),
    }
}

/// The rest of a comment, up to and including `*@`, at the start of
/// `input`.
pub fn comment_tail(input: &[u8]) -> (r: PResult<()>)
    ensures
        presult_rel(r, input@, spec_comment_tail(input@, 0)),
{
    match comment_tail_at(input, 0) {
        Ok(q) => Ok((vstd::slice::slice_subrange(input, q, input.len()), ())),
        Err(e) => Err(e),
    }
}

} // verus!
