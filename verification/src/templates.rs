//! What compiled templates use at run time: writing values as HTML, with
//! the characters that are special in HTML escaped.
use crate::bytes::{AMP, DQUOTE, GT, LT, SQUOTE};
use vstd::prelude::*;
use vstd::string::StringSliceAdditionalSpecFns;
use vstd::utf8::encode_utf8;
use crate::parseresult::decimal;

verus! {

/// Whether byte `b` must be escaped in HTML text and attribute values.
pub open spec fn needs_escape(b: u8) -> bool {
    b == DQUOTE || b == AMP || b == SQUOTE || b == LT || b == GT
}

/// `&quot;`
pub open spec fn quot() -> Seq<u8> {
    seq![38u8, 113u8, 117u8, 111u8, 116u8, 59u8]
}

/// `&amp;`
pub open spec fn amp() -> Seq<u8> {
    seq![38u8, 97u8, 109u8, 112u8, 59u8]
}

/// `&lt;`
pub open spec fn lt() -> Seq<u8> {
    seq![38u8, 108u8, 116u8, 59u8]
}

/// `&gt;`
pub open spec fn gt() -> Seq<u8> {
    seq![38u8, 103u8, 116u8, 59u8]
}

/// `&#39;`
pub open spec fn apos() -> Seq<u8> {
    seq![38u8, 35u8, 51u8, 57u8, 59u8]
}

/// The entity that stands for a byte that must be escaped; any other byte
/// is taken for `'`.
pub open spec fn entity(b: u8) -> Seq<u8> {
    if b == DQUOTE {
        quot()
    } else if b == AMP {
        amp()
    } else if b == LT {
        lt()
    } else if b == GT {
        gt()
    } else {
        apos()
    }
}

/// How one byte is written in HTML.
pub open spec fn escape_byte(b: u8) -> Seq<u8> {
    if needs_escape(b) {
        entity(b)
    } else {
        seq![b]
    }
}

/// `s` with every byte that is special in HTML replaced by its entity.
pub open spec fn html_escape(s: Seq<u8>) -> Seq<u8>
    decreases s.len(),
{
    if s.len() == 0 {
        Seq::empty()
    } else {
        html_escape(s.drop_last()) + escape_byte(s.last())
    }
}

/// How many bytes from the start of `s` need no escaping.
pub open spec fn plain_prefix(s: Seq<u8>, i: int) -> int
    decreases s.len() - i,
{
    if 0 <= i < s.len() && !needs_escape(s[i]) {
        plain_prefix(s, i + 1)
    } else {
        i
    }
}

/// How many bytes of `data` one step of the escaping writer consumes: the
/// run of bytes that need no escaping, or else one byte.
pub open spec fn write_step(data: Seq<u8>) -> int {
    if plain_prefix(data, 0) > 0 {
        plain_prefix(data, 0)
    } else if data.len() == 0 {
        0
    } else {
        1
    }
}

/// Escaping distributes over concatenation.
pub proof fn lemma_html_escape_concat(a: Seq<u8>, b: Seq<u8>)
    ensures
        html_escape(a + b) == html_escape(a) + html_escape(b),
    decreases b.len(),
{
    if b.len() == 0 {
        assert(a + b =~= a);
        assert(html_escape(a) + html_escape(b) =~= html_escape(a));
    } else {
        lemma_html_escape_concat(a, b.drop_last());
        assert((a + b).drop_last() =~= a + b.drop_last());
        assert((a + b).last() == b.last());
        assert(html_escape(a) + html_escape(b.drop_last()) + escape_byte(b.last()) =~= html_escape(
            a,
        ) + (html_escape(b.drop_last()) + escape_byte(b.last())));
    }
}

/// Escaping leaves no byte that is special in HTML but `&`, and each `&`
/// starts an entity.
pub proof fn lemma_html_escape_safe(s: Seq<u8>)
    ensures
        forall|i: int|
            0 <= i < html_escape(s).len() ==> !(#[trigger] html_escape(s)[i] == DQUOTE
                || html_escape(s)[i] == SQUOTE || html_escape(s)[i] == LT || html_escape(s)[i]
                == GT),
    decreases s.len(),
{
    if s.len() > 0 {
        lemma_html_escape_safe(s.drop_last());
        let a = html_escape(s.drop_last());
        let e = escape_byte(s.last());
        assert(html_escape(s) == a + e);
        assert forall|i: int| 0 <= i < html_escape(s).len() implies !(#[trigger] html_escape(
            s,
        )[i] == DQUOTE || html_escape(s)[i] == SQUOTE || html_escape(s)[i] == LT
            || html_escape(s)[i] == GT) by {
            if i >= a.len() {
                assert(html_escape(s)[i] == e[i - a.len()]);
            } else {
                assert(html_escape(s)[i] == a[i]);
            }
        }
    }
}

/// Bytes that need no escaping are written as they are.
pub proof fn lemma_html_escape_plain(s: Seq<u8>)
    requires
        forall|i: int| 0 <= i < s.len() ==> !needs_escape(#[trigger] s[i]),
    ensures
        html_escape(s) == s,
    decreases s.len(),
{
    if s.len() > 0 {
        lemma_html_escape_plain(s.drop_last());
        assert(s.drop_last() + seq![s.last()] =~= s);
    }
}

proof fn lemma_plain_prefix(s: Seq<u8>, i: int)
    requires
        0 <= i <= s.len(),
    ensures
        i <= plain_prefix(s, i) <= s.len(),
        forall|j: int| i <= j < plain_prefix(s, i) ==> !needs_escape(#[trigger] s[j]),
        plain_prefix(s, i) < s.len() ==> needs_escape(s[plain_prefix(s, i)]),
    decreases s.len() - i,
{
    if i < s.len() && !needs_escape(s[i]) {
        lemma_plain_prefix(s, i + 1);
    }
}

/// A writer that escapes what is written through it, onto `out`.
pub struct ToHtmlEscapingWriter {
    out: Vec<u8>,
}

impl View for ToHtmlEscapingWriter {
    type V = Seq<u8>;

    closed spec fn view(&self) -> Seq<u8> {
        self.out@
    }
}

impl ToHtmlEscapingWriter {
    /// A writer that appends to `out`.
    pub fn new(out: Vec<u8>) -> (w: Self)
        ensures
            w@ == out@,
    {
        ToHtmlEscapingWriter { out }
    }

    /// What has been written, with what `out` held before.
    pub fn into_inner(self) -> (out: Vec<u8>)
        ensures
            out@ == self@,
    {
        self.out
    }

    /// Writes the first byte of `data`, escaped, and tells how many bytes
    /// it consumed: none for empty data, else one.
    pub fn write_one_byte_escaped(out: &mut Vec<u8>, data: &[u8]) -> (n: usize)
        ensures
            data@.len() == 0 ==> n == 0 && final(out)@ == old(out)@,
            data@.len() > 0 ==> n == 1 && final(out)@ == old(out)@ + entity(data@[0]),
    {
        if data.len() == 0 {
            return 0;
        }
        let b = data[0];
        let e: &[u8] = if b == DQUOTE {
            let q: &[u8] = &[38u8, 113u8, 117u8, 111u8, 116u8, 59u8];
            assert(q@ == quot());
            q
        } else if b == AMP {
            let q: &[u8] = &[38u8, 97u8, 109u8, 112u8, 59u8];
            assert(q@ == amp());
            q
        } else if b == LT {
            let q: &[u8] = &[38u8, 108u8, 116u8, 59u8];
            assert(q@ == lt());
            q
        } else if b == GT {
            let q: &[u8] = &[38u8, 103u8, 116u8, 59u8];
            assert(q@ == gt());
            q
        } else {
            let q: &[u8] = &[38u8, 35u8, 51u8, 57u8, 59u8];
            assert(q@ == apos());
            q
        };
        append_bytes(out, e);
        1
    }

    /// One step of writing `data`: writes the run of bytes at its start
    /// that need no escaping, or else its first byte escaped, and tells how
    /// many bytes it consumed.
    pub fn write(&mut self, data: &[u8]) -> (n: usize)
        ensures
            n == write_step(data@),
            n <= data@.len(),
            data@.len() > 0 ==> n > 0,
            final(self)@ == old(self)@ + html_escape(data@.take(n as int)),
    {
        let mut k: usize = 0;
        while k < data.len() && !is_special(data[k])
            invariant
                k <= data@.len(),
                plain_prefix(data@, 0) == plain_prefix(data@, k as int),
                forall|j: int| 0 <= j < k ==> !needs_escape(#[trigger] data@[j]),
            decreases data@.len() - k,
        {
            k += 1;
        }
        if k > 0 {
            let run = vstd::slice::slice_subrange(data, 0, k);
            proof {
                assert(run@ =~= data@.take(k as int));
                lemma_html_escape_plain(run@);
            }
            append_bytes(&mut self.out, run);
            k
        } else {
            let n = Self::write_one_byte_escaped(&mut self.out, data);
            proof {
                if data@.len() > 0 {
                    let t = data@.take(1);
                    assert(t.drop_last() =~= Seq::<u8>::empty());
                    assert(t.last() == data@[0]);
                    assert(html_escape(Seq::<u8>::empty()) == Seq::<u8>::empty());
                    assert(needs_escape(data@[0]));
                    assert(html_escape(t) == html_escape(t.drop_last()) + escape_byte(t.last()));
                    assert(Seq::<u8>::empty() + entity(data@[0]) =~= entity(data@[0]));
                } else {
                    assert(data@.take(0) =~= Seq::<u8>::empty());
                    assert(old(self)@ + Seq::<u8>::empty() =~= old(self)@);
                }
            }
            n
        }
    }

    /// Writes all of `data`, escaped, one step after another.
    pub fn write_all(&mut self, data: &[u8])
        ensures
            final(self)@ == old(self)@ + html_escape(data@),
    {
        let ghost start = self@;
        let mut rest = data;
        assert(data@.subrange(0, 0) =~= Seq::<u8>::empty());
        while rest.len() > 0
            invariant
                rest@ == data@.subrange(data@.len() - rest@.len(), data@.len() as int),
                rest@.len() <= data@.len(),
                self@ == start + html_escape(data@.subrange(0, data@.len() - rest@.len())),
            decreases rest@.len(),
        {
            let ghost before = self@;
            let ghost done = data@.subrange(0, data@.len() - rest@.len());
            let n = self.write(rest);
            proof {
                let step = rest@.take(n as int);
                assert(done + step =~= data@.subrange(0, data@.len() - rest@.len() + n));
                lemma_html_escape_concat(done, step);
            }
            rest = vstd::slice::slice_subrange(rest, n, rest.len());
        }
        assert(data@.subrange(0, data@.len() as int) =~= data@);
    }
}

/// Whether byte `b` must be escaped in HTML.
fn is_special(b: u8) -> (r: bool)
    ensures
        r == needs_escape(b),
{
    b == DQUOTE || b == AMP || b == SQUOTE || b == LT || b == GT
}

/// Appends the bytes of `data` to `out`.
fn append_bytes(out: &mut Vec<u8>, data: &[u8])
    ensures
        final(out)@ == old(out)@ + data@,
{
    let ghost start = out@;
    let mut i: usize = 0;
    while i < data.len()
        invariant
            i <= data@.len(),
            out@ == start + data@.take(i as int),
        decreases data@.len() - i,
    {
        out.push(data[i]);
        assert(data@.take(i + 1) =~= data@.take(i as int).push(data@[i as int]));
        i += 1;
    }
    assert(data@.take(data@.len() as int) =~= data@);
}

/// A rendered snippet of HTML.
pub struct HtmlBuffer {
    buf: Vec<u8>,
}

impl View for HtmlBuffer {
    type V = Seq<u8>;

    closed spec fn view(&self) -> Seq<u8> {
        self.buf@
    }
}

impl HtmlBuffer {
    /// The bytes of the snippet.
    pub fn as_bytes(&self) -> (r: &[u8])
        ensures
            r@ == self@,
    {
        self.buf.as_slice()
    }
}

/// A value that can be the result of an expression in a template, and how
/// it is written as HTML.
pub trait ToHtml {
    /// The bytes that `to_html` writes for this value.
    spec fn html_view(&self) -> Seq<u8>;

    /// Writes this value to `out`, as HTML.
    fn to_html(&self, out: &mut Vec<u8>)
        ensures
            final(out)@ == old(out)@ + self.html_view(),
    ;

    /// Writes this value as HTML to a buffer of its own.
    fn to_buffer(&self) -> (r: HtmlBuffer)
        ensures
            r@ == self.html_view(),
    {
        let mut buf = Vec::new();
        self.to_html(&mut buf);
        assert(buf@ =~= self.html_view());
        HtmlBuffer { buf }
    }
}

/// Text is written with its special characters escaped.
impl ToHtml for str {
    open spec fn html_view(&self) -> Seq<u8> {
        html_escape(self.spec_bytes())
    }

    fn to_html(&self, out: &mut Vec<u8>) {
        let mut inner = Vec::new();
        std::mem::swap(out, &mut inner);
        let mut w = ToHtmlEscapingWriter::new(inner);
        w.write_all(self.as_bytes());
        let mut result = w.into_inner();
        std::mem::swap(out, &mut result);
    }
}

/// Text is written with its special characters escaped.
impl ToHtml for String {
    open spec fn html_view(&self) -> Seq<u8> {
        html_escape(encode_utf8(self@))
    }

    fn to_html(&self, out: &mut Vec<u8>) {
        self.as_str().to_html(out)
    }
}

/// A rendered snippet is written as it is.
impl ToHtml for HtmlBuffer {
    closed spec fn html_view(&self) -> Seq<u8> {
        self.buf@
    }

    fn to_html(&self, out: &mut Vec<u8>) {
        append_bytes(out, self.buf.as_slice());
    }
}

/// Data that is written as raw HTML, markup and all.
pub struct Html<T>(pub T);

/// Raw HTML text is written as it is.
impl<'a> ToHtml for Html<&'a str> {
    open spec fn html_view(&self) -> Seq<u8> {
        self.0.spec_bytes()
    }

    fn to_html(&self, out: &mut Vec<u8>) {
        append_bytes(out, self.0.as_bytes());
    }
}

/// Raw HTML text is written as it is.
impl ToHtml for Html<String> {
    open spec fn html_view(&self) -> Seq<u8> {
        encode_utf8(self.0@)
    }

    fn to_html(&self, out: &mut Vec<u8>) {
        append_bytes(out, self.0.as_str().as_bytes());
    }
}

/// Raw HTML is written verbatim, whatever holds it: `Html` of a `String`
/// writes exactly the UTF-8 bytes of the string, the same bytes as `Html`
/// of a `&str` with the same text, while the `String` on its own is written
/// escaped.
pub proof fn law_raw_html_verbatim(t: String, s: &str)
    ensures
        Html(t).html_view() == encode_utf8(t@),
        s@ == t@ ==> Html(t).html_view() == Html(s).html_view(),
        t.html_view() == html_escape(Html(t).html_view()),
{
}

/// The decimal digits of an integer, with a `-` in front of a negative one,
/// as `Display` writes it.
pub open spec fn signed_decimal(x: int) -> Seq<char> {
    if x < 0 {
        seq!['-'] + decimal((-x) as nat)
    } else {
        decimal(x as nat)
    }
}

/// The decimal digits of `n`.
pub fn u64_decimal(n: u64) -> (r: String)
    ensures
        r@ == decimal(n as nat),
    decreases n,
{
    if n < 10 {
        let mut r = String::new();
        crate::bytes::push_char(&mut r, crate::parseresult::digit(n as usize));
        assert(r@ =~= seq![crate::parseresult::digit_char(n as nat)]);
        r
    } else {
        let mut r = u64_decimal(n / 10);
        crate::bytes::push_char(&mut r, crate::parseresult::digit((n % 10) as usize));
        r
    }
}

/// The decimal digits of `n`, with a `-` in front if it is negative.
pub fn i64_decimal(n: i64) -> (r: String)
    ensures
        r@ == signed_decimal(n as int),
{
    if n < 0 {
        let m: u64 = if n == i64::MIN {
            9223372036854775808u64
        } else {
            (-n) as u64
        };
        let d = u64_decimal(m);
        let mut r = String::from_str("-");
        r.append(d.as_str());
        proof {
            reveal_strlit("-");
            assert(r@ =~= seq!['-'] + decimal((-(n as int)) as nat));
        }
        r
    } else {
        u64_decimal(n as u64)
    }
}

/// A number is written in decimal, as its `Display` writes it.
impl ToHtml for u8 {
    open spec fn html_view(&self) -> Seq<u8> {
        html_escape(encode_utf8(decimal(*self as nat)))
    }

    fn to_html(&self, out: &mut Vec<u8>) {
        let d = u64_decimal(*self as u64);
        d.as_str().to_html(out)
    }
}

/// A number is written in decimal, as its `Display` writes it.
impl ToHtml for u16 {
    open spec fn html_view(&self) -> Seq<u8> {
        html_escape(encode_utf8(decimal(*self as nat)))
    }

    fn to_html(&self, out: &mut Vec<u8>) {
        let d = u64_decimal(*self as u64);
        d.as_str().to_html(out)
    }
}

/// A number is written in decimal, as its `Display` writes it.
impl ToHtml for u32 {
    open spec fn html_view(&self) -> Seq<u8> {
        html_escape(encode_utf8(decimal(*self as nat)))
    }

    fn to_html(&self, out: &mut Vec<u8>) {
        let d = u64_decimal(*self as u64);
        d.as_str().to_html(out)
    }
}

/// A number is written in decimal, as its `Display` writes it.
impl ToHtml for u64 {
    open spec fn html_view(&self) -> Seq<u8> {
        html_escape(encode_utf8(decimal(*self as nat)))
    }

    fn to_html(&self, out: &mut Vec<u8>) {
        let d = u64_decimal(*self as u64);
        d.as_str().to_html(out)
    }
}

/// A number is written in decimal, as its `Display` writes it.
impl ToHtml for usize {
    open spec fn html_view(&self) -> Seq<u8> {
        html_escape(encode_utf8(decimal(*self as nat)))
    }

    fn to_html(&self, out: &mut Vec<u8>) {
        let d = u64_decimal(*self as u64);
        d.as_str().to_html(out)
    }
}

/// A number is written in decimal, as its `Display` writes it.
impl ToHtml for i8 {
    open spec fn html_view(&self) -> Seq<u8> {
        html_escape(encode_utf8(signed_decimal(*self as int)))
    }

    fn to_html(&self, out: &mut Vec<u8>) {
        let d = i64_decimal(*self as i64);
        d.as_str().to_html(out)
    }
}

/// A number is written in decimal, as its `Display` writes it.
impl ToHtml for i16 {
    open spec fn html_view(&self) -> Seq<u8> {
        html_escape(encode_utf8(signed_decimal(*self as int)))
    }

    fn to_html(&self, out: &mut Vec<u8>) {
        let d = i64_decimal(*self as i64);
        d.as_str().to_html(out)
    }
}

/// A number is written in decimal, as its `Display` writes it.
impl ToHtml for i32 {
    open spec fn html_view(&self) -> Seq<u8> {
        html_escape(encode_utf8(signed_decimal(*self as int)))
    }

    fn to_html(&self, out: &mut Vec<u8>) {
        let d = i64_decimal(*self as i64);
        d.as_str().to_html(out)
    }
}

/// A number is written in decimal, as its `Display` writes it.
impl ToHtml for i64 {
    open spec fn html_view(&self) -> Seq<u8> {
        html_escape(encode_utf8(signed_decimal(*self as int)))
    }

    fn to_html(&self, out: &mut Vec<u8>) {
        let d = i64_decimal(*self as i64);
        d.as_str().to_html(out)
    }
}

/// A number is written in decimal, as its `Display` writes it.
impl ToHtml for isize {
    open spec fn html_view(&self) -> Seq<u8> {
        html_escape(encode_utf8(signed_decimal(*self as int)))
    }

    fn to_html(&self, out: &mut Vec<u8>) {
        let d = i64_decimal(*self as i64);
        d.as_str().to_html(out)
    }
}

/// A truth value is written as `true` or `false`.
impl ToHtml for bool {
    open spec fn html_view(&self) -> Seq<u8> {
        html_escape(
            encode_utf8(
                if *self {
                    "true"@
                } else {
                    "false"@
                },
            ),
        )
    }

    fn to_html(&self, out: &mut Vec<u8>) {
        if *self {
            "true".to_html(out)
        } else {
            "false".to_html(out)
        }
    }
}

/// A character is written as itself, escaped where HTML needs it.
impl ToHtml for char {
    open spec fn html_view(&self) -> Seq<u8> {
        html_escape(encode_utf8(seq![*self]))
    }

    fn to_html(&self, out: &mut Vec<u8>) {
        let mut t = String::new();
        crate::bytes::push_char(&mut t, *self);
        assert(t@ =~= seq![*self]);
        t.as_str().to_html(out)
    }
}
} // verus!
