//! Static files: content-dependent names, mime types, and the Rust source
//! of the `statics` module that holds each file as a constant.
use crate::template::{chars_of, replace_str};
use vstd::prelude::*;
use vstd::string::{StrSliceExecFns, StringSliceAdditionalSpecFns};
use vstd::utf8::{encode_utf8, is_ascii_chars};

verus! {

/// The character for a 6-bit value in the URL-safe base64 alphabet.
pub open spec fn b64_char(v: int) -> char {
    if v < 26 {
        (65 + v) as char
    } else if v < 52 {
        (97 + v - 26) as char
    } else if v < 62 {
        (48 + v - 52) as char
    } else if v == 62 {
        '-'
    } else {
        '_'
    }
}

/// Base64 of `s` with the URL-safe alphabet (`-` and `_` for the last two
/// values) and `=` padding: each group of three bytes gives four
/// characters, and a last group of one or two bytes gives two or three
/// characters and padding.
pub open spec fn base64_url(s: Seq<u8>) -> Seq<char>
    decreases s.len(),
{
    if s.len() == 0 {
        Seq::empty()
    } else if s.len() == 1 {
        seq![b64_char(s[0] as int / 4), b64_char((s[0] as int % 4) * 16), '=', '=']
    } else if s.len() == 2 {
        seq![
            b64_char(s[0] as int / 4),
            b64_char((s[0] % 4) * 16 + s[1] / 16),
            b64_char((s[1] % 16) * 4),
            '=',
        ]
    } else {
        seq![
            b64_char(s[0] as int / 4),
            b64_char((s[0] % 4) * 16 + s[1] / 16),
            b64_char((s[1] % 16) * 4 + s[2] / 64),
            b64_char(s[2] as int % 64),
        ] + base64_url(s.skip(3))
    }
}

/// `base64::encode_config` with `base64::URL_SAFE`: standard base64 with
/// the URL-safe alphabet and `=` padding.
#[verifier::external_body]
fn base64_url_encode(input: &[u8]) -> (r: String)
    requires
        input@.len() <= usize::MAX / 2,
    ensures
        r@ == base64_url(input@),
{
    base64::encode_config(input, base64::URL_SAFE)
}

/// The MD5 digest of `data`, as its 16 bytes.
pub uninterp spec fn md5_digest(data: Seq<u8>) -> Seq<u8>;

/// `md5::compute`: the digest is named `md5_digest` of the data; it has 16
/// bytes, as its type shows.
#[verifier::external_body]
fn md5_compute(data: &[u8]) -> (r: [u8; 16])
    ensures
        r@ == md5_digest(data@),
{
    md5::compute(data).0
}

/// The slug for a digest: its first 6 bytes (48 bits) in URL-safe
/// base64, 8 characters.
pub fn slug_of_digest(digest: &[u8]) -> (r: String)
    requires
        digest@.len() >= 6,
    ensures
        r@ == base64_url(digest@.take(6)),
{
    let head = vstd::slice::slice_subrange(digest, 0, 6);
    assert(head@ =~= digest@.take(6));
    base64_url_encode(head)
}

/// A short checksum of `data`, to put in a file name: the first 48 bits of
/// its MD5 digest in URL-safe base64.
pub fn checksum_slug(data: &[u8]) -> (r: String)
    ensures
        r@ == base64_url(md5_digest(data@).take(6)),
{
    let digest = md5_compute(data);
    assert(digest@.len() == 16);
    slug_of_digest(digest.as_slice())
}

/// The slug of six bytes has eight characters, all from the URL-safe
/// alphabet.
pub proof fn law_slug_shape(s: Seq<u8>)
    requires
        s.len() == 6,
    ensures
        base64_url(s).len() == 8,
        forall|i: int| 0 <= i < 8 ==> url_safe_char(#[trigger] base64_url(s)[i]),
{
    let t = s.skip(3);
    assert(t.len() == 3);
    assert(t.skip(3).len() == 0);
    assert(base64_url(t.skip(3)) =~= Seq::<char>::empty());
    let x = seq![
        b64_char(s[0] as int / 4),
        b64_char((s[0] as int % 4) * 16 + s[1] / 16),
        b64_char((s[1] % 16) * 4 + s[2] / 64),
        b64_char(s[2] as int % 64),
    ];
    let y = seq![
        b64_char(t[0] as int / 4),
        b64_char((t[0] as int % 4) * 16 + t[1] / 16),
        b64_char((t[1] % 16) * 4 + t[2] / 64),
        b64_char(t[2] as int % 64),
    ];
    assert(base64_url(t) == y + base64_url(t.skip(3)));
    assert(base64_url(t) =~= y);
    assert(base64_url(s) == x + base64_url(t));
    assert forall|v: int| 0 <= v < 64 implies url_safe_char(#[trigger] b64_char(v)) by {}
    assert(s[0] / 4 < 64 && (s[0] % 4) * 16 + s[1] / 16 < 64);
    assert((s[1] % 16) * 4 + s[2] / 64 < 64 && s[2] % 64 < 64);
    assert(t[0] / 4 < 64 && (t[0] % 4) * 16 + t[1] / 16 < 64);
    assert((t[1] % 16) * 4 + t[2] / 64 < 64 && t[2] % 64 < 64);
    assert forall|i: int| 0 <= i < 8 implies url_safe_char(#[trigger] base64_url(s)[i]) by {
        if i < 4 {
            assert(base64_url(s)[i] == x[i]);
        } else {
            assert(base64_url(s)[i] == y[i - 4]);
        }
    }
}

/// A character of the URL-safe base64 alphabet.
pub open spec fn url_safe_char(c: char) -> bool {
    ('A' <= c <= 'Z') || ('a' <= c <= 'z') || ('0' <= c <= '9') || c == '-' || c == '_'
}

/// Where the path segment that ends at `end` starts: after the last `/`
/// before `end`, or at 0.
pub open spec fn segment_start(s: Seq<char>, end: int) -> int
    decreases end,
{
    if end <= 0 {
        0
    } else if s[end - 1] == '/' {
        end
    } else {
        segment_start(s, end - 1)
    }
}

/// The range of the last component of the path `s[..end]`, if it is a
/// name: empty segments and `.` segments are skipped, and a path that ends
/// in `..` has none.
pub open spec fn file_name_range(s: Seq<char>, end: int) -> Option<(int, int)>
    decreases end,
{
    if end <= 0 {
        None
    } else {
        let st = segment_start(s, end);
        if !(0 <= st <= end) {
            None
        } else if st == end {
            file_name_range(s, end - 1)
        } else if end - st == 1 && s[st] == '.' {
            if st == 0 {
                None
            } else {
                file_name_range(s, st - 1)
            }
        } else if end - st == 2 && s[st] == '.' && s[st + 1] == '.' {
            None
        } else {
            Some((st, end))
        }
    }
}

/// The position of the last `.` in `s[a..i]`, or `a - 1` if there is none.
pub open spec fn last_dot(s: Seq<char>, a: int, i: int) -> int
    decreases i - a,
{
    if i <= a {
        a - 1
    } else if s[i - 1] == '.' {
        i - 1
    } else {
        last_dot(s, a, i - 1)
    }
}

/// The name and the extension of the file that a path names: the parts of
/// its last component before and after its last `.`; there are none when
/// the component has no `.` but at its start.
pub open spec fn spec_name_and_ext(s: Seq<char>) -> Option<(Seq<char>, Seq<char>)> {
    match file_name_range(s, s.len() as int) {
        None => None,
        Some((a, b)) => {
            let d = last_dot(s, a, b);
            if d <= a {
                None
            } else {
                Some((s.subrange(a, d), s.subrange(d + 1, b)))
            }
        },
    }
}

proof fn lemma_segment_start(s: Seq<char>, end: int)
    requires
        0 <= end <= s.len(),
    ensures
        0 <= segment_start(s, end) <= end,
    decreases end,
{
    if end > 0 && s[end - 1] != '/' {
        lemma_segment_start(s, end - 1);
    }
}

proof fn lemma_file_name_range(s: Seq<char>, end: int)
    requires
        0 <= end <= s.len(),
    ensures
        file_name_range(s, end) matches Some((a, b)) ==> 0 <= a < b <= end,
    decreases end,
{
    if end > 0 {
        lemma_segment_start(s, end);
        let st = segment_start(s, end);
        if st == end {
            lemma_file_name_range(s, end - 1);
        } else if end - st == 1 && s[st] == '.' && st > 0 {
            lemma_file_name_range(s, st - 1);
        }
    }
}

fn segment_start_of(cs: &Vec<char>, end: usize) -> (r: usize)
    requires
        end <= cs@.len(),
    ensures
        r == segment_start(cs@, end as int),
        r <= end,
{
    let mut i = end;
    while i > 0 && cs[i - 1] != '/'
        invariant
            i <= end <= cs@.len(),
            segment_start(cs@, end as int) == segment_start(cs@, i as int),
        decreases i,
    {
        i -= 1;
    }
    i
}

fn file_name_range_of(cs: &Vec<char>) -> (r: Option<(usize, usize)>)
    ensures
        match r {
            Some((a, b)) => file_name_range(cs@, cs@.len() as int) == Some((a as int, b as int))
                && a < b <= cs@.len(),
            None => file_name_range(cs@, cs@.len() as int) is None,
        },
{
    let mut end = cs.len();
    loop
        invariant
            end <= cs@.len(),
            file_name_range(cs@, cs@.len() as int) == file_name_range(cs@, end as int),
        decreases end,
    {
        if end == 0 {
            return None;
        }
        let st = segment_start_of(cs, end);
        if st == end {
            end = end - 1;
        } else if end - st == 1 && cs[st] == '.' {
            if st == 0 {
                return None;
            }
            end = st - 1;
        } else if end - st == 2 && cs[st] == '.' && cs[st + 1] == '.' {
            return None;
        } else {
            return Some((st, end));
        }
    }
}

fn last_dot_of(cs: &Vec<char>, a: usize, b: usize) -> (r: Option<usize>)
    requires
        a <= b <= cs@.len(),
    ensures
        match r {
            Some(d) => last_dot(cs@, a as int, b as int) == d && a <= d < b,
            None => last_dot(cs@, a as int, b as int) == a - 1,
        },
{
    let mut i = b;
    while i > a && cs[i - 1] != '.'
        invariant
            a <= i <= b <= cs@.len(),
            last_dot(cs@, a as int, b as int) == last_dot(cs@, a as int, i as int),
        decreases i,
    {
        i -= 1;
    }
    if i > a {
        Some(i - 1)
    } else {
        None
    }
}

/// The name and the extension of the file that `path` names, as
/// `std::path::Path` splits them.
pub fn name_and_ext(path: &str) -> (r: Option<(&str, &str)>)
    ensures
        r is Some <==> spec_name_and_ext(path@) is Some,
        r matches Some((n, e)) ==> spec_name_and_ext(path@) == Some((n@, e@)),
{
    let cs = chars_of(path);
    let (a, b) = match file_name_range_of(&cs) {
        None => {
            return None;
        },
        Some(r) => r,
    };
    match last_dot_of(&cs, a, b) {
        None => None,
        Some(d) => {
            if d <= a {
                return None;
            }
            Some((path.substring_char(a, d), path.substring_char(d + 1, b)))
        },
    }
}

/// Whether two strings are equal.
fn str_eq(a: &str, b: &str) -> (r: bool)
    ensures
        r == (a@ == b@),
{
    let x = chars_of(a);
    let y = chars_of(b);
    if x.len() != y.len() {
        return false;
    }
    let mut i: usize = 0;
    while i < x.len()
        invariant
            i <= x@.len(),
            x@.len() == y@.len(),
            x@ == a@,
            y@ == b@,
            forall|j: int| 0 <= j < i ==> x@[j] == y@[j],
        decreases x@.len() - i,
    {
        if x[i] != y[i] {
            return false;
        }
        i += 1;
    }
    assert(x@ =~= y@);
    true
}

/// What `str::to_lowercase` gives for `s`.
pub uninterp spec fn rust_lowercase(s: Seq<char>) -> Seq<char>;

/// A character with an ASCII capital letter turned into its small letter;
/// any other character as it is.
pub open spec fn ascii_lower_char(c: char) -> char {
    if 65 <= (c as u32) <= 90 {
        ((c as u32) + 32) as char
    } else {
        c
    }
}

/// The characters of `s`, each through `ascii_lower_char`.
pub open spec fn ascii_lower(s: Seq<char>) -> Seq<char> {
    s.map_values(|c: char| ascii_lower_char(c))
}

/// `str::to_lowercase`: the result is named `rust_lowercase` of the
/// characters of `s`. Of a string of ASCII characters it is the string
/// with each capital letter `A`-`Z` made small and every other character
/// kept, as Unicode maps no other ASCII character to a lower case; of any
/// other string nothing more is stated.
#[verifier::external_body]
fn to_lowercase(s: &str) -> (r: String)
    ensures
        r@ == rust_lowercase(s@),
        is_ascii_chars(s@) ==> r@ == ascii_lower(s@),
{
    s.to_lowercase()
}

/// The mime type for a lower-case file suffix.
pub open spec fn mime_type(lower: Seq<char>) -> Seq<char> {
    if lower == "bmp"@ {
        "image/bmp"@
    } else if lower == "css"@ {
        "text/css"@
    } else if lower == "eot"@ {
        "application/vnd.ms-fontobject"@
    } else if lower == "gif"@ {
        "image/gif"@
    } else if lower == "jpg"@ || lower == "jpeg"@ {
        "image/jpeg"@
    } else if lower == "js"@ || lower == "jsonp"@ {
        "application/javascript"@
    } else if lower == "json"@ {
        "application/json"@
    } else if lower == "png"@ {
        "image/png"@
    } else if lower == "svg"@ {
        "image/svg+xml"@
    } else if lower == "woff"@ {
        "font/woff"@
    } else if lower == "woff2"@ {
        "font/woff2"@
    } else {
        "application/octet-stream"@
    }
}

/// The name of the constant of the `mime` crate (version 0.3) for a
/// lower-case file suffix.
pub open spec fn mime_const(lower: Seq<char>) -> Seq<char> {
    if lower == "bmp"@ {
        "IMAGE_BMP"@
    } else if lower == "css"@ {
        "TEXT_CSS"@
    } else if lower == "gif"@ {
        "IMAGE_GIF"@
    } else if lower == "jpg"@ || lower == "jpeg"@ {
        "IMAGE_JPEG"@
    } else if lower == "js"@ || lower == "jsonp"@ {
        "TEXT_JAVASCRIPT"@
    } else if lower == "json"@ {
        "APPLICATION_JSON"@
    } else if lower == "png"@ {
        "IMAGE_PNG"@
    } else if lower == "svg"@ {
        "IMAGE_SVG"@
    } else if lower == "woff"@ || lower == "woff2"@ {
        "FONT_WOFF"@
    } else {
        "APPLICATION_OCTET_STREAM"@
    }
}

/// The table of known suffixes: each lower-case suffix below has the mime
/// type given beside it, and every other suffix is
/// `application/octet-stream`.
pub proof fn law_mime_table(other: Seq<char>)
    requires
        other != "bmp"@,
        other != "css"@,
        other != "eot"@,
        other != "gif"@,
        other != "jpg"@,
        other != "jpeg"@,
        other != "js"@,
        other != "jsonp"@,
        other != "json"@,
        other != "png"@,
        other != "svg"@,
        other != "woff"@,
        other != "woff2"@,
    ensures
        mime_type("bmp"@) == "image/bmp"@,
        mime_type("css"@) == "text/css"@,
        mime_type("eot"@) == "application/vnd.ms-fontobject"@,
        mime_type("gif"@) == "image/gif"@,
        mime_type("jpg"@) == "image/jpeg"@,
        mime_type("jpeg"@) == "image/jpeg"@,
        mime_type("js"@) == "application/javascript"@,
        mime_type("jsonp"@) == "application/javascript"@,
        mime_type("json"@) == "application/json"@,
        mime_type("png"@) == "image/png"@,
        mime_type("svg"@) == "image/svg+xml"@,
        mime_type("woff"@) == "font/woff"@,
        mime_type("woff2"@) == "font/woff2"@,
        mime_type(other) == "application/octet-stream"@,
{
    reveal_strlit("APPLICATION_JSON");
    reveal_strlit("APPLICATION_OCTET_STREAM");
    reveal_strlit("FONT_WOFF");
    reveal_strlit("IMAGE_BMP");
    reveal_strlit("IMAGE_GIF");
    reveal_strlit("IMAGE_JPEG");
    reveal_strlit("IMAGE_PNG");
    reveal_strlit("IMAGE_SVG");
    reveal_strlit("TEXT_CSS");
    reveal_strlit("TEXT_JAVASCRIPT");
    reveal_strlit("application/javascript");
    reveal_strlit("application/json");
    reveal_strlit("application/octet-stream");
    reveal_strlit("application/vnd.ms-fontobject");
    reveal_strlit("bmp");
    reveal_strlit("css");
    reveal_strlit("eot");
    reveal_strlit("font/woff");
    reveal_strlit("font/woff2");
    reveal_strlit("gif");
    reveal_strlit("image/bmp");
    reveal_strlit("image/gif");
    reveal_strlit("image/jpeg");
    reveal_strlit("image/png");
    reveal_strlit("image/svg+xml");
    reveal_strlit("jpeg");
    reveal_strlit("jpg");
    reveal_strlit("js");
    reveal_strlit("json");
    reveal_strlit("jsonp");
    reveal_strlit("png");
    reveal_strlit("svg");
    reveal_strlit("text/css");
    reveal_strlit("woff");
    reveal_strlit("woff2");
    assert("bmp"@[0] != "css"@[0]);
    assert("bmp"@[0] != "eot"@[0]);
    assert("bmp"@[0] != "gif"@[0]);
    assert("bmp"@[0] != "jpg"@[0]);
    assert("bmp"@[0] != "png"@[0]);
    assert("bmp"@[0] != "svg"@[0]);
    assert("css"@[0] != "eot"@[0]);
    assert("css"@[0] != "gif"@[0]);
    assert("css"@[0] != "jpg"@[0]);
    assert("css"@[0] != "png"@[0]);
    assert("css"@[0] != "svg"@[0]);
    assert("eot"@[0] != "gif"@[0]);
    assert("eot"@[0] != "jpg"@[0]);
    assert("eot"@[0] != "png"@[0]);
    assert("eot"@[0] != "svg"@[0]);
    assert("gif"@[0] != "jpg"@[0]);
    assert("gif"@[0] != "png"@[0]);
    assert("gif"@[0] != "svg"@[0]);
    assert("jpg"@[0] != "png"@[0]);
    assert("jpg"@[0] != "svg"@[0]);
    assert("jpeg"@[1] != "json"@[1]);
    assert("jpeg"@[0] != "woff"@[0]);
    assert("jsonp"@[0] != "woff2"@[0]);
    assert("json"@[0] != "woff"@[0]);
    assert("png"@[0] != "svg"@[0]);
    assert("bmp"@.len() == 3);
    assert("css"@.len() == 3);
    assert("eot"@.len() == 3);
    assert("gif"@.len() == 3);
    assert("jpg"@.len() == 3);
    assert("jpeg"@.len() == 4);
    assert("js"@.len() == 2);
    assert("jsonp"@.len() == 5);
    assert("json"@.len() == 4);
    assert("png"@.len() == 3);
    assert("svg"@.len() == 3);
    assert("woff"@.len() == 4);
    assert("woff2"@.len() == 5);
}

/// The table of `mime` 0.3 constants: each lower-case suffix below has the
/// constant given beside it, and every other suffix (`eot` among them) is
/// `APPLICATION_OCTET_STREAM`.
pub proof fn law_mime_const_table(other: Seq<char>)
    requires
        other != "bmp"@,
        other != "css"@,
        other != "gif"@,
        other != "jpg"@,
        other != "jpeg"@,
        other != "js"@,
        other != "jsonp"@,
        other != "json"@,
        other != "png"@,
        other != "svg"@,
        other != "woff"@,
        other != "woff2"@,
    ensures
        mime_const("bmp"@) == "IMAGE_BMP"@,
        mime_const("css"@) == "TEXT_CSS"@,
        mime_const("gif"@) == "IMAGE_GIF"@,
        mime_const("jpg"@) == "IMAGE_JPEG"@,
        mime_const("jpeg"@) == "IMAGE_JPEG"@,
        mime_const("js"@) == "TEXT_JAVASCRIPT"@,
        mime_const("jsonp"@) == "TEXT_JAVASCRIPT"@,
        mime_const("json"@) == "APPLICATION_JSON"@,
        mime_const("png"@) == "IMAGE_PNG"@,
        mime_const("svg"@) == "IMAGE_SVG"@,
        mime_const("woff"@) == "FONT_WOFF"@,
        mime_const("woff2"@) == "FONT_WOFF"@,
        mime_const("eot"@) == "APPLICATION_OCTET_STREAM"@,
        mime_const(other) == "APPLICATION_OCTET_STREAM"@,
{
    reveal_strlit("APPLICATION_JSON");
    reveal_strlit("APPLICATION_OCTET_STREAM");
    reveal_strlit("FONT_WOFF");
    reveal_strlit("IMAGE_BMP");
    reveal_strlit("IMAGE_GIF");
    reveal_strlit("IMAGE_JPEG");
    reveal_strlit("IMAGE_PNG");
    reveal_strlit("IMAGE_SVG");
    reveal_strlit("TEXT_CSS");
    reveal_strlit("TEXT_JAVASCRIPT");
    reveal_strlit("application/javascript");
    reveal_strlit("application/json");
    reveal_strlit("application/octet-stream");
    reveal_strlit("application/vnd.ms-fontobject");
    reveal_strlit("bmp");
    reveal_strlit("css");
    reveal_strlit("eot");
    reveal_strlit("font/woff");
    reveal_strlit("font/woff2");
    reveal_strlit("gif");
    reveal_strlit("image/bmp");
    reveal_strlit("image/gif");
    reveal_strlit("image/jpeg");
    reveal_strlit("image/png");
    reveal_strlit("image/svg+xml");
    reveal_strlit("jpeg");
    reveal_strlit("jpg");
    reveal_strlit("js");
    reveal_strlit("json");
    reveal_strlit("jsonp");
    reveal_strlit("png");
    reveal_strlit("svg");
    reveal_strlit("text/css");
    reveal_strlit("woff");
    reveal_strlit("woff2");
    assert("bmp"@[0] != "css"@[0]);
    assert("bmp"@[0] != "eot"@[0]);
    assert("bmp"@[0] != "gif"@[0]);
    assert("bmp"@[0] != "jpg"@[0]);
    assert("bmp"@[0] != "png"@[0]);
    assert("bmp"@[0] != "svg"@[0]);
    assert("css"@[0] != "eot"@[0]);
    assert("css"@[0] != "gif"@[0]);
    assert("css"@[0] != "jpg"@[0]);
    assert("css"@[0] != "png"@[0]);
    assert("css"@[0] != "svg"@[0]);
    assert("eot"@[0] != "gif"@[0]);
    assert("eot"@[0] != "jpg"@[0]);
    assert("eot"@[0] != "png"@[0]);
    assert("eot"@[0] != "svg"@[0]);
    assert("gif"@[0] != "jpg"@[0]);
    assert("gif"@[0] != "png"@[0]);
    assert("gif"@[0] != "svg"@[0]);
    assert("jpg"@[0] != "png"@[0]);
    assert("jpg"@[0] != "svg"@[0]);
    assert("jpeg"@[1] != "json"@[1]);
    assert("jpeg"@[0] != "woff"@[0]);
    assert("jsonp"@[0] != "woff2"@[0]);
    assert("json"@[0] != "woff"@[0]);
    assert("png"@[0] != "svg"@[0]);
    assert("bmp"@.len() == 3);
    assert("css"@.len() == 3);
    assert("eot"@.len() == 3);
    assert("gif"@.len() == 3);
    assert("jpg"@.len() == 3);
    assert("jpeg"@.len() == 4);
    assert("js"@.len() == 2);
    assert("jsonp"@.len() == 5);
    assert("json"@.len() == 4);
    assert("png"@.len() == 3);
    assert("svg"@.len() == 3);
    assert("woff"@.len() == 4);
    assert("woff2"@.len() == 5);
}

/// The mime type for a lower-case file suffix.
pub fn mime_for_lowercase(lower: &str) -> (r: &'static str)
    ensures
        r@ == mime_type(lower@),
{
    if str_eq(lower, "bmp") {
        "image/bmp"
    } else if str_eq(lower, "css") {
        "text/css"
    } else if str_eq(lower, "eot") {
        "application/vnd.ms-fontobject"
    } else if str_eq(lower, "gif") {
        "image/gif"
    } else if str_eq(lower, "jpg") || str_eq(lower, "jpeg") {
        "image/jpeg"
    } else if str_eq(lower, "js") || str_eq(lower, "jsonp") {
        "application/javascript"
    } else if str_eq(lower, "json") {
        "application/json"
    } else if str_eq(lower, "png") {
        "image/png"
    } else if str_eq(lower, "svg") {
        "image/svg+xml"
    } else if str_eq(lower, "woff") {
        "font/woff"
    } else if str_eq(lower, "woff2") {
        "font/woff2"
    } else {
        "application/octet-stream"
    }
}

/// The name of the `mime` 0.3 constant for a lower-case file suffix.
pub fn mime_const_for_lowercase(lower: &str) -> (r: &'static str)
    ensures
        r@ == mime_const(lower@),
{
    if str_eq(lower, "bmp") {
        "IMAGE_BMP"
    } else if str_eq(lower, "css") {
        "TEXT_CSS"
    } else if str_eq(lower, "gif") {
        "IMAGE_GIF"
    } else if str_eq(lower, "jpg") || str_eq(lower, "jpeg") {
        "IMAGE_JPEG"
    } else if str_eq(lower, "js") || str_eq(lower, "jsonp") {
        "TEXT_JAVASCRIPT"
    } else if str_eq(lower, "json") {
        "APPLICATION_JSON"
    } else if str_eq(lower, "png") {
        "IMAGE_PNG"
    } else if str_eq(lower, "svg") {
        "IMAGE_SVG"
    } else if str_eq(lower, "woff") || str_eq(lower, "woff2") {
        "FONT_WOFF"
    } else {
        "APPLICATION_OCTET_STREAM"
    }
}

/// The mime type for a file suffix, in any case: an ASCII suffix is
/// matched without regard to the case of its letters.
pub fn mime_from_suffix(suffix: &str) -> (r: &'static str)
    ensures
        r@ == mime_type(rust_lowercase(suffix@)),
        is_ascii_chars(suffix@) ==> r@ == mime_type(ascii_lower(suffix@)),
{
    let lower = to_lowercase(suffix);
    mime_for_lowercase(lower.as_str())
}

/// The name of the `mime` 0.3 constant for a file suffix, in any case: an
/// ASCII suffix is matched without regard to the case of its letters.
pub fn mime_const_from_suffix(suffix: &str) -> (r: &'static str)
    ensures
        r@ == mime_const(rust_lowercase(suffix@)),
        is_ascii_chars(suffix@) ==> r@ == mime_const(ascii_lower(suffix@)),
{
    let lower = to_lowercase(suffix);
    mime_const_for_lowercase(lower.as_str())
}

/// Which version of the `mime` crate the generated code describes static
/// files with, if any.
#[derive(Clone, Copy, PartialEq, Eq, Debug, Structural)]
pub enum MimeSupport {
    /// No mime types.
    NoMime,
    /// A mime type string, parsed by `mime` 0.2.
    Mime02,
    /// A constant of `mime` 0.3.
    Mime03,
}

/// The field that gives a static file its mime type, given the type or
/// the constant for its suffix.
pub open spec fn mime_field(support: MimeSupport, mime: Seq<char>) -> Seq<char> {
    match support {
        MimeSupport::NoMime => Seq::empty(),
        MimeSupport::Mime02 => "_mime: \""@ + mime + "\",\n"@,
        MimeSupport::Mime03 => "mime: &mime::"@ + mime + ",\n"@,
    }
}

/// The mime type or constant that the field for a lower-case suffix names.
pub open spec fn mime_of_lower(support: MimeSupport, lower: Seq<char>) -> Seq<char> {
    match support {
        MimeSupport::Mime03 => mime_const(lower),
        _ => mime_type(lower),
    }
}

/// The mime type or constant that the field for a suffix names.
pub open spec fn mime_of_suffix(support: MimeSupport, suffix: Seq<char>) -> Seq<char> {
    mime_of_lower(support, rust_lowercase(suffix))
}

/// The url name of the entry `entry` of a directory whose files are added
/// under the url prefix `to`: `to`, a `/`, and the entry's name.
pub fn nested_url_name(to: &str, entry: &str) -> (r: String)
    ensures
        r@ == to@ + "/"@ + entry@,
{
    let mut r = String::from_str(to);
    r.append("/");
    r.append(entry);
    r
}

/// The field that gives a static file with `suffix` its mime type.
pub fn mime_arg(support: MimeSupport, suffix: &str) -> (r: String)
    ensures
        r@ == mime_field(support, mime_of_suffix(support, suffix@)),
        is_ascii_chars(suffix@) ==> r@ == mime_field(
            support,
            mime_of_lower(support, ascii_lower(suffix@)),
        ),
{
    match support {
        MimeSupport::NoMime => String::new(),
        MimeSupport::Mime02 => {
            let mut r = String::from_str("_mime: \"");
            r.append(mime_from_suffix(suffix));
            r.append("\",\n");
            r
        },
        MimeSupport::Mime03 => {
            let mut r = String::from_str("mime: &mime::");
            r.append(mime_const_from_suffix(suffix));
            r.append(",\n");
            r
        },
    }
}

/// A lower-case hexadecimal digit.
pub open spec fn hex_digit(v: int) -> char {
    if v < 10 {
        (48 + v) as char
    } else {
        (97 + v - 10) as char
    }
}

/// How `std::ascii::escape_default` writes a byte: tab, carriage return,
/// line feed, quotes and backslash as their backslash escapes, printable
/// ASCII as itself, and any other byte as `\x` and two hexadecimal digits.
pub open spec fn escape_default(b: u8) -> Seq<char> {
    if b == 9 {
        seq!['\\', 't']
    } else if b == 13 {
        seq!['\\', 'r']
    } else if b == 10 {
        seq!['\\', 'n']
    } else if b == 39 {
        seq!['\\', '\'']
    } else if b == 34 {
        seq!['\\', '"']
    } else if b == 92 {
        seq!['\\', '\\']
    } else if 32 <= b <= 126 {
        seq![b as char]
    } else {
        seq!['\\', 'x', hex_digit(b as int / 16), hex_digit(b as int % 16)]
    }
}

/// The bytes of `s`, each escaped.
pub open spec fn escape_bytes(s: Seq<u8>) -> Seq<char>
    decreases s.len(),
{
    if s.len() == 0 {
        Seq::empty()
    } else {
        escape_bytes(s.drop_last()) + escape_default(s.last())
    }
}

/// A Rust byte string literal that denotes `data`.
pub open spec fn byte_string(data: Seq<u8>) -> Seq<char> {
    "b\""@ + escape_bytes(data) + "\""@
}

fn hex(v: u8) -> (c: char)
    requires
        v < 16,
    ensures
        c == hex_digit(v as int),
{
    if v < 10 {
        (48u8 + v) as char
    } else {
        (97u8 + v - 10) as char
    }
}

fn push_escaped(out: &mut String, b: u8)
    ensures
        final(out)@ == old(out)@ + escape_default(b),
{
    let ghost start = out@;
    if b == 9 {
        crate::bytes::push_char(out, '\\');
        crate::bytes::push_char(out, 't');
    } else if b == 13 {
        crate::bytes::push_char(out, '\\');
        crate::bytes::push_char(out, 'r');
    } else if b == 10 {
        crate::bytes::push_char(out, '\\');
        crate::bytes::push_char(out, 'n');
    } else if b == 39 {
        crate::bytes::push_char(out, '\\');
        crate::bytes::push_char(out, '\'');
    } else if b == 34 {
        crate::bytes::push_char(out, '\\');
        crate::bytes::push_char(out, '"');
    } else if b == 92 {
        crate::bytes::push_char(out, '\\');
        crate::bytes::push_char(out, '\\');
    } else if 32 <= b && b <= 126 {
        crate::bytes::push_char(out, b as char);
    } else {
        crate::bytes::push_char(out, '\\');
        crate::bytes::push_char(out, 'x');
        crate::bytes::push_char(out, hex(b / 16));
        crate::bytes::push_char(out, hex(b % 16));
    }
    assert(out@ =~= start + escape_default(b));
}

/// The Rust byte string literal that denotes `data`.
pub fn byte_string_literal(data: &[u8]) -> (r: String)
    ensures
        r@ == byte_string(data@),
{
    let mut r = String::from_str("b\"");
    let ghost head = r@;
    let mut i: usize = 0;
    assert(data@.take(0) =~= Seq::<u8>::empty());
    while i < data.len()
        invariant
            i <= data@.len(),
            r@ == head + escape_bytes(data@.take(i as int)),
        decreases data@.len() - i,
    {
        assert(data@.take(i + 1).drop_last() =~= data@.take(i as int));
        push_escaped(&mut r, data[i]);
        i += 1;
    }
    assert(data@.take(data@.len() as int) =~= data@);
    r.append("\"");
    r
}

/// Whether `a` comes before `b` in lexicographic order of bytes.
pub open spec fn bytes_lt(a: Seq<u8>, b: Seq<u8>) -> bool
    decreases a.len(),
{
    if a.len() == 0 {
        b.len() > 0
    } else if b.len() == 0 {
        false
    } else if a[0] != b[0] {
        a[0] < b[0]
    } else {
        bytes_lt(a.skip(1), b.skip(1))
    }
}

/// Whether string `a` comes before string `b` in the order of `str`: the
/// lexicographic order of their UTF-8 bytes.
pub open spec fn str_lt(a: Seq<char>, b: Seq<char>) -> bool {
    bytes_lt(encode_utf8(a), encode_utf8(b))
}

proof fn lemma_bytes_lt_irreflexive(a: Seq<u8>)
    ensures
        !bytes_lt(a, a),
    decreases a.len(),
{
    if a.len() > 0 {
        lemma_bytes_lt_irreflexive(a.skip(1));
    }
}

proof fn lemma_bytes_lt_transitive(a: Seq<u8>, b: Seq<u8>, c: Seq<u8>)
    requires
        bytes_lt(a, b),
        bytes_lt(b, c),
    ensures
        bytes_lt(a, c),
    decreases a.len(),
{
    if a.len() > 0 && b.len() > 0 && c.len() > 0 && a[0] == b[0] && b[0] == c[0] {
        lemma_bytes_lt_transitive(a.skip(1), b.skip(1), c.skip(1));
    }
}

proof fn lemma_bytes_lt_total(a: Seq<u8>, b: Seq<u8>)
    requires
        a != b,
    ensures
        bytes_lt(a, b) || bytes_lt(b, a),
    decreases a.len(),
{
    if a.len() > 0 && b.len() > 0 && a[0] == b[0] {
        if a.skip(1) == b.skip(1) {
            assert(a =~= seq![a[0]] + a.skip(1));
            assert(b =~= seq![b[0]] + b.skip(1));
        }
        lemma_bytes_lt_total(a.skip(1), b.skip(1));
    } else if a.len() == 0 && b.len() == 0 {
        assert(a =~= b);
    }
}

/// No string comes before itself.
pub proof fn lemma_str_lt_irreflexive(a: Seq<char>)
    ensures
        !str_lt(a, a),
{
    lemma_bytes_lt_irreflexive(encode_utf8(a));
}

/// The order of strings is transitive.
pub proof fn lemma_str_lt_transitive(a: Seq<char>, b: Seq<char>, c: Seq<char>)
    requires
        str_lt(a, b),
        str_lt(b, c),
    ensures
        str_lt(a, c),
{
    lemma_bytes_lt_transitive(encode_utf8(a), encode_utf8(b), encode_utf8(c));
}

/// Of two different strings, one comes before the other: different
/// strings have different UTF-8 bytes.
pub proof fn lemma_str_lt_total(a: Seq<char>, b: Seq<char>)
    requires
        a != b,
    ensures
        str_lt(a, b) || str_lt(b, a),
{
    vstd::utf8::encode_utf8_decode_utf8(a);
    vstd::utf8::encode_utf8_decode_utf8(b);
    lemma_bytes_lt_total(encode_utf8(a), encode_utf8(b));
}

/// Whether `a` comes before `b` in the order of `str`.
fn str_less(a: &str, b: &str) -> (r: bool)
    ensures
        r == str_lt(a@, b@),
{
    let x = a.as_bytes();
    let y = b.as_bytes();
    let mut i: usize = 0;
    assert(x@.skip(0) =~= x@ && y@.skip(0) =~= y@);
    while i < x.len() && i < y.len() && x[i] == y[i]
        invariant
            i <= x@.len(),
            i <= y@.len(),
            x@ == encode_utf8(a@),
            y@ == encode_utf8(b@),
            str_lt(a@, b@) == bytes_lt(x@.skip(i as int), y@.skip(i as int)),
        decreases x@.len() - i,
    {
        assert(x@.skip(i as int).skip(1) =~= x@.skip(i + 1));
        assert(y@.skip(i as int).skip(1) =~= y@.skip(i + 1));
        i += 1;
    }
    assert(x@.skip(i as int).len() == x@.len() - i);
    assert(y@.skip(i as int).len() == y@.len() - i);
    if i == x.len() {
        i < y.len()
    } else if i == y.len() {
        false
    } else {
        assert(x@.skip(i as int)[0] == x@[i as int]);
        assert(y@.skip(i as int)[0] == y@[i as int]);
        x[i] < y[i]
    }
}

/// The pairs of a map held as a vector of pairs of strings.
pub open spec fn pairs(v: Seq<(String, String)>) -> Seq<(Seq<char>, Seq<char>)> {
    v.map_values(|p: (String, String)| (p.0@, p.1@))
}

/// Whether the keys of `v` are in strictly increasing order.
pub open spec fn keys_sorted(v: Seq<(Seq<char>, Seq<char>)>) -> bool {
    forall|i: int, j: int| 0 <= i < j < v.len() ==> str_lt(#[trigger] v[i].0, #[trigger] v[j].0)
}

/// The value for key `k` in `v`, if there is one.
pub open spec fn lookup_key(v: Seq<(Seq<char>, Seq<char>)>, k: Seq<char>) -> Option<Seq<char>>
    decreases v.len(),
{
    if v.len() == 0 {
        None
    } else if v.last().0 == k {
        Some(v.last().1)
    } else {
        lookup_key(v.drop_last(), k)
    }
}

proof fn lemma_lookup_found(v: Seq<(Seq<char>, Seq<char>)>, j: int)
    requires
        keys_sorted(v),
        0 <= j < v.len(),
    ensures
        lookup_key(v, v[j].0) == Some(v[j].1),
    decreases v.len(),
{
    if j < v.len() - 1 {
        assert(str_lt(v[j].0, v[v.len() - 1].0));
        lemma_str_lt_irreflexive(v[j].0);
        let w = v.drop_last();
        assert(keys_sorted(w));
        assert(w[j] == v[j]);
        lemma_lookup_found(w, j);
    }
}

proof fn lemma_lookup_absent(v: Seq<(Seq<char>, Seq<char>)>, k: Seq<char>)
    requires
        forall|j: int| 0 <= j < v.len() ==> (#[trigger] v[j]).0 != k,
    ensures
        lookup_key(v, k) is None,
    decreases v.len(),
{
    if v.len() > 0 {
        let w = v.drop_last();
        assert forall|j: int| 0 <= j < w.len() implies (#[trigger] w[j]).0 != k by {
            assert(w[j] == v[j]);
        }
        lemma_lookup_absent(w, k);
    }
}

/// In a vector with sorted keys, the value for a key is the one beside
/// its occurrence.
proof fn lemma_lookup(v: Seq<(Seq<char>, Seq<char>)>, k: Seq<char>)
    requires
        keys_sorted(v),
    ensures
        (exists|j: int| 0 <= j < v.len() && (#[trigger] v[j]).0 == k) || lookup_key(v, k) is None,
        forall|j: int| 0 <= j < v.len() && (#[trigger] v[j]).0 == k ==> lookup_key(v, k) == Some(
            v[j].1,
        ),
{
    assert forall|j: int| 0 <= j < v.len() && (#[trigger] v[j]).0 == k implies lookup_key(v, k)
        == Some(v[j].1) by {
        lemma_lookup_found(v, j);
    }
    if !(exists|j: int| 0 <= j < v.len() && (#[trigger] v[j]).0 == k) {
        lemma_lookup_absent(v, k);
    }
}

/// Sets the value for key `k` to `val`, keeping the keys sorted: the value
/// of an existing key is replaced, and a new key goes where its order puts
/// it.
fn map_insert(v: &mut Vec<(String, String)>, k: String, val: String)
    requires
        keys_sorted(pairs(old(v)@)),
    ensures
        keys_sorted(pairs(final(v)@)),
        forall|x: Seq<char>|
            #![trigger lookup_key(pairs(final(v)@), x)]
            lookup_key(pairs(final(v)@), x) == if x == k@ {
                Some(val@)
            } else {
                lookup_key(pairs(old(v)@), x)
            },
{
    let ghost old_p = pairs(v@);
    let mut i: usize = 0;
    while i < v.len() && str_less(v[i].0.as_str(), k.as_str())
        invariant
            i <= v@.len(),
            old_p == pairs(v@),
            keys_sorted(old_p),
            forall|j: int| 0 <= j < i ==> str_lt((#[trigger] old_p[j]).0, k@),
        decreases v@.len() - i,
    {
        i += 1;
    }
    let ghost kv = k@;
    let ghost vv = val@;
    if i < v.len() && str_eq(v[i].0.as_str(), k.as_str()) {
        v.set(i, (k, val));
        proof {
            let new_p = pairs(v@);
            assert(new_p =~= old_p.update(i as int, (kv, vv)));
            assert(keys_sorted(new_p)) by {
                assert forall|a: int, b: int| 0 <= a < b < new_p.len() implies str_lt(
                    #[trigger] new_p[a].0,
                    #[trigger] new_p[b].0,
                ) by {
                    assert(str_lt(old_p[a].0, old_p[b].0));
                }
            }
            lemma_lookup(old_p, kv);
            lemma_lookup(new_p, kv);
            assert(new_p[i as int].0 == kv);
            assert forall|x: Seq<char>| x != kv implies lookup_key(new_p, x) == lookup_key(
                old_p,
                x,
            ) by {
                lemma_lookup(old_p, x);
                lemma_lookup(new_p, x);
                if exists|j: int| 0 <= j < old_p.len() && (#[trigger] old_p[j]).0 == x {
                    let j = choose|j: int| 0 <= j < old_p.len() && (#[trigger] old_p[j]).0 == x;
                    assert(new_p[j] == old_p[j]);
                }
                if exists|j: int| 0 <= j < new_p.len() && (#[trigger] new_p[j]).0 == x {
                    let j = choose|j: int| 0 <= j < new_p.len() && (#[trigger] new_p[j]).0 == x;
                    assert(new_p[j] == old_p[j]);
                }
            }
        }
    } else {
        proof {
            if i < old_p.len() {
                assert(old_p[i as int].0 != kv);
                lemma_str_lt_total(old_p[i as int].0, kv);
                assert(str_lt(kv, old_p[i as int].0));
            }
        }
        v.insert(i, (k, val));
        proof {
            let new_p = pairs(v@);
            assert(new_p =~= old_p.insert(i as int, (kv, vv)));
            assert forall|j: int| i <= j < old_p.len() implies str_lt(kv, (#[trigger] old_p[j]).0) by {
                if j > i {
                    assert(str_lt(old_p[i as int].0, old_p[j].0));
                    lemma_str_lt_transitive(kv, old_p[i as int].0, old_p[j].0);
                }
            }
            assert(keys_sorted(new_p)) by {
                assert forall|a: int, b: int| 0 <= a < b < new_p.len() implies str_lt(
                    #[trigger] new_p[a].0,
                    #[trigger] new_p[b].0,
                ) by {
                    if b < i {
                        assert(str_lt(old_p[a].0, old_p[b].0));
                    } else if b == i {
                        assert(str_lt(old_p[a].0, kv));
                    } else if a < i {
                        assert(str_lt(old_p[a].0, kv));
                        assert(str_lt(kv, old_p[b - 1].0));
                        lemma_str_lt_transitive(old_p[a].0, kv, old_p[b - 1].0);
                    } else if a == i {
                        assert(str_lt(kv, old_p[b - 1].0));
                    } else {
                        assert(str_lt(old_p[a - 1].0, old_p[b - 1].0));
                    }
                }
            }
            lemma_lookup(new_p, kv);
            assert(new_p[i as int].0 == kv);
            assert forall|x: Seq<char>| x != kv implies lookup_key(new_p, x) == lookup_key(
                old_p,
                x,
            ) by {
                lemma_lookup(old_p, x);
                lemma_lookup(new_p, x);
                if exists|j: int| 0 <= j < old_p.len() && (#[trigger] old_p[j]).0 == x {
                    let j = choose|j: int| 0 <= j < old_p.len() && (#[trigger] old_p[j]).0 == x;
                    if j < i {
                        assert(new_p[j] == old_p[j]);
                    } else {
                        assert(new_p[j + 1] == old_p[j]);
                    }
                }
                if exists|j: int| 0 <= j < new_p.len() && (#[trigger] new_p[j]).0 == x {
                    let j = choose|j: int| 0 <= j < new_p.len() && (#[trigger] new_p[j]).0 == x;
                    if j < i {
                        assert(new_p[j] == old_p[j]);
                    } else {
                        assert(j != i);
                        assert(new_p[j] == old_p[j - 1]);
                    }
                }
            }
        }
    }
}

/// The start of the `statics` module: the `StaticFile` type, with a mime
/// field and method as `support` asks.
pub open spec fn statics_header(support: MimeSupport) -> Seq<char> {
    (if support == MimeSupport::Mime03 {
        "extern crate mime;\nuse self::mime::Mime;\n\n"@
    } else {
        Seq::empty()
    }) + "/// A static file has a name (so its url can be recognized) and the\n/// actual file contents.\n///\n/// The name includes a short (48 bits as 8 base64 characters) hash of\n/// the content, to enable long-time caching of static resourses in\n/// the clients.\n#[allow(dead_code)]\npub struct StaticFile {\n    pub content: &'static [u8],\n    pub name: &'static str,\n"@
        + match support {
        MimeSupport::NoMime => Seq::empty(),
        MimeSupport::Mime02 => "    _mime: &'static str,\n"@,
        MimeSupport::Mime03 => "    pub mime: &'static Mime,\n"@,
    }
        + "}\n#[allow(dead_code)]\nimpl StaticFile {\n    /// Get a single `StaticFile` by name, if it exists.\n    pub fn get(name: &str) -> Option<&'static Self> {\n        if let Ok(pos) = STATICS.binary_search_by_key(&name, |s| s.name) {\n            Some(STATICS[pos])\n        } else {None}\n    }\n}\n"@
        + if support == MimeSupport::Mime02 {
        "extern crate mime;\nuse self::mime::Mime;\nimpl StaticFile {\n    /// Get the mime type of this static file.\n    ///\n    /// Currently, this method parses a (static) string every time.\n    /// A future release of `mime` may support statically created\n    /// `Mime` structs, which will make this nicer.\n    #[allow(unused)]\n    pub fn mime(&self) -> Mime {\n        self._mime.parse().unwrap()\n    }\n}\n"@
    } else {
        Seq::empty()
    }
}

/// What `format!("{:?}", Path::new(p))` gives for a path `p`: a quoted
/// literal that denotes it.
pub uninterp spec fn rust_debug_path(p: Seq<char>) -> Seq<char>;

/// `<std::path::Path as Debug>::fmt`, through `format!("{:?}", ..)`: the
/// result is named `rust_debug_path` of the characters of `path`; nothing
/// more is stated of it.
#[verifier::external_body]
fn debug_path(path: &str) -> (r: String)
    ensures
        r@ == rust_debug_path(path@),
{
    format!("{:?}", std::path::Path::new(path))
}

/// A name that starts with a digit, with `n` put in front so that it is an
/// identifier.
pub open spec fn digit_prefixed(name: Seq<char>) -> Seq<char> {
    if name.len() > 0 && '0' <= name[0] <= '9' {
        seq!['n'] + name
    } else {
        name
    }
}

/// The name of the constant for a static file: `/`, `-` and `.` become
/// `_`, and a leading digit gets an `n` in front.
pub open spec fn constant_name(name: Seq<char>) -> Seq<char> {
    digit_prefixed(
        crate::template::replace_all(
            crate::template::replace_all(crate::template::replace_all(name, "/"@, "_"@), "-"@, "_"@),
            "."@,
            "_"@,
        ),
    )
}

/// `name` with `n` in front if it starts with a digit.
pub fn prefix_digit(name: String) -> (r: String)
    ensures
        r@ == digit_prefixed(name@),
{
    let n = name.as_str().unicode_len();
    if n > 0 {
        let c = name.as_str().get_char(0);
        if '0' <= c && c <= '9' {
            let mut r = String::from_str("n");
            r.append(name.as_str());
            proof {
                reveal_strlit("n");
                assert(r@ =~= seq!['n'] + name@);
            }
            return r;
        }
    }
    name
}

/// The declaration of the constant for a static file, given its path
/// quoted as a Rust string literal.
pub open spec fn declaration(
    quoted_path: Seq<char>,
    rust_name: Seq<char>,
    url_name: Seq<char>,
    content: Seq<char>,
    mime: Seq<char>,
) -> Seq<char> {
    "\n/// From "@ + quoted_path + "\n#[allow(non_upper_case_globals)]\npub static "@ + rust_name
        + ": StaticFile = StaticFile {\n  content: "@ + content + ",\n  name: \""@ + url_name
        + "\",\n"@ + mime + "};\n"@
}

/// The declaration of the constant for a static file, given its path
/// quoted as a Rust string literal.
pub fn declaration_text(
    quoted_path: &str,
    rust_name: &str,
    url_name: &str,
    content: &str,
    mime: &str,
) -> (r: String)
    ensures
        r@ == declaration(quoted_path@, rust_name@, url_name@, content@, mime@),
{
    let mut r = String::from_str("\n/// From ");
    r.append(quoted_path);
    r.append("\n#[allow(non_upper_case_globals)]\npub static ");
    r.append(rust_name);
    r.append(": StaticFile = StaticFile {\n  content: ");
    r.append(content);
    r.append(",\n  name: \"");
    r.append(url_name);
    r.append("\",\n");
    r.append(mime);
    r.append("};\n");
    r
}

/// The declaration of the constant for a static file.
pub open spec fn static_declaration(
    path: Seq<char>,
    rust_name: Seq<char>,
    url_name: Seq<char>,
    content: Seq<char>,
    mime: Seq<char>,
) -> Seq<char> {
    declaration(rust_debug_path(path), rust_name, url_name, content, mime)
}

/// The expression that includes the file at `path` as the content of a
/// static file.
pub open spec fn include_bytes_of(path: Seq<char>) -> Seq<char> {
    "include_bytes!("@ + rust_debug_path(path) + ")"@
}

/// The list of all static files, ordered by their url names.
pub open spec fn statics_list(v: Seq<(Seq<char>, Seq<char>)>) -> Seq<char>
    decreases v.len(),
{
    if v.len() == 0 {
        Seq::empty()
    } else if v.len() == 1 {
        "&"@ + v[0].1
    } else {
        statics_list(v.drop_last()) + ", &"@ + v.last().1
    }
}

/// The end of the `statics` module: the `STATICS` array.
pub open spec fn statics_footer(names_r: Seq<(Seq<char>, Seq<char>)>) -> Seq<char> {
    "\npub static STATICS: &[&StaticFile] = &["@ + statics_list(names_r) + "];\n"@
}

/// The state of a `statics` module being written.
pub struct StaticsModel {
    /// The source written so far.
    pub source: Seq<char>,
    /// Constant names and the url names they stand for, by constant name.
    pub names: Seq<(Seq<char>, Seq<char>)>,
    /// Url names and their constant names, by url name.
    pub names_r: Seq<(Seq<char>, Seq<char>)>,
    /// How mime types are given.
    pub mime: MimeSupport,
}

/// The `statics` module of the generated code, being written: the source
/// of each static file as a constant, and the names given to them.
///
/// Each name map is a vector of pairs kept sorted by key with no key twice
/// (see `keys_sorted`): the `STATICS` list must come in url order, and
/// vstd's contracts for `BTreeMap` hold only for key types whose order it
/// specifies, which `String` is not among.
pub struct StaticFiles {
    src: String,
    names: Vec<(String, String)>,
    names_r: Vec<(String, String)>,
    mime: MimeSupport,
}

impl View for StaticFiles {
    type V = StaticsModel;

    closed spec fn view(&self) -> StaticsModel {
        StaticsModel {
            source: self.src@,
            names: pairs(self.names@),
            names_r: pairs(self.names_r@),
            mime: self.mime,
        }
    }
}

impl StaticFiles {
    /// Both name maps keep their keys in order.
    #[verifier::type_invariant]
    spec fn wf(&self) -> bool {
        keys_sorted(pairs(self.names@)) && keys_sorted(pairs(self.names_r@))
    }

    /// A new `statics` module, with mime types given as `mime` asks.
    pub fn new(mime: MimeSupport) -> (r: Self)
        ensures
            r@.source == statics_header(mime),
            r@.names.len() == 0,
            r@.names_r.len() == 0,
            r@.mime == mime,
    {
        let mut src = String::new();
        if mime == MimeSupport::Mime03 {
            src.append("extern crate mime;\nuse self::mime::Mime;\n\n");
        } else {
            assert(src@ + Seq::<char>::empty() =~= src@);
        }
        src.append(
            "/// A static file has a name (so its url can be recognized) and the\n/// actual file contents.\n///\n/// The name includes a short (48 bits as 8 base64 characters) hash of\n/// the content, to enable long-time caching of static resourses in\n/// the clients.\n#[allow(dead_code)]\npub struct StaticFile {\n    pub content: &'static [u8],\n    pub name: &'static str,\n",
        );
        match mime {
            MimeSupport::NoMime => {
                assert(src@ + Seq::<char>::empty() =~= src@);
            },
            MimeSupport::Mime02 => {
                src.append("    _mime: &'static str,\n");
            },
            MimeSupport::Mime03 => {
                src.append("    pub mime: &'static Mime,\n");
            },
        }
        src.append(
            "}\n#[allow(dead_code)]\nimpl StaticFile {\n    /// Get a single `StaticFile` by name, if it exists.\n    pub fn get(name: &str) -> Option<&'static Self> {\n        if let Ok(pos) = STATICS.binary_search_by_key(&name, |s| s.name) {\n            Some(STATICS[pos])\n        } else {None}\n    }\n}\n",
        );
        if mime == MimeSupport::Mime02 {
            src.append(
                "extern crate mime;\nuse self::mime::Mime;\nimpl StaticFile {\n    /// Get the mime type of this static file.\n    ///\n    /// Currently, this method parses a (static) string every time.\n    /// A future release of `mime` may support statically created\n    /// `Mime` structs, which will make this nicer.\n    #[allow(unused)]\n    pub fn mime(&self) -> Mime {\n        self._mime.parse().unwrap()\n    }\n}\n",
            );
        } else {
            assert(src@ + Seq::<char>::empty() =~= src@);
        }
        let r = StaticFiles { src, names: Vec::new(), names_r: Vec::new(), mime };
        assert(r@.names =~= Seq::<(Seq<char>, Seq<char>)>::empty());
        assert(r@.names_r =~= Seq::<(Seq<char>, Seq<char>)>::empty());
        r
    }

    /// The source written so far.
    pub fn source(&self) -> (r: &str)
        ensures
            r@ == self@.source,
    {
        self.src.as_str()
    }

    /// Constant names and the url names they stand for, ordered by
    /// constant name.
    pub fn get_names(&self) -> (r: &Vec<(String, String)>)
        ensures
            pairs(r@) == self@.names,
            keys_sorted(self@.names),
    {
        proof {
            use_type_invariant(self);
        }
        &self.names
    }

    /// Declares a static file named `url_name`, held in a constant named
    /// after `rust_name`, with `content` as its content expression, and
    /// records both names.
    pub fn add_static(
        &mut self,
        path: &str,
        rust_name: &str,
        url_name: &str,
        content: &str,
        suffix: &str,
    )
        ensures
            final(self)@.mime == old(self)@.mime,
            final(self)@.source == old(self)@.source + static_declaration(
                path@,
                constant_name(rust_name@),
                url_name@,
                content@,
                mime_field(old(self)@.mime, mime_of_suffix(old(self)@.mime, suffix@)),
            ),
            forall|x: Seq<char>|
                #![trigger lookup_key(final(self)@.names, x)]
                lookup_key(final(self)@.names, x) == if x == constant_name(rust_name@) {
                    Some(url_name@)
                } else {
                    lookup_key(old(self)@.names, x)
                },
            forall|x: Seq<char>|
                #![trigger lookup_key(final(self)@.names_r, x)]
                lookup_key(final(self)@.names_r, x) == if x == url_name@ {
                    Some(constant_name(rust_name@))
                } else {
                    lookup_key(old(self)@.names_r, x)
                },
    {
        proof {
            use_type_invariant(&*self);
            reveal_strlit("/");
            reveal_strlit("-");
            reveal_strlit(".");
        }
        let n1 = replace_str(rust_name, "/", "_");
        let n2 = replace_str(n1.as_str(), "-", "_");
        let n3 = replace_str(n2.as_str(), ".", "_");
        let name = prefix_digit(n3);
        let quoted = debug_path(path);
        let m = mime_arg(self.mime, suffix);
        let decl = declaration_text(quoted.as_str(), name.as_str(), url_name, content, m.as_str());
        let mut src = String::new();
        std::mem::swap(&mut src, &mut self.src);
        let mut names: Vec<(String, String)> = Vec::new();
        std::mem::swap(&mut names, &mut self.names);
        let mut names_r: Vec<(String, String)> = Vec::new();
        std::mem::swap(&mut names_r, &mut self.names_r);
        src.append(decl.as_str());
        map_insert(&mut names, name.clone(), String::from_str(url_name));
        map_insert(&mut names_r, String::from_str(url_name), name);
        self.src = src;
        self.names = names;
        self.names_r = names_r;
    }

    /// Adds a static file with content `data` from `path`, if the path has
    /// a name and an extension: its constant is named by both, and its url
    /// name adds the checksum of the content.  Tells whether it was added.
    pub fn add_file_data(&mut self, path: &str, data: &[u8]) -> (added: bool)
        ensures
            added == spec_name_and_ext(path@) is Some,
            !added ==> final(self)@ == old(self)@,
            added ==> {
                let (name, ext) = spec_name_and_ext(path@)->0;
                let url = name + "-"@ + base64_url(md5_digest(data@).take(6)) + "."@ + ext;
                &&& final(self)@.source == old(self)@.source + static_declaration(
                    path@,
                    constant_name(name + "_"@ + ext),
                    url,
                    byte_string(data@),
                    mime_field(old(self)@.mime, mime_of_suffix(old(self)@.mime, ext)),
                )
                &&& lookup_key(final(self)@.names, constant_name(name + "_"@ + ext)) == Some(url)
                &&& lookup_key(final(self)@.names_r, url) == Some(constant_name(name + "_"@ + ext))
            },
    {
        match name_and_ext(path) {
            None => false,
            Some((name, ext)) => {
                let mut rust_name = String::from_str(name);
                rust_name.append("_");
                rust_name.append(ext);
                let mut url_name = String::from_str(name);
                url_name.append("-");
                let slug = checksum_slug(data);
                url_name.append(slug.as_str());
                url_name.append(".");
                url_name.append(ext);
                let content = byte_string_literal(data);
                self.add_static(path, rust_name.as_str(), url_name.as_str(), content.as_str(), ext);
                true
            },
        }
    }

    /// Adds the file at `path`, included in the generated code by its path,
    /// with content `data`, if the path has a name and an extension; as
    /// `add_file_data`, but the content is not copied into the source.
    pub fn add_file(&mut self, path: &str, data: &[u8]) -> (added: bool)
        ensures
            added == spec_name_and_ext(path@) is Some,
            !added ==> final(self)@ == old(self)@,
            added ==> {
                let (name, ext) = spec_name_and_ext(path@)->0;
                let url = name + "-"@ + base64_url(md5_digest(data@).take(6)) + "."@ + ext;
                &&& final(self)@.source == old(self)@.source + static_declaration(
                    path@,
                    constant_name(name + "_"@ + ext),
                    url,
                    include_bytes_of(path@),
                    mime_field(old(self)@.mime, mime_of_suffix(old(self)@.mime, ext)),
                )
                &&& lookup_key(final(self)@.names, constant_name(name + "_"@ + ext)) == Some(url)
                &&& lookup_key(final(self)@.names_r, url) == Some(constant_name(name + "_"@ + ext))
            },
    {
        match name_and_ext(path) {
            None => false,
            Some((name, ext)) => {
                let mut rust_name = String::from_str(name);
                rust_name.append("_");
                rust_name.append(ext);
                let mut url_name = String::from_str(name);
                url_name.append("-");
                let slug = checksum_slug(data);
                url_name.append(slug.as_str());
                url_name.append(".");
                url_name.append(ext);
                let mut content = String::from_str("include_bytes!(");
                let quoted = debug_path(path);
                content.append(quoted.as_str());
                content.append(")");
                self.add_static(path, rust_name.as_str(), url_name.as_str(), content.as_str(), ext);
                true
            },
        }
    }

    /// Adds the file at `path` under the url name `url_name`, which also
    /// names its constant; its mime type goes by its extension, if any.
    pub fn add_file_as(&mut self, path: &str, url_name: &str)
        ensures
            final(self)@.source == old(self)@.source + static_declaration(
                path@,
                constant_name(url_name@),
                url_name@,
                include_bytes_of(path@),
                mime_field(
                    old(self)@.mime,
                    mime_of_suffix(
                        old(self)@.mime,
                        match spec_name_and_ext(path@) {
                            Some((_, e)) => e,
                            None => Seq::empty(),
                        },
                    ),
                ),
            ),
            lookup_key(final(self)@.names, constant_name(url_name@)) == Some(url_name@),
            lookup_key(final(self)@.names_r, url_name@) == Some(constant_name(url_name@)),
    {
        let ext = match name_and_ext(path) {
            Some((_, e)) => e,
            None => "",
        };
        proof {
            reveal_strlit("");
            assert(""@ =~= Seq::<char>::empty());
        }
        let mut content = String::from_str("include_bytes!(");
        let quoted = debug_path(path);
        content.append(quoted.as_str());
        content.append(")");
        self.add_static(path, url_name, url_name, content.as_str(), ext);
    }

    /// The url name of the static file whose constant is named after
    /// `name` (with `-` and `.` as `_`), or the message that there is none.
    pub fn static_name(&self, name: &str) -> (r: Result<String, String>)
        ensures
            ({
                let key = static_key(name@);
                match r {
                    Ok(url) => lookup_key(self@.names, key) == Some(url@),
                    Err(msg) => lookup_key(self@.names, key) is None && msg@ == "Static file "@
                        + key + " not found"@,
                }
            }),
    {
        let r = find_static_name(&self.names, name);
        proof {
            use_type_invariant(self);
            lemma_lookup(self@.names, static_key(name@));
            if r is Err {
                lemma_lookup_absent(self@.names, static_key(name@));
            }
        }
        r
    }

    /// The end of the module: the `STATICS` array of all static files,
    /// each once, ordered by url name in the order of `str`, so that a
    /// binary search by name finds any of them.
    pub fn statics_footer(&self) -> (r: String)
        ensures
            r@ == statics_footer(self@.names_r),
            keys_sorted(self@.names_r),
    {
        proof {
            use_type_invariant(self);
        }
        let ghost v = self@.names_r;
        let mut r = String::from_str("\npub static STATICS: &[&StaticFile] = &[");
        let ghost head = r@;
        let mut i: usize = 0;
        assert(v.take(0) =~= Seq::<(Seq<char>, Seq<char>)>::empty());
        while i < self.names_r.len()
            invariant
                i <= self.names_r@.len(),
                v == pairs(self.names_r@),
                r@ == head + statics_list(v.take(i as int)),
            decreases self.names_r@.len() - i,
        {
            assert(v.take(i + 1).drop_last() =~= v.take(i as int));
            if i == 0 {
                r.append("&");
            } else {
                r.append(", &");
            }
            r.append(self.names_r[i].1.as_str());
            proof {
                if i == 0 {
                    assert(v.take(1)[0] == v[0]);
                }
            }
            i += 1;
        }
        assert(v.take(self.names_r@.len() as int) =~= v);
        r.append("];\n");
        r
    }
}


/// The constant name that `static_name` looks for: `-` and `.` become `_`,
/// and a leading digit gets an `n` in front.
pub open spec fn static_key(name: Seq<char>) -> Seq<char> {
    digit_prefixed(
        crate::template::replace_all(crate::template::replace_all(name, "-"@, "_"@), "."@, "_"@),
    )
}

/// The url name beside the first constant name in `names` that `name`
/// gives (with `-` and `.` as `_`), or the message that there is none.
pub fn find_static_name(names: &Vec<(String, String)>, name: &str) -> (r: Result<String, String>)
    ensures
        ({
            let key = static_key(name@);
            let v = pairs(names@);
            match r {
                Ok(url) => exists|j: int|
                    0 <= j < v.len() && #[trigger] v[j] == (key, url@) && forall|k: int|
                        0 <= k < j ==> (#[trigger] v[k]).0 != key,
                Err(msg) => (forall|j: int| 0 <= j < v.len() ==> (#[trigger] v[j]).0 != key)
                    && msg@ == "Static file "@ + key + " not found"@,
            }
        }),
{
    proof {
        reveal_strlit("-");
        reveal_strlit(".");
    }
    let n1 = replace_str(name, "-", "_");
    let n2 = replace_str(n1.as_str(), ".", "_");
    let key = prefix_digit(n2);
    let ghost v = pairs(names@);
    let mut i: usize = 0;
    while i < names.len()
        invariant
            i <= names@.len(),
            v == pairs(names@),
            forall|j: int| 0 <= j < i ==> (#[trigger] v[j]).0 != key@,
            key@ == static_key(name@),
        decreases names@.len() - i,
    {
        if str_eq(names[i].0.as_str(), key.as_str()) {
            let url = names[i].1.clone();
            assert(v[i as int] == (key@, url@));
            return Ok(url);
        }
        i += 1;
    }
    let mut msg = String::from_str("Static file ");
    msg.append(key.as_str());
    msg.append(" not found");
    Err(msg)
}

/// The value of a lower-case hexadecimal digit.
pub open spec fn hex_value(c: char) -> Option<int> {
    if '0' <= c <= '9' {
        Some(c as int - 48)
    } else if 'a' <= c <= 'f' {
        Some(c as int - 97 + 10)
    } else {
        None
    }
}

/// The byte that the escape or character at the start of `c` denotes in a
/// byte string literal, and how many characters it takes.
pub open spec fn literal_unit(c: Seq<char>) -> Option<(u8, int)> {
    if c.len() >= 2 && c[0] == '\\' {
        if c[1] == 't' {
            Some((9u8, 2))
        } else if c[1] == 'r' {
            Some((13u8, 2))
        } else if c[1] == 'n' {
            Some((10u8, 2))
        } else if c[1] == '\'' {
            Some((39u8, 2))
        } else if c[1] == '"' {
            Some((34u8, 2))
        } else if c[1] == '\\' {
            Some((92u8, 2))
        } else if c[1] == 'x' && c.len() >= 4 && hex_value(c[2]) is Some && hex_value(
            c[3],
        ) is Some {
            Some(((16 * hex_value(c[2])->0 + hex_value(c[3])->0) as u8, 4))
        } else {
            None
        }
    } else if c.len() >= 1 && c[0] != '\\' && c[0] != '"' && 32 <= c[0] as int <= 126 {
        Some((c[0] as u8, 1))
    } else {
        None
    }
}

/// The bytes that the body of a byte string literal denotes, if it is a
/// well-formed body.
pub open spec fn unescape(c: Seq<char>) -> Option<Seq<u8>>
    decreases c.len(),
{
    if c.len() == 0 {
        Some(Seq::empty())
    } else {
        match literal_unit(c) {
            None => None,
            Some((b, k)) => if 0 < k <= c.len() {
                match unescape(c.skip(k)) {
                    Some(r) => Some(seq![b] + r),
                    None => None,
                }
            } else {
                None
            },
        }
    }
}

proof fn lemma_escape_bytes_concat(a: Seq<u8>, b: Seq<u8>)
    ensures
        escape_bytes(a + b) == escape_bytes(a) + escape_bytes(b),
    decreases b.len(),
{
    if b.len() == 0 {
        assert(a + b =~= a);
        assert(escape_bytes(a) + escape_bytes(b) =~= escape_bytes(a));
    } else {
        lemma_escape_bytes_concat(a, b.drop_last());
        assert((a + b).drop_last() =~= a + b.drop_last());
        assert((a + b).last() == b.last());
        assert(escape_bytes(a) + escape_bytes(b.drop_last()) + escape_default(b.last())
            =~= escape_bytes(a) + (escape_bytes(b.drop_last()) + escape_default(b.last())));
    }
}

proof fn lemma_hex_digit(v: int)
    requires
        0 <= v < 16,
    ensures
        hex_value(hex_digit(v)) == Some(v),
        32 <= hex_digit(v) as int <= 126,
{
}

proof fn lemma_escape_default(b: u8, r: Seq<char>)
    ensures
        literal_unit(escape_default(b) + r) == Some((b, escape_default(b).len() as int)),
        (escape_default(b) + r).skip(escape_default(b).len() as int) == r,
        0 < escape_default(b).len() <= 4,
        forall|i: int|
            0 <= i < escape_default(b).len() ==> 32 <= #[trigger] escape_default(b)[i] as int
                <= 126,
{
    let e = escape_default(b);
    let c = e + r;
    assert(c.skip(e.len() as int) =~= r);
    if !(b == 9 || b == 13 || b == 10 || b == 39 || b == 34 || b == 92 || 32 <= b <= 126) {
        lemma_hex_digit(b as int / 16);
        lemma_hex_digit(b as int % 16);
        assert(c[0] == '\\' && c[1] == 'x');
        assert(c[2] == hex_digit(b as int / 16));
        assert(c[3] == hex_digit(b as int % 16));
        assert(16 * (b as int / 16) + b as int % 16 == b as int);
    } else if 32 <= b <= 126 && !(b == 39 || b == 34 || b == 92) {
        assert(c[0] == b as char);
    } else {
        assert(c[0] == '\\');
    }
}

/// The body of the literal for `data` is printable ASCII and denotes
/// exactly the bytes of `data`.
proof fn lemma_escape_bytes_round_trip(data: Seq<u8>)
    ensures
        unescape(escape_bytes(data)) == Some(data),
        forall|i: int|
            0 <= i < escape_bytes(data).len() ==> 32 <= #[trigger] escape_bytes(data)[i] as int
                <= 126,
    decreases data.len(),
{
    if data.len() == 0 {
        assert(escape_bytes(data) =~= Seq::<char>::empty());
    } else {
        let b = data[0];
        let rest = data.skip(1);
        assert(data =~= seq![b] + rest);
        lemma_escape_bytes_concat(seq![b], rest);
        assert(seq![b].drop_last() =~= Seq::<u8>::empty());
        assert(escape_bytes(Seq::<u8>::empty()) == Seq::<char>::empty());
        assert(escape_bytes(seq![b]) == escape_bytes(seq![b].drop_last()) + escape_default(b));
        assert(escape_bytes(seq![b]) =~= escape_default(b));
        lemma_escape_bytes_round_trip(rest);
        let e = escape_default(b);
        let c = escape_bytes(data);
        assert(c == e + escape_bytes(rest));
        lemma_escape_default(b, escape_bytes(rest));
        assert(seq![b] + rest =~= data);
        assert forall|i: int| 0 <= i < c.len() implies 32 <= #[trigger] c[i] as int <= 126 by {
            if i < e.len() {
                assert(c[i] == e[i]);
            } else {
                assert(c[i] == escape_bytes(rest)[i - e.len()]);
            }
        }
    }
}

/// A byte string literal as `byte_string_literal` writes it is `b"`, a body
/// of printable ASCII, and `"`, and its body denotes exactly the bytes it
/// was made from.
pub proof fn law_byte_string_round_trip(data: Seq<u8>)
    ensures
        byte_string(data) == "b\""@ + escape_bytes(data) + "\""@,
        unescape(escape_bytes(data)) == Some(data),
        forall|i: int|
            0 <= i < escape_bytes(data).len() ==> 32 <= #[trigger] escape_bytes(data)[i] as int
                <= 126,
{
    lemma_escape_bytes_round_trip(data);
}

/// The entries of the `STATICS` array, one per url name.
pub open spec fn statics_parts(v: Seq<(Seq<char>, Seq<char>)>) -> Seq<Seq<char>> {
    Seq::new(v.len(), |i: int| "&"@ + v[i].1)
}

proof fn lemma_statics_list(v: Seq<(Seq<char>, Seq<char>)>)
    ensures
        statics_list(v) == crate::expression::join(statics_parts(v), ", "@),
    decreases v.len(),
{
    if v.len() > 1 {
        lemma_statics_list(v.drop_last());
        assert(statics_parts(v).drop_last() =~= statics_parts(v.drop_last()));
        assert(statics_parts(v).last() == "&"@ + v.last().1);
        assert(statics_list(v.drop_last()) + ", &"@ + v.last().1 =~= crate::expression::join(
            statics_parts(v.drop_last()),
            ", "@,
        ) + ", "@ + ("&"@ + v.last().1)) by {
            reveal_strlit(", &");
            reveal_strlit(", ");
            reveal_strlit("&");
        }
    } else if v.len() == 1 {
        assert(statics_parts(v)[0] == "&"@ + v[0].1);
    }
}

/// The `STATICS` array lists, one entry for each url name recorded in
/// `names_r`, the constant of that file; the url names are all different
/// and come in increasing order, and each is the one whose lookup gives
/// that constant.
pub proof fn law_footer_lists_each_once(names_r: Seq<(Seq<char>, Seq<char>)>)
    requires
        keys_sorted(names_r),
    ensures
        statics_footer(names_r) == "\npub static STATICS: &[&StaticFile] = &["@
            + crate::expression::join(statics_parts(names_r), ", "@) + "];\n"@,
        statics_parts(names_r).len() == names_r.len(),
        forall|i: int|
            0 <= i < names_r.len() ==> #[trigger] statics_parts(names_r)[i] == "&"@ + names_r[i].1
                && lookup_key(names_r, names_r[i].0) == Some(names_r[i].1),
        forall|i: int, j: int|
            0 <= i < j < names_r.len() ==> str_lt(#[trigger] names_r[i].0, #[trigger] names_r[j].0)
                && names_r[i].0 != names_r[j].0,
        forall|u: Seq<char>|
            #![trigger lookup_key(names_r, u)]
            lookup_key(names_r, u) is Some <==> exists|i: int|
                0 <= i < names_r.len() && (#[trigger] names_r[i]).0 == u,
{
    lemma_statics_list(names_r);
    assert forall|i: int| 0 <= i < names_r.len() implies lookup_key(names_r, names_r[i].0) == Some(
        names_r[i].1,
    ) by {
        lemma_lookup(names_r, names_r[i].0);
    }
    assert forall|i: int, j: int| 0 <= i < j < names_r.len() implies names_r[i].0 != names_r[j].0 by {
        lemma_str_lt_irreflexive(names_r[i].0);
    }
    assert forall|u: Seq<char>| lookup_key(names_r, u) is Some <==> exists|i: int|
        0 <= i < names_r.len() && (#[trigger] names_r[i]).0 == u by {
        lemma_lookup(names_r, u);
    }
}

} // verus!
