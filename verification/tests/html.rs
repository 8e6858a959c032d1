use ructe::templates::{Html, ToHtml, ToHtmlEscapingWriter};

#[test]
fn encoded() {
    let mut buf = Vec::new();
    "a < b\0\n".to_html(&mut buf);
    assert_eq!(b"a &lt; b\0\n", &buf[..]);

    let mut buf = Vec::new();
    "'b".to_html(&mut buf);
    assert_eq!(b"&#39;b", &buf[..]);

    let mut buf = Vec::new();
    "xxxxx>&".to_html(&mut buf);
    assert_eq!(b"xxxxx&gt;&amp;", &buf[..]);
}

#[test]
fn encoded_empty() {
    let mut buf = Vec::new();
    "".to_html(&mut buf);
    "".to_html(&mut buf);
    "".to_html(&mut buf);
    assert_eq!(b"", &buf[..]);
}

#[test]
fn double_encoded() {
    let mut buf = Vec::new();
    "&amp;".to_html(&mut buf);
    "&lt;".to_html(&mut buf);
    assert_eq!(b"&amp;amp;&amp;lt;", &buf[..]);
}

#[test]
fn encoded_only() {
    let mut buf = Vec::new();
    "&&&&&&&&&&&&&&&&".to_html(&mut buf);
    assert_eq!(
        b"&amp;&amp;&amp;&amp;&amp;&amp;&amp;&amp;&amp;&amp;&amp;&amp;&amp;&amp;&amp;&amp;" as &[u8],
        &buf[..]
    );

    let mut buf = Vec::new();
    "''''''''''''''".to_html(&mut buf);
    assert_eq!(
        b"&#39;&#39;&#39;&#39;&#39;&#39;&#39;&#39;&#39;&#39;&#39;&#39;&#39;&#39;" as &[u8],
        &buf[..]
    );
}

#[test]
fn raw_html() {
    let mut buf = Vec::new();
    Html("a<b>c</b>").to_html(&mut buf);
    assert_eq!(b"a<b>c</b>", &buf[..]);
}

#[test]
fn quotes_are_encoded() {
    let mut buf = Vec::new();
    String::from("say \"hi\"").to_html(&mut buf);
    assert_eq!(b"say &quot;hi&quot;", &buf[..]);
}

#[test]
fn to_buffer_holds_escaped_text() {
    let b = "a < b".to_buffer();
    assert_eq!(b.as_bytes(), b"a &lt; b");
    let mut out = Vec::new();
    b.to_html(&mut out);
    assert_eq!(&out[..], b"a &lt; b");
}

#[test]
fn non_ascii_passes_through() {
    let mut buf = Vec::new();
    "snö & is".to_html(&mut buf);
    assert_eq!(&buf[..], "snö &amp; is".as_bytes());
}

#[test]
fn writer_steps() {
    let mut w = ToHtmlEscapingWriter::new(Vec::new());
    assert_eq!(w.write(b"ab<c"), 2);
    assert_eq!(w.write(b"<c"), 1);
    assert_eq!(w.write(b""), 0);
    w.write_all(b"c>");
    assert_eq!(&w.into_inner()[..], b"ab&lt;c&gt;");
}

#[test]
fn one_byte_escaped() {
    let mut out = Vec::new();
    assert_eq!(ToHtmlEscapingWriter::write_one_byte_escaped(&mut out, b"\"x"), 1);
    assert_eq!(ToHtmlEscapingWriter::write_one_byte_escaped(&mut out, b""), 0);
    assert_eq!(ToHtmlEscapingWriter::write_one_byte_escaped(&mut out, b"'"), 1);
    assert_eq!(&out[..], b"&quot;&#39;");
}

#[test]
fn numbers_are_written_in_decimal() {
    let mut buf = Vec::new();
    17usize.to_html(&mut buf);
    0usize.to_html(&mut buf);
    assert_eq!(&buf[..], b"170");
    assert_eq!(1234567usize.to_buffer().as_bytes(), b"1234567");
}

fn html_of<T: ToHtml + ?Sized>(v: &T) -> String {
    let mut buf = Vec::new();
    v.to_html(&mut buf);
    String::from_utf8(buf).unwrap()
}

#[test]
fn integers_bools_and_chars() {
    assert_eq!(html_of(&0u8), "0");
    assert_eq!(html_of(&255u8), "255");
    assert_eq!(html_of(&65535u16), "65535");
    assert_eq!(html_of(&4294967295u32), "4294967295");
    assert_eq!(html_of(&u64::MAX), "18446744073709551615");
    assert_eq!(html_of(&17usize), "17");
    assert_eq!(html_of(&-128i8), "-128");
    assert_eq!(html_of(&-42i32), "-42");
    assert_eq!(html_of(&7i16), "7");
    assert_eq!(html_of(&i64::MIN), "-9223372036854775808");
    assert_eq!(html_of(&i64::MAX), "9223372036854775807");
    assert_eq!(html_of(&-1isize), "-1");
    assert_eq!(html_of(&true), "true");
    assert_eq!(html_of(&false), "false");
    assert_eq!(html_of(&'<'), "&lt;");
    assert_eq!(html_of(&'é'), "é");
}
