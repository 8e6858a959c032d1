use ructe::errors::{def_error, get_error, ErrorRegistry};
use ructe::ructe::{compile_template, submodule_entry, template_file_name, template_fn_name, template_mod_entry};
use ructe::staticfiles::{
    byte_string_literal, checksum_slug, mime_arg, mime_from_suffix, name_and_ext, prefix_digit, slug_of_digest,
    MimeSupport, StaticFiles,
};

#[test]
fn slug_is_base64_of_md5_prefix() {
    // md5("") = d41d8cd98f00b204e9800998ecf8427e
    assert_eq!(checksum_slug(b""), "1B2M2Y8A");
    assert_eq!(checksum_slug(b"abc").len(), 8);
    assert_eq!(slug_of_digest(&[0xfb, 0xff, 0xbf, 0, 1, 2, 9]), "-_-_AAEC");
}

#[test]
fn names_and_extensions() {
    assert_eq!(name_and_ext("static/style.css"), Some(("style", "css")));
    assert_eq!(name_and_ext("a/b/archive.tar.gz"), Some(("archive.tar", "gz")));
    assert_eq!(name_and_ext("img/logo.png/."), Some(("logo", "png")));
    assert_eq!(name_and_ext("dir/.hidden"), None);
    assert_eq!(name_and_ext("README"), None);
    assert_eq!(name_and_ext("x/.."), None);
    assert_eq!(name_and_ext("/"), None);
    assert_eq!(name_and_ext("snö.txt"), Some(("snö", "txt")));
}

#[test]
fn mime_types() {
    assert_eq!(mime_from_suffix("CSS"), "text/css");
    assert_eq!(mime_from_suffix("jpeg"), "image/jpeg");
    assert_eq!(mime_from_suffix("woff2"), "font/woff2");
    assert_eq!(mime_from_suffix("exe"), "application/octet-stream");
    assert_eq!(mime_arg(MimeSupport::NoMime, "png"), "");
    assert_eq!(mime_arg(MimeSupport::Mime02, "png"), "_mime: \"image/png\",\n");
    assert_eq!(mime_arg(MimeSupport::Mime03, "Js"), "mime: &mime::TEXT_JAVASCRIPT,\n");
}

#[test]
fn byte_strings() {
    assert_eq!(byte_string_literal(b"a\"b\\\n\t\r'\x00\xff~"), "b\"a\\\"b\\\\\\n\\t\\r\\'\\x00\\xff~\"");
    assert_eq!(byte_string_literal(b""), "b\"\"");
}

#[test]
fn statics_module() {
    let mut s = StaticFiles::new(MimeSupport::NoMime);
    assert!(s.source().starts_with("/// A static file has a name"));
    assert!(s.add_file_data("style.css", b""));
    assert!(!s.add_file_data("noext", b"x"));
    s.add_file_as("img/a-b.png", "img/a-b.png");
    assert!(s.source().contains(
        "\n/// From \"style.css\"\n#[allow(non_upper_case_globals)]\npub static style_css: StaticFile = StaticFile {\n  content: b\"\",\n  name: \"style-1B2M2Y8A.css\",\n};\n"
    ));
    assert!(s.source().contains("pub static img_a_b_png: StaticFile"));
    assert!(s.source().contains("content: include_bytes!(\"img/a-b.png\"),"));
    let names: Vec<(String, String)> = s.get_names().clone();
    assert_eq!(
        names,
        vec![
            ("img_a_b_png".to_string(), "img/a-b.png".to_string()),
            ("style_css".to_string(), "style-1B2M2Y8A.css".to_string()),
        ]
    );
    assert_eq!(
        s.statics_footer(),
        "\npub static STATICS: &[&StaticFile] = &[&img_a_b_png, &style_css];\n"
    );
    assert_eq!(s.static_name("style.css"), Ok("style-1B2M2Y8A.css".to_string()));
    assert_eq!(s.static_name("nope"), Err("Static file nope not found".to_string()));
}

#[test]
fn statics_sorted_by_url() {
    let mut s = StaticFiles::new(MimeSupport::Mime03);
    s.add_file_as("z.css", "b.css");
    s.add_file_as("y.css", "a.css");
    s.add_file_as("x.css", "c.css");
    s.add_file_as("w.css", "a.css");
    assert_eq!(s.statics_footer(), "\npub static STATICS: &[&StaticFile] = &[&a_css, &b_css, &c_css];\n");
    assert!(s.source().starts_with("extern crate mime;\nuse self::mime::Mime;\n\n"));
    assert!(s.source().contains("mime: &mime::TEXT_CSS,\n};\n"));
}

#[test]
fn template_names() {
    assert_eq!(template_fn_name("page.rs.html"), Some("page_html".to_string()));
    assert_eq!(template_fn_name("logo.rs.svg"), Some("logo_svg".to_string()));
    assert_eq!(template_fn_name("feed.rs.xml"), Some("feed_xml".to_string()));
    assert_eq!(template_fn_name("page.html"), None);
    assert_eq!(template_file_name("page_html"), "template_page_html.rs");
    assert_eq!(submodule_entry("admin"), "pub mod admin;\n\n");
    assert_eq!(
        template_mod_entry("page_html"),
        "#[doc(hidden)]\nmod template_page_html;\n#[doc(inline)]\npub use self::template_page_html::page_html;\n\n\
         #[doc(hidden)]\npub use self::template_page_html::page_html as page;\n\n"
    );
    assert_eq!(
        template_mod_entry("logo_svg"),
        "#[doc(hidden)]\nmod template_logo_svg;\n#[doc(inline)]\npub use self::template_logo_svg::logo_svg;\n\n"
    );
}

#[test]
fn compile_gives_code_or_error() {
    let code = compile_template("hello_html", b"@()\nHello").unwrap();
    assert!(code.contains("pub fn hello_html<W>("));
    assert!(code.contains("_ructe_out_.write_all(b\"Hello\")?;\n"));
    assert!(compile_template("bad", b"@(").is_err());
}

#[test]
fn registry_keeps_earlier_numbers() {
    let mut r = ErrorRegistry::new();
    let a = def_error(&mut r, "a");
    let _ = def_error(&mut r, "b");
    assert_eq!(get_error(&r, a), Some("a".to_string()));
}

#[test]
fn num_gets_prefixed() {
    let mut s = StaticFiles::new(MimeSupport::NoMime);
    assert!(s.add_file_data("17.css", b""));
    assert!(s.source().contains("pub static n17_css: StaticFile = StaticFile {\n  content: b\"\",\n  name: \"17-1B2M2Y8A.css\",\n};\n"));
    assert_eq!(
        s.get_names().clone(),
        vec![("n17_css".to_string(), "17-1B2M2Y8A.css".to_string())]
    );
    assert_eq!(s.static_name("17.css"), Ok("17-1B2M2Y8A.css".to_string()));
    assert_eq!(s.statics_footer(), "\npub static STATICS: &[&StaticFile] = &[&n17_css];\n");
    assert_eq!(prefix_digit("9lives".to_string()), "n9lives");
    assert_eq!(prefix_digit("style".to_string()), "style");
    assert_eq!(prefix_digit(String::new()), "");
}

#[test]
fn footer_lists_each_url_once_ascending() {
    let mut s = StaticFiles::new(MimeSupport::NoMime);
    s.add_file_as("c.css", "c.css");
    s.add_file_as("a.css", "a.css");
    s.add_file_as("b.css", "b.css");
    s.add_file_as("a.css", "a.css");
    assert_eq!(
        s.statics_footer(),
        "\npub static STATICS: &[&StaticFile] = &[&a_css, &b_css, &c_css];\n"
    );
}

#[test]
fn mime_ignores_case_of_ascii_suffixes() {
    assert_eq!(mime_from_suffix("PnG"), "image/png");
    assert_eq!(mime_from_suffix("WOFF2"), "font/woff2");
    assert_eq!(mime_arg(MimeSupport::Mime03, "JPEG"), "mime: &mime::IMAGE_JPEG,\n");
    assert_eq!(mime_arg(MimeSupport::Mime02, "Css"), "_mime: \"text/css\",\n");
}

#[test]
fn nested_url_names() {
    assert_eq!(ructe::staticfiles::nested_url_name("static", "a.css"), "static/a.css");
    assert_eq!(ructe::staticfiles::nested_url_name("", "x"), "/x");
}
