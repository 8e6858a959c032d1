//! What the generated `templates` module holds: which files are
//! templates, what each template function is called, and the module
//! declarations that tie them together.
use crate::parseresult::ParseError;
use crate::template::{rust_function, spec_template, template, TemplateModel};
use crate::parseresult::SpecVal;
use vstd::prelude::*;
use vstd::string::StrSliceExecFns;

verus! {

/// Whether `s` ends with `suffix`.
pub open spec fn ends_with(s: Seq<char>, suffix: Seq<char>) -> bool {
    suffix.len() <= s.len() && s.skip(s.len() - suffix.len()) == suffix
}

/// The name of the function that a template file compiles to: a file named
/// `page.rs.html` gives `page_html`, and likewise for `.rs.svg` and
/// `.rs.xml`; other files are no templates.
pub open spec fn spec_template_fn_name(file: Seq<char>) -> Option<Seq<char>> {
    if ends_with(file, ".rs.html"@) {
        Some(file.take(file.len() - 8) + "_html"@)
    } else if ends_with(file, ".rs.svg"@) {
        Some(file.take(file.len() - 7) + "_svg"@)
    } else if ends_with(file, ".rs.xml"@) {
        Some(file.take(file.len() - 7) + "_xml"@)
    } else {
        None
    }
}

/// Whether `s` ends with `suffix`.
fn str_ends_with(s: &str, suffix: &str) -> (r: bool)
    ensures
        r == ends_with(s@, suffix@),
{
    let cs = crate::template::chars_of(s);
    let ss = crate::template::chars_of(suffix);
    if ss.len() > cs.len() {
        return false;
    }
    let off = cs.len() - ss.len();
    let mut i: usize = 0;
    while i < ss.len()
        invariant
            i <= ss@.len(),
            off + ss@.len() == cs@.len() <= usize::MAX,
            cs@ == s@,
            ss@ == suffix@,
            forall|j: int| 0 <= j < i ==> cs@[off + j] == ss@[j],
        decreases ss@.len() - i,
    {
        if cs[off + i] != ss[i] {
            assert(cs@.skip(off as int)[i as int] != ss@[i as int]);
            return false;
        }
        i += 1;
    }
    assert(cs@.skip(off as int) =~= ss@);
    true
}

/// The first `n` characters of `s`, as a new string.
fn prefix_string(s: &str, n: usize) -> (r: String)
    requires
        n <= s@.len(),
    ensures
        r@ == s@.take(n as int),
{
    String::from_str(s.substring_char(0, n))
}

/// The name of the function that the template file `file` compiles to, if
/// it is a template.
pub fn template_fn_name(file: &str) -> (r: Option<String>)
    ensures
        r is Some <==> spec_template_fn_name(file@) is Some,
        r matches Some(n) ==> spec_template_fn_name(file@) == Some(n@),
{
    proof {
        reveal_strlit(".rs.html");
        reveal_strlit(".rs.svg");
        reveal_strlit(".rs.xml");
    }
    let n = file.unicode_len();
    if str_ends_with(file, ".rs.html") {
        let mut r = prefix_string(file, n - 8);
        r.append("_html");
        Some(r)
    } else if str_ends_with(file, ".rs.svg") {
        let mut r = prefix_string(file, n - 7);
        r.append("_svg");
        Some(r)
    } else if str_ends_with(file, ".rs.xml") {
        let mut r = prefix_string(file, n - 7);
        r.append("_xml");
        Some(r)
    } else {
        None
    }
}

/// The declarations in the `templates` module for the template function
/// `name`; a function of an HTML template is also known by its name
/// without `_html`, for backwards compatibility.
pub open spec fn template_entry(name: Seq<char>) -> Seq<char> {
    "#[doc(hidden)]\nmod template_"@ + name + ";\n#[doc(inline)]\npub use self::template_"@ + name
        + "::"@ + name + ";\n\n"@ + if ends_with(name, "_html"@) {
        "#[doc(hidden)]\npub use self::template_"@ + name + "::"@ + name + " as "@ + name.take(
            name.len() - 5,
        ) + ";\n\n"@
    } else {
        Seq::empty()
    }
}

/// The declarations in the `templates` module for the template function
/// `name`, with the alias of an HTML template.
pub fn template_mod_entry(name: &str) -> (r: String)
    ensures
        r@ == template_entry(name@),
{
    proof {
        reveal_strlit("_html");
    }
    let mut r = String::from_str("#[doc(hidden)]\nmod template_");
    r.append(name);
    r.append(";\n#[doc(inline)]\npub use self::template_");
    r.append(name);
    r.append("::");
    r.append(name);
    r.append(";\n\n");
    if str_ends_with(name, "_html") {
        r.append("#[doc(hidden)]\npub use self::template_");
        r.append(name);
        r.append("::");
        r.append(name);
        r.append(" as ");
        let n = name.unicode_len();
        let alias = prefix_string(name, n - 5);
        r.append(alias.as_str());
        r.append(";\n\n");
    } else {
        assert(r@ + Seq::<char>::empty() =~= r@);
    }
    r
}

/// The declaration of the sub-module for a directory of templates.
pub fn submodule_entry(dir: &str) -> (r: String)
    ensures
        r@ == "pub mod "@ + dir@ + ";\n\n"@,
{
    let mut r = String::from_str("pub mod ");
    r.append(dir);
    r.append(";\n\n");
    r
}

/// The file that holds the code of the template function `name`.
pub fn template_file_name(name: &str) -> (r: String)
    ensures
        r@ == "template_"@ + name@ + ".rs"@,
{
    let mut r = String::from_str("template_");
    r.append(name);
    r.append(".rs");
    r
}

/// Compiles the source of a template to the Rust function `name`, or
/// gives the parse error.
pub fn compile_template(name: &str, source: &[u8]) -> (r: Result<String, ParseError>)
    ensures
        r matches Ok(code) ==> spec_template(source@) matches SpecVal::Ok((_, m))
            && code@ == rust_function(m, name@),
        r matches Err(e) ==> spec_template(source@) == SpecVal::<TemplateModel>::Err(e.errors@),
{
    match template(source) {
        Ok((_, t)) => {
            let mut code = String::new();
            t.write_rust(&mut code, name);
            assert(code@ =~= rust_function(t@, name@));
            Ok(code)
        },
        Err(e) => Err(e),
    }
}

} // verus!
