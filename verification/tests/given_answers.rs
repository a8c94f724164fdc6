use xml_fmt::cdata::{cdata_code, close_block, walk};
use xml_fmt::element::{attr_piece, element_end, special_layout};
use xml_fmt::formatter::Fault;
use xml_fmt::handle_ncurly_perl::{fold_tabs, inline_layout, reindent};
use xml_fmt::pattern::Pattern;
use xml_fmt::text::replace;
use xml_fmt::xml_fmt::comment_layout;

#[test]
fn reindent_indents_and_drops_tab_before_break() {
    assert_eq!(reindent("a\nb", 2), "a\n\t\tb");
    // "a\t\nb" -> "a\t\n\tb" -> "a\n\tb"
    assert_eq!(reindent("a\t\nb", 1), "a\n\tb");
}

#[test]
fn fold_tabs_follows_the_match_answer() {
    // at depth 2 the wide indentation is "\t" + "\n\t\t"
    assert_eq!(fold_tabs("x\t\n\t\ty", 2, true), "x\t\ty");
    assert_eq!(fold_tabs("x\t\n\t\ty", 2, false), "x\t\n\t\ty");
}

#[test]
fn inline_layout_branches() {
    let mut a = String::new();
    inline_layout(&mut a, 1, &"\nab\n\t".to_string());
    assert_eq!(a, "\t<![CDATA[\nab\n\t\t]]>\n");
    let mut b = String::new();
    inline_layout(&mut b, 1, &"\nabc".to_string());
    assert_eq!(b, "\t<![CDATA[\t\nabc\n\t]]>\n");
    let mut c = String::new();
    inline_layout(&mut c, 1, &"ab\n\t".to_string());
    assert_eq!(c, "\t<![CDATA[\n\tab\n\t]]>\n");
    let mut d = String::new();
    inline_layout(&mut d, 1, &"abc".to_string());
    assert_eq!(d, "\t<![CDATA[\n\tabc\n\t]]>\n");
}

#[test]
fn comment_layout_uses_the_span() {
    let mut xml = "X".to_string();
    comment_layout(&mut xml, 1, "ab<!-- c", (2, 8), "-->");
    assert_eq!(xml, "X\t<!-- c-->");
}

#[test]
fn close_block_goes_one_level_up() {
    let mut xml = String::new();
    assert!(matches!(close_block(&mut xml, &"a;\n\t".to_string(), 2), Ok(1)));
    assert_eq!(xml, "\t<![CDATA[a;\n\t\t]]>\n");
    let mut xml2 = String::new();
    assert!(matches!(close_block(&mut xml2, &"a;".to_string(), 1), Ok(0)));
    assert_eq!(xml2, "<![CDATA[a;\n]]>\n");
    let mut xml3 = String::new();
    assert!(matches!(close_block(&mut xml3, &"a".to_string(), 0), Err(Fault::Underflow)));
    assert!(matches!(close_block(&mut xml3, &"a".to_string(), 3), Err(Fault::Underflow)));
}

#[test]
fn cdata_code_takes_the_inner_text() {
    assert_eq!(cdata_code("<![CDATA[a\n b]]", 9, 13).unwrap(), "a\nb");
    assert!(matches!(cdata_code("<![CDATA[x]]", 10, 2), Err(Fault::BadSlice)));
}

#[test]
fn walk_given_matches() {
    // "if (x) { y; }": spaces at 2, 6, 8, 11; '{' at 7; ';' at 10; '}' at 12
    let ms = vec![(2, 3), (6, 7), (7, 8), (8, 9), (10, 11), (11, 12), (12, 13)];
    let (t, d) = walk("if (x) { y; }", &ms, 1).unwrap();
    assert_eq!(t, "if (x) \n\t{ y;\n}");
    assert_eq!(d, 1);
    assert!(matches!(walk("}", &vec![(0, 1)], 0), Err(Fault::Underflow)));
}

#[test]
fn attr_piece_given_classification() {
    let mut out = String::new();
    let dec = attr_piece(&mut out, false, 1, " b =", true, false, "");
    assert!(dec);
    assert_eq!(out, "\tb=");
    let dec = attr_piece(&mut out, dec, 1, "x  y", false, true, "x y");
    assert!(!dec);
    assert_eq!(out, "\tb=\"x y\"\n");
    let dec = attr_piece(&mut out, dec, 1, "", false, false, "");
    assert_eq!(out, "\tb=\"x y\"");
    let mut out2 = "\tc=".to_string();
    let dec2 = attr_piece(&mut out2, true, 1, "", false, false, "");
    assert!(dec2);
    assert_eq!(out2, "\tc=\"\"\n");
    assert!(!dec);
}

#[test]
fn special_layout_given_span() {
    let mut xml = String::new();
    special_layout(&mut xml, 1, "text <a", Some((0, 6))).unwrap();
    assert_eq!(xml, "\ttext \n");
    assert!(matches!(special_layout(&mut xml, 1, "x", None), Err(Fault::NoMatch)));
    assert!(matches!(special_layout(&mut xml, 1, "x", Some((0, 0))), Err(Fault::Underflow)));
}

#[test]
fn element_end_given_answers() {
    let (t, d, w) = element_end("<a\n".to_string(), 1, "<a/", true, None);
    assert_eq!((t.as_str(), d, w), ("<a\n/>\n", 0, None));
    let (t, d, w) = element_end(String::new(), 0, "</a", false, Some("</a".to_string()));
    assert_eq!((t.as_str(), d, w), ("</a>\n", 0, Some("tab mult issue".to_string())));
    let (t, d, w) = element_end("<a\n".to_string(), 1, "<a", false, None);
    assert_eq!((t.as_str(), d, w), ("<a\n\t>\n", 1, None));
    let (t, d, _) = element_end(String::new(), 2, "", false, None);
    assert_eq!((t.as_str(), d), ("", 2));
}

#[test]
fn replace_with_an_empty_pattern() {
    assert_eq!(replace("ab", "", "-"), "-a-b-");
    assert_eq!(replace("", "", "-"), "-");
}

#[test]
fn inline_trailing_line_break_changes_nothing() {
    let tab_nl = Pattern::new("\\t\\n").unwrap();
    let mut x1 = "X".to_string();
    let mut x2 = "X".to_string();
    let a = xml_fmt::handle_ncurly_perl::inline(&mut x1, 1, &"print x".to_string(), &tab_nl);
    let b = xml_fmt::handle_ncurly_perl::inline(&mut x2, 1, &"print x\n".to_string(), &tab_nl);
    assert_eq!(x1, x2);
    assert_eq!(a, b);
}
