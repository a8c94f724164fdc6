use xml_fmt::handle_ncurly_perl::{chunk3, chunk4, multiple_lines, single_line};
use xml_fmt::pattern::Pattern;
use xml_fmt::xml_fmt::{body, comments};

#[test]
fn multiple_lines_puts_each_statement_after_tabs() {
    let perl = "a;b;c".to_string();
    let mut temp = String::new();
    let (out, tab) = multiple_lines(&perl, &mut temp, 1);
    assert_eq!(out, "\ta;\tb;\t");
    assert_eq!(temp, out);
    assert_eq!(tab, 1);
}

#[test]
fn multiple_lines_appends_to_existing_text() {
    let perl = "x=1;".to_string();
    let mut temp = "T".to_string();
    let (out, tab) = multiple_lines(&perl, &mut temp, 0);
    assert_eq!(out, "Tx=1");
    assert_eq!(tab, 0);
}

#[test]
fn multiple_lines_on_empty_input_drops_a_character() {
    let perl = String::new();
    let mut temp = "ab".to_string();
    let (out, _) = multiple_lines(&perl, &mut temp, 0);
    assert_eq!(out, "a");
    let mut empty = String::new();
    let (out2, _) = multiple_lines(&perl, &mut empty, 0);
    assert_eq!(out2, "");
}

#[test]
fn chunk3_wraps_code_ending_its_line() {
    let mut xml = "X".to_string();
    let (out, tab) = chunk3(&mut xml, 2, &"p\n".to_string());
    assert_eq!(out, "X\t\t<![CDATA[p\n\t\t]]>\n");
    assert_eq!(xml, out);
    assert_eq!(tab, 2);
}

#[test]
fn chunk4_adds_a_line_break() {
    let mut xml = "X".to_string();
    let (out, tab) = chunk4(&mut xml, 2, &"p".to_string());
    assert_eq!(out, "X\t\t<![CDATA[p\n\t\t]]>\n");
    assert_eq!(tab, 2);
}

#[test]
fn single_line_indents_inner_line_breaks() {
    let mut xml = String::new();
    let (out, tab) = single_line(&mut xml, 1, &"a\nb".to_string());
    assert_eq!(out, "\t<![CDATA[a\n\tb]]>\n");
    assert_eq!(tab, 1);
}

#[test]
fn inline_adds_line_breaks_at_both_ends() {
    let tab_nl = Pattern::new("\\t\\n").unwrap();
    let mut xml = String::new();
    let (out, tab) = xml_fmt::handle_ncurly_perl::inline(&mut xml, 1, &"a\nb".to_string(), &tab_nl);
    assert_eq!(out, "\t<![CDATA[\n\ta\n\tb\n\t]]>\n");
    assert_eq!(tab, 1);
}

#[test]
fn inline_keeps_existing_line_breaks() {
    let tab_nl = Pattern::new("\\t\\n").unwrap();
    let mut xml = String::new();
    // "\na\n" becomes "\n\ta\n\t": it starts with a line break, and the
    // byte two from the end is one too.
    let (out, _) = xml_fmt::handle_ncurly_perl::inline(&mut xml, 1, &"\na\n".to_string(), &tab_nl);
    assert_eq!(out, "\t<![CDATA[\n\ta\n\t\t]]>\n");
}

#[test]
fn comments_closes_with_gt_and_dashes() {
    let pat = Pattern::new(r#"<!--[\s\S]+[^-][^-]"#).unwrap();
    let mut xml = String::new();
    let (line, tab, out) = comments("<!-- a\nb <c".to_string(), &pat, 1, &mut xml);
    assert_eq!(line, "<!-- a\n\tb <c");
    assert_eq!(tab, 1);
    assert_eq!(out, "\t<!-- a\n\tb <c> -->");
    assert_eq!(xml, out);
}

#[test]
fn body_closes_with_dashes() {
    let pat = Pattern::new(r#"<!--[\s\S]+[^-][^-]"#).unwrap();
    let mut xml = "A".to_string();
    let (_, _, out) = body("<!-- x --".to_string(), &pat, 0, &mut xml);
    assert_eq!(out, "A<!-- x -->");
}
