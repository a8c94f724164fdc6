use xml_fmt::document::{chunks, format_bytes};
use xml_fmt::formatter::{Fault, FmtState, Patterns};

fn run(input: &str) -> (String, Vec<String>, Option<Fault>) {
    let p = Patterns::new().unwrap();
    let o = format_bytes(&p, input.as_bytes());
    (o.output, o.warnings, o.fault)
}

#[test]
fn self_closing_element_with_attribute() {
    let (out, w, f) = run("<a b=\"1\"/>");
    assert!(f.is_none());
    assert!(w.is_empty());
    assert_eq!(out, "<a\n\tb=\"1\"\n/>\n");
}

#[test]
fn nested_elements_are_indented() {
    let (out, w, f) = run("<root>\n<child/>\n</root>\n");
    assert!(f.is_none());
    assert!(w.is_empty());
    assert_eq!(out, "<root\n\t>\n\t<child\n\t/>\n\t</root>\n");
}

#[test]
fn xml_declaration_is_copied() {
    let (out, _, f) = run("<?xml version=\"1.0\"?>\n<a/>");
    assert!(f.is_none());
    assert_eq!(out, "<?xml version=\"1.0\"?>\n<a\n/>\n");
}

#[test]
fn self_closing_at_depth_zero_warns() {
    let (out, w, f) = run("/>");
    assert!(f.is_none());
    assert_eq!(out, "/>\n");
    assert_eq!(w, vec!["tab mult issue: /".to_string()]);
}

#[test]
fn closing_tag_at_depth_zero_warns() {
    let (out, w, f) = run("</a>");
    assert!(f.is_none());
    assert_eq!(out, "</a>\n");
    assert_eq!(w, vec!["tab mult issue".to_string()]);
}

#[test]
fn comment_is_kept() {
    let (out, _, f) = run("<!-- hello world -->");
    assert!(f.is_none());
    assert_eq!(out, "<!-- hello world -->");
}

#[test]
fn cdata_statements_are_laid_out() {
    let (out, _, f) = run("<![CDATA[print \"hi\";]]>");
    assert!(f.is_none());
    assert_eq!(out, "<![CDATA[\tprint \"hi\";\n]]>\n");
}

#[test]
fn cdata_braces_are_laid_out() {
    let (out, _, f) = run("<![CDATA[if (x) { y; }]]>");
    assert!(f.is_none());
    assert_eq!(out, "<![CDATA[if (x) \n\t{ y;\n}\n]]>\n");
}

#[test]
fn cdata_on_one_line() {
    let (out, _, f) = run("<![CDATA[hello]]>");
    assert!(f.is_none());
    assert_eq!(out, "<![CDATA[hello]]>\n");
}

#[test]
fn cdata_holding_a_gt_spans_pieces() {
    let (out, _, f) = run("<![CDATA[a > b;]]>");
    assert!(f.is_none());
    assert_eq!(out, "<![CDATA[\ta > b;\n]]>\n");
}

#[test]
fn inline_cdata_inside_an_element() {
    let (out, _, f) = run("<r><![CDATA[a\nb]]></r>");
    assert!(f.is_none());
    assert_eq!(out, "<r\n\t>\n\t<![CDATA[\n\ta\n\tb\n\t]]>\n\t</r>\n");
}

#[test]
fn inline_cdata_at_depth_zero_faults() {
    let (out, _, f) = run("<![CDATA[a\nb]]>");
    assert!(matches!(f, Some(Fault::Underflow)));
    assert_eq!(out, "");
}

#[test]
fn invalid_utf8_faults() {
    let p = Patterns::new().unwrap();
    let o = format_bytes(&p, &[b'<', b'a', b'>', 0xff, b'>']);
    assert!(matches!(o.fault, Some(Fault::BadUtf8)));
}

#[test]
fn chunks_follow_bufread_split() {
    assert_eq!(chunks(b""), Vec::<Vec<u8>>::new());
    assert_eq!(chunks(b"a>b"), vec![b"a".to_vec(), b"b".to_vec()]);
    assert_eq!(chunks(b"a>"), vec![b"a".to_vec()]);
    assert_eq!(chunks(b"a>>"), vec![b"a".to_vec(), Vec::new()]);
    assert_eq!(chunks(b">"), vec![Vec::new()]);
}

#[test]
fn chunks_rejoin_to_the_input() {
    for input in [&b"<a>x</a>"[..], &b"<a>x</a"[..], &b""[..], &b">>"[..]] {
        let cs = chunks(input);
        let mut joined = cs.join(&b'>');
        if input.last() == Some(&b'>') {
            joined.push(b'>');
        }
        assert_eq!(joined, input.to_vec());
        assert!(cs.iter().all(|c| !c.contains(&b'>')));
    }
}

#[test]
fn output_only_grows_step_by_step() {
    let p = Patterns::new().unwrap();
    let mut st = FmtState::new();
    let mut seen = String::new();
    for piece in ["<root", "\n<child a=\"1\"/", "\n</root", "<!-- c --"] {
        st.step(&p, piece).unwrap();
        assert!(st.xml_out.starts_with(&seen));
        seen = st.xml_out.clone();
    }
}

#[test]
fn buffer_is_empty_outside_cdata() {
    let p = Patterns::new().unwrap();
    let mut st = FmtState::new();
    for piece in ["<a", "<![CDATA[x ", " y;]]", "</a"] {
        st.step(&p, piece).unwrap();
        if !st.in_cdata {
            assert!(st.perl_code.is_empty());
        }
    }
    assert!(!st.in_cdata);
}

#[test]
fn prefix_of_the_input_gives_prefix_of_the_output() {
    let p = Patterns::new().unwrap();
    let full = format_bytes(&p, b"<root>\n<child/>\n</root>\n");
    let part = format_bytes(&p, b"<root>\n<child/>");
    assert!(full.output.starts_with(&part.output));
}

#[test]
fn attribute_white_space_is_squeezed() {
    let (out, _, f) = run("<a b=\"x \n y\"/>");
    assert!(f.is_none());
    assert_eq!(out, "<a\n\tb=\"x y\"\n/>\n");
}

#[test]
fn cdata_end_before_start_faults() {
    let (_, _, f) = run("]]<![CDATA[x>");
    assert!(matches!(f, Some(Fault::BadSlice)));
}

#[test]
fn empty_inline_cdata_faults() {
    let (_, _, f) = run("<r><![CDATA[]]>");
    assert!(matches!(f, Some(Fault::ByteIndex)));
}

#[test]
fn open_section_without_start_faults() {
    let p = Patterns::new().unwrap();
    let mut st = FmtState::new();
    st.in_cdata = true;
    assert!(matches!(st.step(&p, "x]]"), Err(Fault::NoMatch)));
}

#[test]
fn depth_past_the_largest_value_faults() {
    let p = Patterns::new().unwrap();
    let mut st = FmtState::new();
    st.tab_mult = usize::MAX;
    assert!(matches!(st.step(&p, "<a"), Err(Fault::Overflow)));
}
