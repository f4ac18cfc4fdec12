//! The LaTeX extractor and renderer, exercised end to end.

use bakery::latex::{parse_block_equation, parse_inline_equation, parse_latex, parse_text, render_latex, AST};

#[test]
fn regular_text() {
    assert_eq!(
        Ok(("$$".to_string(), AST::Literal("one two three ".to_string()))),
        parse_text("one two three $$")
    );

    assert_eq!(
        Ok((r#"\\("#.to_string(), AST::Literal("one two three ".to_string()))),
        parse_text(r#"one two three \\("#)
    );

    assert_eq!(
        Ok(("".to_string(), AST::Literal("one two three".to_string()))),
        parse_text("one two three")
    );

    assert_eq!(Ok(("".to_string(), AST::Literal("".to_string()))), parse_text(""));
}

#[test]
fn inline_equation() {
    assert_eq!(
        Ok(("".to_string(), AST::InlineEq("one two three".to_string()))),
        parse_inline_equation(r#"\\(one two three\\)"#)
    );

    assert!(parse_inline_equation("goof troop").is_err());
}

#[test]
fn block_equation() {
    assert_eq!(
        Ok(("".to_string(), AST::BlockEq("one two three".to_string()))),
        parse_block_equation("$$one two three$$")
    );
}

#[test]
fn mixed_content() {
    assert!(parse_latex(r#"one two $$ three"#).is_err());

    assert_eq!(
        vec![AST::Literal("one two three".to_string())],
        parse_latex(r#"one two three"#).unwrap()
    );

    assert_eq!(
        vec![
            AST::Literal("one two ".to_string()),
            AST::BlockEq("N=1".to_string()),
            AST::Literal(" three".to_string()),
        ],
        parse_latex(r#"one two $$N=1$$ three"#).unwrap()
    );

    assert_eq!(
        vec![
            AST::Literal("one two ".to_string()),
            AST::InlineEq("N=1".to_string()),
            AST::Literal(" three".to_string()),
        ],
        parse_latex(r#"one two \\(N=1\\) three"#).unwrap()
    );
}

#[test]
fn html() {
    let html = render_latex(
        vec![
            AST::Literal("one ".to_string()),
            AST::InlineEq("N".to_string()),
            AST::Literal(" ".to_string()),
            AST::BlockEq("\\sigma".to_string()),
            AST::Literal(" two".to_string()),
        ],
        &Vec::new(),
    )
    .expect("error rendering LaTeX");

    assert_eq!(
        r#"one <span class="katex"><span class="katex-mathml"><math xmlns="http://www.w3.org/1998/Math/MathML"><semantics><mrow><mi>N</mi></mrow><annotation encoding="application/x-tex">N</annotation></semantics></math></span><span class="katex-html" aria-hidden="true"><span class="base"><span class="strut" style="height:0.6833em;"></span><span class="mord mathnormal" style="margin-right:0.10903em;">N</span></span></span></span> <span class="katex-display"><span class="katex"><span class="katex-mathml"><math xmlns="http://www.w3.org/1998/Math/MathML" display="block"><semantics><mrow><mi>σ</mi></mrow><annotation encoding="application/x-tex">\sigma</annotation></semantics></math></span><span class="katex-html" aria-hidden="true"><span class="base"><span class="strut" style="height:0.4306em;"></span><span class="mord mathnormal" style="margin-right:0.03588em;">σ</span></span></span></span></span> two"#,
        html
    )
}

#[test]
fn empty_input_parses_to_nothing() {
    assert_eq!(Vec::<AST>::new(), parse_latex("").unwrap());
}

#[test]
fn unmatched_inline_open_fails() {
    let err = parse_latex(r#"one \\(N=1 two"#).unwrap_err();
    assert_eq!(r#"\\(N=1 two"#, err.remainder);
}

#[test]
fn unmatched_block_open_carries_remainder() {
    let err = parse_latex("one two $$ three").unwrap_err();
    assert_eq!("$$ three", err.remainder);
}

#[test]
fn adjacent_and_stray_markers() {
    // an empty block equation, back to back with text
    assert_eq!(
        vec![AST::BlockEq("".to_string()), AST::Literal("x".to_string())],
        parse_latex("$$$$x").unwrap()
    );
    // a stray dollar after a closed block stays literal
    assert_eq!(
        vec![AST::BlockEq("a".to_string()), AST::Literal("$".to_string())],
        parse_latex("$$a$$$").unwrap()
    );
    // three dollars alone: an open marker without a close
    assert!(parse_latex("$$$").is_err());
}

#[test]
fn roundtrip_reconstruction() {
    let input = r#"intro $$E=mc^2$$ middle \\(a+b\\) outro"#;
    let spans = parse_latex(input).unwrap();
    let mut rebuilt = String::new();
    for span in spans {
        match span {
            AST::Literal(t) => rebuilt.push_str(&t),
            AST::InlineEq(t) => {
                rebuilt.push_str(r#"\\("#);
                rebuilt.push_str(&t);
                rebuilt.push_str(r#"\\)"#);
            }
            AST::BlockEq(t) => {
                rebuilt.push_str("$$");
                rebuilt.push_str(&t);
                rebuilt.push_str("$$");
            }
        }
    }
    assert_eq!(input, rebuilt);
}

#[test]
fn inline_and_display_markup_differ() {
    let inline = render_latex(vec![AST::InlineEq("N=1".to_string())], &Vec::new()).unwrap();
    let display = render_latex(vec![AST::BlockEq("N=1".to_string())], &Vec::new()).unwrap();
    assert_ne!(inline, display);
    assert!(display.contains("katex-display"));
    assert!(!inline.contains("katex-display"));
}

#[test]
fn invalid_equation_names_its_source() {
    let err = render_latex(
        vec![
            AST::Literal("fine ".to_string()),
            AST::InlineEq("\\nosuchmacroxyz".to_string()),
        ],
        &Vec::new(),
    )
    .unwrap_err();
    assert_eq!("\\nosuchmacroxyz", err.source);
}

#[test]
fn macros_expand_in_equations() {
    let plain = render_latex(vec![AST::InlineEq("\\RR".to_string())], &Vec::new());
    assert!(plain.is_err());
    let with_macro = render_latex(
        vec![AST::InlineEq("\\RR".to_string())],
        &vec![("\\RR".to_string(), "\\mathbb{R}".to_string())],
    );
    assert!(with_macro.is_ok());
}
