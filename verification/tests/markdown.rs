//! The Markdown event transformer, against the real parser, renderer, and
//! highlighter.

use bakery::latex::{render_latex, AST};
use bakery::markdown::{transform_markdown, RenderError};

fn transform(text: &str) -> Result<String, RenderError> {
    transform_markdown(
        &text.to_string(),
        &"InspiredGitHub".to_string(),
        &Vec::new(),
    )
}

#[test]
fn sigiled_inline_code_becomes_inline_equation() {
    let html = transform("before `$N=1$` after\n").unwrap();
    let fragment = render_latex(vec![AST::InlineEq("N=1".to_string())], &Vec::new()).unwrap();
    assert!(html.contains(&fragment));
    assert!(html.contains("before"));
    assert!(html.contains("after"));
    assert!(!html.contains("<code>$N=1$</code>"));
}

#[test]
fn plain_inline_code_passes_through() {
    let html = transform("some `code span` here\n").unwrap();
    assert!(html.contains("<code>code span</code>"));
}

#[test]
fn dollar_only_code_is_not_an_equation() {
    // a single dollar sign is not wrapped in a leading and a trailing sigil
    let html = transform("a `$` b\n").unwrap();
    assert!(html.contains("<code>$</code>"));
}

#[test]
fn latex_fence_equals_block_equation() {
    let html = transform("```latex\nN=1\n```\n").unwrap();
    let fragment = render_latex(vec![AST::BlockEq("N=1\n".to_string())], &Vec::new()).unwrap();
    assert_eq!(fragment, html);
}

#[test]
fn unknown_fence_degrades_to_escaped_verbatim() {
    let html = transform("```nosuchlanguagezz\nfoo < bar & baz\n```\n").unwrap();
    assert_eq!("<pre><code>foo &lt; bar &amp; baz\n</code></pre>", html);
}

#[test]
fn known_fence_is_highlighted() {
    let html = transform("```rust\nlet x = 1;\n```\n").unwrap();
    assert!(html.starts_with("<pre style"));
    assert!(html.contains("let"));
}

#[test]
fn untagged_fence_passes_through() {
    let html = transform("```\nplain block\n```\n").unwrap();
    assert!(html.contains("<pre><code>plain block\n</code></pre>"));
}

#[test]
fn unknown_theme_fails_every_page() {
    let r = transform_markdown(
        &"no equations at all\n".to_string(),
        &"NoSuchThemeZZ".to_string(),
        &Vec::new(),
    );
    match r {
        Err(RenderError::Theme(name)) => assert_eq!("NoSuchThemeZZ", name),
        other => panic!("expected a theme error, got {:?}", other),
    }
}

#[test]
fn invalid_inline_equation_fails_the_page() {
    let r = transform("busted `$\\nosuchmacroxyz$` here\n");
    match r {
        Err(RenderError::Equation(src)) => assert_eq!("\\nosuchmacroxyz", src),
        other => panic!("expected an equation error, got {:?}", other),
    }
}

#[test]
fn invalid_latex_fence_fails_the_page() {
    let r = transform("```latex\n\\nosuchmacroxyz\n```\n");
    match r {
        Err(RenderError::Equation(src)) => assert_eq!("\\nosuchmacroxyz\n", src),
        other => panic!("expected an equation error, got {:?}", other),
    }
}

#[test]
fn untouched_documents_match_the_parser_exactly() {
    // no interception point fires here, so the rewritten stream must be
    // indistinguishable from the parser's own
    let text = "# Title\n\npara with *emphasis* and `code`\n\n- one\n- two\n\n> a quote\n\n```\nbare fence\n```\n";
    let ours = transform(text).unwrap();
    let mut reference = String::new();
    let parser = pulldown_cmark::Parser::new_ext(text, pulldown_cmark::Options::all());
    pulldown_cmark::html::push_html(&mut reference, parser);
    assert_eq!(reference, ours);
}

#[test]
fn surroundings_keep_their_order() {
    let html = transform("alpha\n\n```latex\nN=1\n```\n\nomega\n").unwrap();
    let a = html.find("alpha").unwrap();
    let eq = html.find("katex").unwrap();
    let o = html.find("omega").unwrap();
    assert!(a < eq && eq < o);
}
