//! Streaming rewrite of a page's Markdown event stream.
//!
//! The external Markdown parser yields a linear event sequence.  The
//! transformer intercepts exactly three event categories — inline code
//! wrapped in equation sigils, fenced code blocks with a language tag, and
//! text inside such a fence — and forwards every other event unchanged, in
//! its original position.  Intercepted equations go to the equation
//! renderer, tagged code goes to the syntax highlighter, and unknown tags
//! degrade to an escaped verbatim block.

use vstd::prelude::*;

verus! {

use crate::latex::{katex_out, katex_render, macros_view};

/// One Markdown event, classified as the transformer sees it.
#[derive(Clone, Debug, PartialEq)]
pub enum MdEvent {
    /// An inline code span, with its text.
    Code(String),
    /// A fenced code block opens, with its (possibly empty) language tag.
    FenceStart(String),
    /// A fenced code block closes.
    FenceEnd,
    /// A text run.
    Text(String),
    /// Any other event; forwarded untouched.
    Other,
}

/// Mathematical model of one classified event.
pub enum MdEventView {
    Code(Seq<char>),
    FenceStart(Seq<char>),
    FenceEnd,
    Text(Seq<char>),
    Other,
}

impl View for MdEvent {
    type V = MdEventView;

    open spec fn view(&self) -> MdEventView {
        match self {
            MdEvent::Code(s) => MdEventView::Code(s@),
            MdEvent::FenceStart(s) => MdEventView::FenceStart(s@),
            MdEvent::FenceEnd => MdEventView::FenceEnd,
            MdEvent::Text(s) => MdEventView::Text(s@),
            MdEvent::Other => MdEventView::Other,
        }
    }
}

impl DeepView for MdEvent {
    type V = MdEventView;

    open spec fn deep_view(&self) -> MdEventView {
        self.view()
    }
}

/// One instruction for rebuilding the rewritten event stream.
#[derive(Clone, Debug, PartialEq)]
pub enum OutEvent {
    /// Emit the event at this position of the original stream, unchanged.
    Forward(usize),
    /// Emit this HTML fragment in its place.
    Html(String),
}

/// Mathematical model of one rebuild instruction.
pub enum OutEventView {
    Forward(int),
    Html(Seq<char>),
}

impl View for OutEvent {
    type V = OutEventView;

    open spec fn view(&self) -> OutEventView {
        match self {
            OutEvent::Forward(i) => OutEventView::Forward(*i as int),
            OutEvent::Html(s) => OutEventView::Html(s@),
        }
    }
}

impl DeepView for OutEvent {
    type V = OutEventView;

    open spec fn deep_view(&self) -> OutEventView {
        self.view()
    }
}

/// Why a page's transformation failed.  Every failure is page-fatal.
#[derive(Clone, Debug, PartialEq)]
pub enum RenderError {
    /// Malformed equation source (the offending snippet).
    Equation(String),
    /// The configured syntax theme is unknown (its name).
    Theme(String),
    /// The highlighter failed on a fenced block (its language tag).
    Highlight(String),
}

/// Mathematical model of a transformation failure.
pub enum RenderErrorView {
    Equation(Seq<char>),
    Theme(Seq<char>),
    Highlight(Seq<char>),
}

impl View for RenderError {
    type V = RenderErrorView;

    open spec fn view(&self) -> RenderErrorView {
        match self {
            RenderError::Equation(s) => RenderErrorView::Equation(s@),
            RenderError::Theme(s) => RenderErrorView::Theme(s@),
            RenderError::Highlight(s) => RenderErrorView::Highlight(s@),
        }
    }
}

impl DeepView for RenderError {
    type V = RenderErrorView;

    open spec fn deep_view(&self) -> RenderErrorView {
        self.view()
    }
}

// ---------------------------------------------------------------------------
// The external collaborators, named.
// ---------------------------------------------------------------------------

/// The event stream that the external Markdown parser produces for a page's
/// text, classified event by event, in document order.
pub uninterp spec fn md_events(text: Seq<char>) -> Seq<MdEventView>;

/// The HTML that serializing the rewritten event stream produces, as a
/// function of the page's text and the rebuild instructions.
pub uninterp spec fn rendered_html(text: Seq<char>, actions: Seq<OutEventView>) -> Seq<char>;

/// Whether the bundled theme set knows a theme of this name.
pub uninterp spec fn known_theme(name: Seq<char>) -> bool;

/// Whether the bundled syntax set has a grammar for this language tag.
pub uninterp spec fn known_syntax(tag: Seq<char>) -> bool;

/// What the syntax highlighter returns for a code block: highlighted HTML,
/// or `None` on failure.  A function of the code, the tag, and the theme
/// name alone.
pub uninterp spec fn highlight_out(code: Seq<char>, tag: Seq<char>, theme: Seq<char>) -> Option<
    Seq<char>,
>;

/// Relies on `pulldown_cmark::Parser`: it yields the page's event stream in
/// one forward pass, in document order; each event is classified here, one
/// match arm per intercepted shape.
#[verifier::external_body]
fn classify_markdown(text: &String) -> (r: Vec<MdEvent>)
    ensures
        r.deep_view() == md_events(text@),
{
    pulldown_cmark::Parser::new_ext(text, pulldown_cmark::Options::all()).map(
        |ev| match ev {
            pulldown_cmark::Event::Code(s) => MdEvent::Code(s.to_string()),
            pulldown_cmark::Event::Start(
                pulldown_cmark::Tag::CodeBlock(pulldown_cmark::CodeBlockKind::Fenced(k)),
            ) => MdEvent::FenceStart(k.to_string()),
            pulldown_cmark::Event::End(
                pulldown_cmark::Tag::CodeBlock(pulldown_cmark::CodeBlockKind::Fenced(_)),
            ) => MdEvent::FenceEnd,
            pulldown_cmark::Event::Text(s) => MdEvent::Text(s.to_string()),
            _ => MdEvent::Other,
        },
    ).collect()
}

/// Relies on `pulldown_cmark::Parser` (deterministic, forward-only) and
/// `pulldown_cmark::html::push_html`: the page is parsed again, each
/// `Forward` instruction emits the original event at that position, each
/// `Html` instruction emits its fragment, and the rebuilt stream is
/// serialized to HTML.
#[verifier::external_body]
fn emit_html(text: &String, actions: &Vec<OutEvent>) -> (r: String)
    requires
        forall|j: int|
            0 <= j < actions.deep_view().len() && actions.deep_view()[j] is Forward
                ==> 0 <= actions.deep_view()[j]->Forward_0 < md_events(text@).len(),
    ensures
        r@ == rendered_html(text@, actions.deep_view()),
{
    let evs: Vec<pulldown_cmark::Event> =
        pulldown_cmark::Parser::new_ext(text, pulldown_cmark::Options::all()).collect();
    let rebuilt = actions.iter().map(|a: &OutEvent| match a {
        OutEvent::Forward(i) => evs[*i].clone(),
        OutEvent::Html(h) => pulldown_cmark::Event::Html(h.clone().into()),
    });
    let mut html = String::new();
    pulldown_cmark::html::push_html(&mut html, rebuilt);
    html
}

/// Relies on `syntect::highlighting::ThemeSet::load_defaults`: whether a
/// theme name is known is a fixed property of the bundled theme table.
#[verifier::external_body]
pub(crate) fn theme_known(name: &str) -> (b: bool)
    ensures
        b == known_theme(name@),
{
    syntect::highlighting::ThemeSet::load_defaults().themes.contains_key(name)
}

/// Relies on `syntect::parsing::SyntaxSet::find_syntax_by_token` over the
/// bundled newline-style syntax set: whether a language tag has a grammar
/// is a fixed property of the tag.
#[verifier::external_body]
fn syntax_known(tag: &str) -> (b: bool)
    ensures
        b == known_syntax(tag@),
{
    syntect::parsing::SyntaxSet::load_defaults_newlines().find_syntax_by_token(tag).is_some()
}

/// Relies on `syntect::html::highlighted_html_for_string` with the bundled
/// syntax and theme sets: the output depends only on the code, the language
/// tag, and the theme name.  The two lookups cannot fail, as the caller has
/// checked both names.
#[verifier::external_body]
fn highlight_code(code: &str, tag: &str, theme: &str) -> (r: Option<String>)
    requires
        known_syntax(tag@),
        known_theme(theme@),
    ensures
        r is Some <==> highlight_out(code@, tag@, theme@) is Some,
        r matches Some(h) ==> highlight_out(code@, tag@, theme@) matches Some(v) && h@ == v,
{
    let ss = syntect::parsing::SyntaxSet::load_defaults_newlines();
    let syntax = ss.find_syntax_by_token(tag).unwrap();
    let ts = syntect::highlighting::ThemeSet::load_defaults();
    let th = ts.themes.get(theme).unwrap();
    syntect::html::highlighted_html_for_string(code, &ss, syntax, th).ok()
}

// ---------------------------------------------------------------------------
// The rewrite, modeled.
// ---------------------------------------------------------------------------

/// The reserved language tag that routes a fenced block to the equation
/// renderer in display mode.
pub open spec fn latex_tag() -> Seq<char> {
    "latex"@
}

/// The fragments wrapped around a fenced block whose tag nobody knows.
pub open spec fn pre_open() -> Seq<char> {
    "<pre><code>"@
}

pub open spec fn pre_close() -> Seq<char> {
    "</code></pre>"@
}

/// Inline code text wrapped in a single leading and trailing equation
/// sigil.
pub open spec fn is_sigiled(s: Seq<char>) -> bool {
    s.len() >= 2 && s[0] == '$' && s[s.len() - 1] == '$'
}

/// What one event contributes to the rewritten stream, and the fence state
/// after it: the transformer's whole decision table.
pub open spec fn step_emit(
    ev: MdEventView,
    i: int,
    fence: Option<Seq<char>>,
    theme: Seq<char>,
    macros: Seq<(Seq<char>, Seq<char>)>,
) -> Result<(Seq<OutEventView>, Option<Seq<char>>), RenderErrorView> {
    match ev {
        MdEventView::Code(s) => if is_sigiled(s) {
            let src = s.subrange(1, s.len() - 1);
            match katex_out(src, false, macros) {
                Some(h) => Ok((seq![OutEventView::Html(h)], fence)),
                None => Err(RenderErrorView::Equation(src)),
            }
        } else {
            Ok((seq![OutEventView::Forward(i)], fence))
        },
        MdEventView::FenceStart(tag) => if tag.len() == 0 {
            Ok((seq![OutEventView::Forward(i)], fence))
        } else {
            Ok((Seq::empty(), Some(tag)))
        },
        MdEventView::FenceEnd => match fence {
            None => Ok((seq![OutEventView::Forward(i)], None)),
            Some(_) => Ok((Seq::empty(), None)),
        },
        MdEventView::Text(s) => match fence {
            None => Ok((seq![OutEventView::Forward(i)], None)),
            Some(tag) => if tag == latex_tag() {
                match katex_out(s, true, macros) {
                    Some(h) => Ok((seq![OutEventView::Html(h)], Some(tag))),
                    None => Err(RenderErrorView::Equation(s)),
                }
            } else if known_syntax(tag) {
                match highlight_out(s, tag, theme) {
                    Some(h) => Ok((seq![OutEventView::Html(h)], Some(tag))),
                    None => Err(RenderErrorView::Highlight(tag)),
                }
            } else {
                Ok(
                    (
                        seq![
                            OutEventView::Html(pre_open()),
                            OutEventView::Forward(i),
                            OutEventView::Html(pre_close()),
                        ],
                        Some(tag),
                    ),
                )
            },
        },
        MdEventView::Other => Ok((seq![OutEventView::Forward(i)], fence)),
    }
}

/// The rewrite of the event stream from position `i` on, in fence state
/// `fence`: the concatenation of what each event contributes, or the first
/// failure.
pub open spec fn rewrite_from(
    evs: Seq<MdEventView>,
    i: int,
    fence: Option<Seq<char>>,
    theme: Seq<char>,
    macros: Seq<(Seq<char>, Seq<char>)>,
) -> Result<Seq<OutEventView>, RenderErrorView>
    decreases evs.len() - i,
{
    if i < 0 || i >= evs.len() {
        Ok(Seq::empty())
    } else {
        match step_emit(evs[i], i, fence, theme, macros) {
            Ok(pr) => match rewrite_from(evs, i + 1, pr.1, theme, macros) {
                Ok(tl) => Ok(pr.0 + tl),
                Err(e) => Err(e),
            },
            Err(e) => Err(e),
        }
    }
}

/// The whole transformation of one page: an unknown theme fails first;
/// otherwise the parser's event stream is rewritten from the start, outside
/// any fence.
pub open spec fn spec_transform(
    text: Seq<char>,
    theme: Seq<char>,
    macros: Seq<(Seq<char>, Seq<char>)>,
) -> Result<Seq<OutEventView>, RenderErrorView> {
    if !known_theme(theme) {
        Err(RenderErrorView::Theme(theme))
    } else {
        rewrite_from(md_events(text), 0, None, theme, macros)
    }
}

// ---------------------------------------------------------------------------
// The rewrite, executed.
// ---------------------------------------------------------------------------

fn has_sigils(s: &String) -> (b: bool)
    ensures
        b == is_sigiled(s@),
{
    let n = s.as_str().unicode_len();
    if n >= 2 {
        s.as_str().get_char(0) == '$' && s.as_str().get_char(n - 1) == '$'
    } else {
        false
    }
}

fn is_latex_tag(t: &String) -> (b: bool)
    ensures
        b == (t@ == latex_tag()),
{
    let l = String::from_str("latex");
    t.eq(&l)
}

/// One step of the rewrite loop: if the event at `i` contributed `em` and
/// moved the fence state to `f2`, the continuation claim carries from
/// position `i + 1` back to position `i`.
proof fn lemma_rewrite_step(
    evs: Seq<MdEventView>,
    theme: Seq<char>,
    m: Seq<(Seq<char>, Seq<char>)>,
    i: int,
    f: Option<Seq<char>>,
    before: Seq<OutEventView>,
    em: Seq<OutEventView>,
    f2: Option<Seq<char>>,
    after: Seq<OutEventView>,
)
    requires
        0 <= i < evs.len(),
        step_emit(evs[i], i, f, theme, m) == Ok::<_, RenderErrorView>((em, f2)),
        after == before + em,
        (rewrite_from(evs, i, f, theme, m) matches Ok(tl) ==> rewrite_from(evs, 0, None, theme, m)
            == Ok::<_, RenderErrorView>(before + tl)),
        (rewrite_from(evs, i, f, theme, m) matches Err(e) ==> rewrite_from(evs, 0, None, theme, m)
            == Err::<Seq<OutEventView>, _>(e)),
    ensures
        (rewrite_from(evs, i + 1, f2, theme, m) matches Ok(tl) ==> rewrite_from(
            evs,
            0,
            None,
            theme,
            m,
        ) == Ok::<_, RenderErrorView>(after + tl)),
        (rewrite_from(evs, i + 1, f2, theme, m) matches Err(e) ==> rewrite_from(
            evs,
            0,
            None,
            theme,
            m,
        ) == Err::<Seq<OutEventView>, _>(e)),
{
    match rewrite_from(evs, i + 1, f2, theme, m) {
        Ok(tl) => {
            assert(rewrite_from(evs, i, f, theme, m) == Ok::<_, RenderErrorView>(em + tl));
            assert(before + (em + tl) =~= after + tl);
        },
        Err(_) => {},
    }
}

/// A failing step fails the whole rewrite with that error.
proof fn lemma_rewrite_step_err(
    evs: Seq<MdEventView>,
    theme: Seq<char>,
    m: Seq<(Seq<char>, Seq<char>)>,
    i: int,
    f: Option<Seq<char>>,
    before: Seq<OutEventView>,
    e: RenderErrorView,
)
    requires
        0 <= i < evs.len(),
        step_emit(evs[i], i, f, theme, m) == Err::<(Seq<OutEventView>, Option<Seq<char>>), _>(e),
        (rewrite_from(evs, i, f, theme, m) matches Ok(tl) ==> rewrite_from(evs, 0, None, theme, m)
            == Ok::<_, RenderErrorView>(before + tl)),
        (rewrite_from(evs, i, f, theme, m) matches Err(e0) ==> rewrite_from(evs, 0, None, theme, m)
            == Err::<Seq<OutEventView>, _>(e0)),
    ensures
        rewrite_from(evs, 0, None, theme, m) == Err::<Seq<OutEventView>, _>(e),
{
}

/// Rewrite a classified event stream into rebuild instructions, or fail
/// with the first error, exactly as `rewrite_from` says.
fn rewrite_events(events: &Vec<MdEvent>, theme: &String, macros: &Vec<(String, String)>) -> (r:
    Result<Vec<OutEvent>, RenderError>)
    requires
        known_theme(theme@),
    ensures
        r matches Ok(v) ==> rewrite_from(
            events.deep_view(),
            0,
            None,
            theme@,
            macros_view(macros@),
        ) matches Ok(out) && v.deep_view() == out,
        r matches Err(e) ==> rewrite_from(
            events.deep_view(),
            0,
            None,
            theme@,
            macros_view(macros@),
        ) matches Err(ev) && e.deep_view() == ev,
{
    let ghost evs = events.deep_view();
    let ghost m = macros_view(macros@);
    let mut out: Vec<OutEvent> = Vec::new();
    let mut fence: Option<String> = None;
    let mut i: usize = 0;
    proof {
        match rewrite_from(evs, 0, None, theme@, m) {
            Ok(tl) => {
                assert(out.deep_view() + tl =~= tl);
            },
            Err(_) => {},
        }
    }
    while i < events.len()
        invariant
            i <= events.len(),
            evs == events.deep_view(),
            m == macros_view(macros@),
            known_theme(theme@),
            (rewrite_from(evs, i as int, fence.deep_view(), theme@, m) matches Ok(tl)
                ==> rewrite_from(evs, 0, None, theme@, m) == Ok::<_, RenderErrorView>(
                out.deep_view() + tl,
            )),
            (rewrite_from(evs, i as int, fence.deep_view(), theme@, m) matches Err(e)
                ==> rewrite_from(evs, 0, None, theme@, m) == Err::<Seq<OutEventView>, _>(e)),
        decreases events.len() - i,
    {
        let ghost i0 = i as int;
        let ghost f0 = fence.deep_view();
        let ghost before = out.deep_view();
        let ev = &events[i];
        proof {
            assert(evs[i0] == ev.deep_view());
        }
        match ev {
            MdEvent::Code(s) => {
                if has_sigils(s) {
                    let n = s.as_str().unicode_len();
                    let src = s.as_str().substring_char(1, n - 1);
                    match katex_render(src, false, macros) {
                        Some(h) => {
                            let ghost em = seq![OutEventView::Html(h@)];
                            out.push(OutEvent::Html(h));
                            proof {
                                assert(out.deep_view() =~= before + em);
                                lemma_rewrite_step(
                                    evs,
                                    theme@,
                                    m,
                                    i0,
                                    f0,
                                    before,
                                    em,
                                    f0,
                                    out.deep_view(),
                                );
                            }
                        },
                        None => {
                            proof {
                                lemma_rewrite_step_err(
                                    evs,
                                    theme@,
                                    m,
                                    i0,
                                    f0,
                                    before,
                                    RenderErrorView::Equation(src@),
                                );
                            }
                            return Err(RenderError::Equation(String::from_str(src)));
                        },
                    }
                } else {
                    let ghost em = seq![OutEventView::Forward(i0)];
                    out.push(OutEvent::Forward(i));
                    proof {
                        assert(out.deep_view() =~= before + em);
                        lemma_rewrite_step(evs, theme@, m, i0, f0, before, em, f0, out.deep_view());
                    }
                }
            },
            MdEvent::FenceStart(tag) => {
                if tag.as_str().is_empty() {
                    let ghost em = seq![OutEventView::Forward(i0)];
                    out.push(OutEvent::Forward(i));
                    proof {
                        assert(out.deep_view() =~= before + em);
                        lemma_rewrite_step(evs, theme@, m, i0, f0, before, em, f0, out.deep_view());
                    }
                } else {
                    let t = tag.clone();
                    fence = Some(t);
                    proof {
                        assert(out.deep_view() =~= before + Seq::<OutEventView>::empty());
                        lemma_rewrite_step(
                            evs,
                            theme@,
                            m,
                            i0,
                            f0,
                            before,
                            Seq::empty(),
                            fence.deep_view(),
                            out.deep_view(),
                        );
                    }
                }
            },
            MdEvent::FenceEnd => {
                match &fence {
                    None => {
                        let ghost em = seq![OutEventView::Forward(i0)];
                        out.push(OutEvent::Forward(i));
                        proof {
                            assert(out.deep_view() =~= before + em);
                            lemma_rewrite_step(
                                evs,
                                theme@,
                                m,
                                i0,
                                f0,
                                before,
                                em,
                                None,
                                out.deep_view(),
                            );
                        }
                    },
                    Some(_) => {
                        fence = None;
                        proof {
                            assert(out.deep_view() =~= before + Seq::<OutEventView>::empty());
                            lemma_rewrite_step(
                                evs,
                                theme@,
                                m,
                                i0,
                                f0,
                                before,
                                Seq::empty(),
                                None,
                                out.deep_view(),
                            );
                        }
                    },
                }
            },
            MdEvent::Text(s) => {
                match &fence {
                    None => {
                        let ghost em = seq![OutEventView::Forward(i0)];
                        out.push(OutEvent::Forward(i));
                        proof {
                            assert(out.deep_view() =~= before + em);
                            lemma_rewrite_step(
                                evs,
                                theme@,
                                m,
                                i0,
                                f0,
                                before,
                                em,
                                None,
                                out.deep_view(),
                            );
                        }
                    },
                    Some(tag) => {
                        if is_latex_tag(tag) {
                            match katex_render(s.as_str(), true, macros) {
                                Some(h) => {
                                    let ghost em = seq![OutEventView::Html(h@)];
                                    out.push(OutEvent::Html(h));
                                    proof {
                                        assert(out.deep_view() =~= before + em);
                                        lemma_rewrite_step(
                                            evs,
                                            theme@,
                                            m,
                                            i0,
                                            f0,
                                            before,
                                            em,
                                            f0,
                                            out.deep_view(),
                                        );
                                    }
                                },
                                None => {
                                    proof {
                                        lemma_rewrite_step_err(
                                            evs,
                                            theme@,
                                            m,
                                            i0,
                                            f0,
                                            before,
                                            RenderErrorView::Equation(s@),
                                        );
                                    }
                                    return Err(RenderError::Equation(s.clone()));
                                },
                            }
                        } else if syntax_known(tag.as_str()) {
                            match highlight_code(s.as_str(), tag.as_str(), theme.as_str()) {
                                Some(h) => {
                                    let ghost em = seq![OutEventView::Html(h@)];
                                    out.push(OutEvent::Html(h));
                                    proof {
                                        assert(out.deep_view() =~= before + em);
                                        lemma_rewrite_step(
                                            evs,
                                            theme@,
                                            m,
                                            i0,
                                            f0,
                                            before,
                                            em,
                                            f0,
                                            out.deep_view(),
                                        );
                                    }
                                },
                                None => {
                                    proof {
                                        lemma_rewrite_step_err(
                                            evs,
                                            theme@,
                                            m,
                                            i0,
                                            f0,
                                            before,
                                            RenderErrorView::Highlight(tag@),
                                        );
                                    }
                                    return Err(RenderError::Highlight(tag.clone()));
                                },
                            }
                        } else {
                            let ghost em = seq![
                                OutEventView::Html(pre_open()),
                                OutEventView::Forward(i0),
                                OutEventView::Html(pre_close()),
                            ];
                            out.push(OutEvent::Html(String::from_str("<pre><code>")));
                            out.push(OutEvent::Forward(i));
                            out.push(OutEvent::Html(String::from_str("</code></pre>")));
                            proof {
                                assert(out.deep_view() =~= before + em);
                                lemma_rewrite_step(
                                    evs,
                                    theme@,
                                    m,
                                    i0,
                                    f0,
                                    before,
                                    em,
                                    f0,
                                    out.deep_view(),
                                );
                            }
                        }
                    },
                }
            },
            MdEvent::Other => {
                let ghost em = seq![OutEventView::Forward(i0)];
                out.push(OutEvent::Forward(i));
                proof {
                    assert(out.deep_view() =~= before + em);
                    lemma_rewrite_step(evs, theme@, m, i0, f0, before, em, f0, out.deep_view());
                }
            },
        }
        i = i + 1;
    }
    proof {
        assert(out.deep_view() + Seq::<OutEventView>::empty() =~= out.deep_view());
    }
    Ok(out)
}

/// Transform one page's Markdown text to HTML: parse it, rewrite the event
/// stream at the three interception points, and serialize the result.  An
/// unknown theme, a malformed equation, or a highlighter failure aborts the
/// whole page with that error.
pub fn transform_markdown(text: &String, theme: &String, macros: &Vec<(String, String)>) -> (r:
    Result<String, RenderError>)
    ensures
        r matches Ok(h) ==> spec_transform(text@, theme@, macros_view(macros@)) matches Ok(out)
            && h@ == rendered_html(text@, out),
        r matches Err(e) ==> spec_transform(text@, theme@, macros_view(macros@)) matches Err(ev)
            && e.deep_view() == ev,
{
    if !theme_known(theme.as_str()) {
        return Err(RenderError::Theme(theme.clone()));
    }
    let events = classify_markdown(text);
    match rewrite_events(&events, theme, macros) {
        Ok(actions) => {
            proof {
                lemma_rewrite_order(events.deep_view(), 0, None, theme@, macros_view(macros@));
            }
            let html = emit_html(text, &actions);
            Ok(html)
        },
        Err(e) => Err(e),
    }
}

// ---------------------------------------------------------------------------
// The rewrite's laws.
// ---------------------------------------------------------------------------

/// Events outside the interception points keep their original relative
/// order: in a successful rewrite the forwarded positions are strictly
/// increasing, stay inside the input, and every non-intercepted event of
/// the input is forwarded.
pub proof fn lemma_rewrite_order(
    evs: Seq<MdEventView>,
    i: int,
    fence: Option<Seq<char>>,
    theme: Seq<char>,
    m: Seq<(Seq<char>, Seq<char>)>,
)
    requires
        0 <= i,
    ensures
        rewrite_from(evs, i, fence, theme, m) matches Ok(out) ==> {
            &&& forall|a: int, b: int|
                0 <= a < b < out.len() && out[a] is Forward && out[b] is Forward
                    ==> out[a]->Forward_0 < out[b]->Forward_0
            &&& forall|a: int|
                0 <= a < out.len() && out[a] is Forward ==> i <= out[a]->Forward_0 < evs.len()
            &&& forall|j: int|
                i <= j < evs.len() && evs[j] is Other ==> exists|a: int|
                    0 <= a < out.len() && out[a] == OutEventView::Forward(j)
        },
    decreases evs.len() - i,
{
    if i >= evs.len() {
    } else {
        match step_emit(evs[i], i, fence, theme, m) {
            Ok(pr) => {
                let em = pr.0;
                let f2 = pr.1;
                lemma_rewrite_order(evs, i + 1, f2, theme, m);
                match rewrite_from(evs, i + 1, f2, theme, m) {
                    Ok(tl) => {
                        let out = em + tl;
                        assert(rewrite_from(evs, i, fence, theme, m) == Ok::<
                            _,
                            RenderErrorView,
                        >(out));
                        assert(forall|a: int|
                            0 <= a < em.len() && em[a] is Forward ==> em[a]->Forward_0 == i);
                        assert forall|a: int, b: int|
                            0 <= a < b < out.len() && out[a] is Forward && out[b]
                                is Forward implies out[a]->Forward_0 < out[b]->Forward_0 by {
                            if b < em.len() {
                                // no shape of `em` holds two forwarded events
                                assert(false);
                            } else if a < em.len() {
                                assert(out[b] == tl[b - em.len()]);
                            } else {
                                assert(out[a] == tl[a - em.len()]);
                                assert(out[b] == tl[b - em.len()]);
                            }
                        }
                        assert forall|a: int|
                            0 <= a < out.len() && out[a] is Forward implies i <= out[a]->Forward_0
                            < evs.len() by {
                            if a >= em.len() {
                                assert(out[a] == tl[a - em.len()]);
                            }
                        }
                        assert forall|j: int|
                            i <= j < evs.len() && evs[j] is Other implies exists|a: int|
                                0 <= a < out.len() && out[a] == OutEventView::Forward(j) by {
                            if j == i {
                                assert(out[0] == OutEventView::Forward(i));
                            } else {
                                let a0 = choose|a: int|
                                    0 <= a < tl.len() && tl[a] == OutEventView::Forward(j);
                                assert(out[em.len() + a0] == tl[a0]);
                            }
                        }
                    },
                    Err(_) => {},
                }
            },
            Err(_) => {},
        }
    }
}

/// A fenced block carrying the reserved equation tag renders to the very
/// HTML fragment that a block equation span with the same source renders
/// to, and fails exactly when that span fails.
pub proof fn lemma_fence_matches_block_span(
    src: Seq<char>,
    theme: Seq<char>,
    m: Seq<(Seq<char>, Seq<char>)>,
)
    ensures
        ({
            let evs = seq![
                MdEventView::FenceStart(latex_tag()),
                MdEventView::Text(src),
                MdEventView::FenceEnd,
            ];
            let spans = seq![crate::latex::SpanView::BlockEq(src)];
            match katex_out(src, true, m) {
                Some(h) => rewrite_from(evs, 0, None, theme, m) == Ok::<_, RenderErrorView>(
                    seq![OutEventView::Html(h)],
                ) && crate::latex::spec_render_latex(spans, m) == Ok::<_, Seq<char>>(h),
                None => rewrite_from(evs, 0, None, theme, m) == Err::<Seq<OutEventView>, _>(
                    RenderErrorView::Equation(src),
                ) && crate::latex::spec_render_latex(spans, m) == Err::<Seq<char>, _>(src),
            }
        }),
{
    let evs = seq![
        MdEventView::FenceStart(latex_tag()),
        MdEventView::Text(src),
        MdEventView::FenceEnd,
    ];
    let spans = seq![crate::latex::SpanView::BlockEq(src)];
    reveal_with_fuel(rewrite_from, 5);
    assert(latex_tag().len() == 5) by {
        reveal_strlit("latex");
    }
    match katex_out(src, true, m) {
        Some(h) => {
            assert(rewrite_from(evs, 3, None, theme, m) == Ok::<_, RenderErrorView>(
                Seq::<OutEventView>::empty(),
            ));
            assert(rewrite_from(evs, 2, Some(latex_tag()), theme, m) == Ok::<
                _,
                RenderErrorView,
            >(Seq::<OutEventView>::empty() + Seq::<OutEventView>::empty()));
            assert(Seq::<OutEventView>::empty() + Seq::<OutEventView>::empty()
                =~= Seq::<OutEventView>::empty());
            assert(rewrite_from(evs, 1, Some(latex_tag()), theme, m) == Ok::<
                _,
                RenderErrorView,
            >(seq![OutEventView::Html(h)] + Seq::<OutEventView>::empty()));
            assert(seq![OutEventView::Html(h)] + Seq::<OutEventView>::empty()
                =~= seq![OutEventView::Html(h)]);
            assert(rewrite_from(evs, 0, None, theme, m) == Ok::<_, RenderErrorView>(
                Seq::<OutEventView>::empty() + seq![OutEventView::Html(h)],
            ));
            assert(Seq::<OutEventView>::empty() + seq![OutEventView::Html(h)]
                =~= seq![OutEventView::Html(h)]);
            assert(spans.drop_first() =~= Seq::<crate::latex::SpanView>::empty());
            assert(crate::latex::spec_render_latex(spans.drop_first(), m) == Ok::<_, Seq<char>>(
                Seq::<char>::empty(),
            ));
            assert(h + Seq::<char>::empty() =~= h);
        },
        None => {
            assert(rewrite_from(evs, 1, Some(latex_tag()), theme, m) == Err::<
                Seq<OutEventView>,
                _,
            >(RenderErrorView::Equation(src)));
        },
    }
}

/// A fenced block with an unrecognized tag degrades to an HTML-escaped
/// verbatim block: the opening wrapper, the exact original text event, and
/// the closing wrapper, and nothing ever fails on such a tag.
pub proof fn lemma_unknown_fence_verbatim(
    tag: Seq<char>,
    src: Seq<char>,
    theme: Seq<char>,
    m: Seq<(Seq<char>, Seq<char>)>,
)
    requires
        tag.len() > 0,
        tag != latex_tag(),
        !known_syntax(tag),
    ensures
        rewrite_from(
            seq![MdEventView::FenceStart(tag), MdEventView::Text(src), MdEventView::FenceEnd],
            0,
            None,
            theme,
            m,
        ) == Ok::<_, RenderErrorView>(
            seq![
                OutEventView::Html(pre_open()),
                OutEventView::Forward(1),
                OutEventView::Html(pre_close()),
            ],
        ),
{
    let evs = seq![MdEventView::FenceStart(tag), MdEventView::Text(src), MdEventView::FenceEnd];
    let emitted = seq![
        OutEventView::Html(pre_open()),
        OutEventView::Forward(1),
        OutEventView::Html(pre_close()),
    ];
    reveal_with_fuel(rewrite_from, 5);
    assert(rewrite_from(evs, 3, None, theme, m) == Ok::<_, RenderErrorView>(
        Seq::<OutEventView>::empty(),
    ));
    assert(rewrite_from(evs, 2, Some(tag), theme, m) == Ok::<_, RenderErrorView>(
        Seq::<OutEventView>::empty() + Seq::<OutEventView>::empty(),
    ));
    assert(Seq::<OutEventView>::empty() + Seq::<OutEventView>::empty()
        =~= Seq::<OutEventView>::empty());
    assert(rewrite_from(evs, 1, Some(tag), theme, m) == Ok::<_, RenderErrorView>(
        emitted + Seq::<OutEventView>::empty(),
    ));
    assert(emitted + Seq::<OutEventView>::empty() =~= emitted);
    assert(rewrite_from(evs, 0, None, theme, m) == Ok::<_, RenderErrorView>(
        Seq::<OutEventView>::empty() + emitted,
    ));
    assert(Seq::<OutEventView>::empty() + emitted =~= emitted);
}

} // verus!
