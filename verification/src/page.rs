//! Pages: loading them from raw file text, and rendering their content.
//!
//! A page is one unit of content.  It is constructed once per source file
//! from the file's front matter and body, mutated exactly once by the
//! content-rendering stage (raw Markdown to HTML), and read-only
//! thereafter.  A malformed front-matter file fails the whole load, naming
//! that file; the content stage is all-or-nothing.

use vstd::prelude::*;

verus! {

use crate::latex::macros_view;
use crate::markdown::{
    spec_transform,
    rendered_html,
    transform_markdown,
    known_theme,
    RenderError,
    RenderErrorView,
};

/// One unit of content.
#[derive(Debug, PartialEq)]
pub struct Page {
    pub title: String,
    pub description: String,
    /// Template name used by the HTML-rendering stage.
    pub template: String,
    /// Optional publish date, RFC 3339, validated at load time.
    pub date: Option<String>,
    pub draft: bool,
    pub excerpt: Option<String>,
    /// Slug inferred from the source file path, extension stripped.
    pub name: String,
    /// Raw Markdown on load; rendered HTML after the content stage.
    pub content: String,
}

/// Mathematical model of one page.
pub struct PageView {
    pub title: Seq<char>,
    pub description: Seq<char>,
    pub template: Seq<char>,
    pub date: Option<Seq<char>>,
    pub draft: bool,
    pub excerpt: Option<Seq<char>>,
    pub name: Seq<char>,
    pub content: Seq<char>,
}

impl View for Page {
    type V = PageView;

    open spec fn view(&self) -> PageView {
        PageView {
            title: self.title@,
            description: self.description@,
            template: self.template@,
            date: self.date.deep_view(),
            draft: self.draft,
            excerpt: self.excerpt.deep_view(),
            name: self.name@,
            content: self.content@,
        }
    }
}

impl DeepView for Page {
    type V = PageView;

    open spec fn deep_view(&self) -> PageView {
        self.view()
    }
}

/// Missing or unparseable page metadata; carries the offending file's path.
#[derive(Clone, Debug, PartialEq)]
pub struct FrontMatterError {
    pub path: String,
}

/// What the front-matter loader yields for one file: the typed metadata
/// record, the remaining body text, and an optional excerpt.
#[derive(Clone, Debug, PartialEq)]
pub struct FrontMatter {
    pub title: String,
    pub description: String,
    pub template: String,
    pub date: Option<String>,
    pub draft: bool,
    pub content: String,
    pub excerpt: Option<String>,
}

/// Mathematical model of a front-matter record.
pub struct FrontMatterView {
    pub title: Seq<char>,
    pub description: Seq<char>,
    pub template: Seq<char>,
    pub date: Option<Seq<char>>,
    pub draft: bool,
    pub content: Seq<char>,
    pub excerpt: Option<Seq<char>>,
}

impl View for FrontMatter {
    type V = FrontMatterView;

    open spec fn view(&self) -> FrontMatterView {
        FrontMatterView {
            title: self.title@,
            description: self.description@,
            template: self.template@,
            date: self.date.deep_view(),
            draft: self.draft,
            content: self.content@,
            excerpt: self.excerpt.deep_view(),
        }
    }
}

impl DeepView for FrontMatter {
    type V = FrontMatterView;

    open spec fn deep_view(&self) -> FrontMatterView {
        self.view()
    }
}

/// What the front-matter loader produces from raw file text: `None` when
/// the front matter is missing or malformed, a function of the text alone.
pub uninterp spec fn fm_parse(text: Seq<char>) -> Option<FrontMatterView>;

/// Relies on gray_matter's TOML front-matter splitting (`Matter::parse`)
/// and field access on the parsed table: `title`, `description` and
/// `template` must be present strings, `date` is an optional string,
/// `draft` an optional boolean defaulting to false; the body and excerpt
/// come from the split.  The result is a function of the file text alone.
#[verifier::external_body]
fn front_matter(text: &String) -> (r: Option<FrontMatter>)
    ensures
        r.deep_view() == fm_parse(text@),
{
    let parsed = gray_matter::Matter::<gray_matter::engine::TOML>::new().parse(text);
    let table = parsed.data?.as_hashmap().ok()?;
    let title = table.get("title")?.as_string().ok()?;
    let description = table.get("description")?.as_string().ok()?;
    let template = table.get("template")?.as_string().ok()?;
    let date = match table.get("date") {
        Some(v) => Some(v.as_string().ok()?),
        None => None,
    };
    let draft = match table.get("draft") {
        Some(v) => v.as_bool().ok()?,
        None => false,
    };
    Some(FrontMatter { title, description, template, date, draft, content: parsed.content, excerpt: parsed.excerpt })
}

/// The publish-date strings the pipeline accepts.
pub uninterp spec fn date_ok(s: Seq<char>) -> bool;

/// Relies on `chrono::DateTime::parse_from_rfc3339`: acceptance is a
/// function of the string alone.
#[verifier::external_body]
pub(crate) fn date_valid(s: &str) -> (b: bool)
    ensures
        b == date_ok(s@),
{
    chrono::DateTime::parse_from_rfc3339(s).is_ok()
}

// ---------------------------------------------------------------------------
// Slug inference.
// ---------------------------------------------------------------------------

/// The largest position of `c` in `s`, if it occurs.
pub open spec fn last_index_of(s: Seq<char>, c: char) -> Option<int>
    decreases s.len(),
{
    if s.len() == 0 {
        None
    } else if s[s.len() - 1] == c {
        Some(s.len() - 1)
    } else {
        last_index_of(s.take(s.len() - 1), c)
    }
}

/// The page slug of a relative source path: the path with its final
/// extension removed.  An extension is what follows the last `.` of the
/// file name, when that `.` is not the file name's first character.
pub open spec fn spec_strip_extension(p: Seq<char>) -> Seq<char> {
    let start = match last_index_of(p, '/') {
        Some(i) => i + 1,
        None => 0,
    };
    match last_index_of(p, '.') {
        Some(d) => if d > start {
            p.take(d)
        } else {
            p
        },
        None => p,
    }
}

proof fn lemma_last_index_char(s: Seq<char>, c: char, k: int)
    requires
        0 <= k < s.len(),
        s[k] == c,
        forall|j: int| k < j < s.len() ==> s[j] != c,
    ensures
        last_index_of(s, c) == Some(k),
    decreases s.len(),
{
    if k == s.len() - 1 {
    } else {
        let pre = s.take(s.len() - 1);
        assert(forall|j: int| 0 <= j < pre.len() ==> pre[j] == s[j]);
        lemma_last_index_char(pre, c, k);
    }
}

proof fn lemma_last_index_none(s: Seq<char>, c: char)
    requires
        forall|j: int| 0 <= j < s.len() ==> s[j] != c,
    ensures
        last_index_of(s, c) is None,
    decreases s.len(),
{
    if s.len() == 0 {
    } else {
        let pre = s.take(s.len() - 1);
        assert(forall|j: int| 0 <= j < pre.len() ==> pre[j] == s[j]);
        lemma_last_index_none(pre, c);
    }
}

/// The largest position of `c` in `s`, searched from the end.
pub(crate) fn find_last(s: &str, c: char) -> (r: Option<usize>)
    ensures
        r matches Some(k) ==> k < usize::MAX && k < s@.len() && last_index_of(s@, c) == Some(
            k as int,
        ),
        r is None ==> last_index_of(s@, c) is None,
{
    let n = s.unicode_len();
    let mut idx = n;
    while idx > 0
        invariant
            idx <= n,
            n == s@.len(),
            forall|j: int| idx <= j < n ==> s@[j] != c,
        decreases idx,
    {
        idx = idx - 1;
        if s.get_char(idx) == c {
            proof {
                lemma_last_index_char(s@, c, idx as int);
            }
            return Some(idx);
        }
    }
    proof {
        lemma_last_index_none(s@, c);
    }
    None
}

/// Strip the final extension from a relative source path: the slug under
/// which the page's output is written.
pub fn strip_extension(p: &str) -> (r: String)
    ensures
        r@ == spec_strip_extension(p@),
{
    let start = match find_last(p, '/') {
        Some(i) => i + 1,
        None => 0,
    };
    match find_last(p, '.') {
        Some(d) => if d > start {
            String::from_str(p.substring_char(0, d))
        } else {
            String::from_str(p)
        },
        None => String::from_str(p),
    }
}

// ---------------------------------------------------------------------------
// Loading pages.
// ---------------------------------------------------------------------------

/// The page built from one source file's path and front matter.
pub open spec fn page_of(path: Seq<char>, f: FrontMatterView) -> PageView {
    PageView {
        title: f.title,
        description: f.description,
        template: f.template,
        date: f.date,
        draft: f.draft,
        excerpt: f.excerpt,
        name: spec_strip_extension(path),
        content: f.content,
    }
}

/// Loading a list of (relative path, file text) pairs: each file's front
/// matter must parse and its date, if any, must be accepted; the first
/// offender fails the whole load with its path.
pub open spec fn spec_load_pages(files: Seq<(Seq<char>, Seq<char>)>) -> Result<
    Seq<PageView>,
    Seq<char>,
>
    decreases files.len(),
{
    if files.len() == 0 {
        Ok(Seq::empty())
    } else {
        match fm_parse(files[0].1) {
            None => Err(files[0].0),
            Some(f) => if f.date matches Some(d) && !date_ok(d) {
                Err(files[0].0)
            } else {
                match spec_load_pages(files.drop_first()) {
                    Ok(tl) => Ok(seq![page_of(files[0].0, f)] + tl),
                    Err(e) => Err(e),
                }
            },
        }
    }
}

/// One step of the loading loop.
proof fn lemma_load_step(
    fv: Seq<(Seq<char>, Seq<char>)>,
    i: int,
    before: Seq<PageView>,
    pv: PageView,
    after: Seq<PageView>,
)
    requires
        0 <= i < fv.len(),
        after == before + seq![pv],
        fm_parse(fv[i].1) matches Some(f) && !(f.date matches Some(d) && !date_ok(d)) && pv
            == page_of(fv[i].0, f),
        (spec_load_pages(fv.skip(i)) matches Ok(tl) ==> spec_load_pages(fv) == Ok::<_, Seq<char>>(
            before + tl,
        )),
        (spec_load_pages(fv.skip(i)) matches Err(e) ==> spec_load_pages(fv) == Err::<
            Seq<PageView>,
            _,
        >(e)),
    ensures
        (spec_load_pages(fv.skip(i + 1)) matches Ok(tl) ==> spec_load_pages(fv) == Ok::<
            _,
            Seq<char>,
        >(after + tl)),
        (spec_load_pages(fv.skip(i + 1)) matches Err(e) ==> spec_load_pages(fv) == Err::<
            Seq<PageView>,
            _,
        >(e)),
{
    let rest = fv.skip(i);
    assert(rest[0] == fv[i]);
    assert(rest.drop_first() =~= fv.skip(i + 1));
    match spec_load_pages(fv.skip(i + 1)) {
        Ok(tl) => {
            assert(spec_load_pages(rest) == Ok::<_, Seq<char>>(seq![pv] + tl));
            assert(before + (seq![pv] + tl) =~= after + tl);
        },
        Err(_) => {},
    }
}

/// Load pages from (relative path, file text) pairs.  Each page gets its
/// metadata and body from the front-matter loader and its slug from the
/// path; the first file whose front matter is missing, malformed, or dated
/// unreadably fails the whole load with that file's path.
pub fn load_pages(files: &Vec<(String, String)>) -> (r: Result<Vec<Page>, FrontMatterError>)
    ensures
        r matches Ok(v) ==> spec_load_pages(files.deep_view()) matches Ok(ps) && v.deep_view()
            == ps,
        r matches Err(e) ==> spec_load_pages(files.deep_view()) matches Err(p) && e.path@ == p,
{
    let ghost fv = files.deep_view();
    let mut out: Vec<Page> = Vec::new();
    let mut i: usize = 0;
    proof {
        assert(fv.skip(0) =~= fv);
        match spec_load_pages(fv) {
            Ok(tl) => {
                assert(out.deep_view() + tl =~= tl);
            },
            Err(_) => {},
        }
    }
    while i < files.len()
        invariant
            i <= files.len(),
            fv == files.deep_view(),
            (spec_load_pages(fv.skip(i as int)) matches Ok(tl) ==> spec_load_pages(fv) == Ok::<
                _,
                Seq<char>,
            >(out.deep_view() + tl)),
            (spec_load_pages(fv.skip(i as int)) matches Err(e) ==> spec_load_pages(fv) == Err::<
                Seq<PageView>,
                _,
            >(e)),
        decreases files.len() - i,
    {
        let ghost i0 = i as int;
        let ghost before = out.deep_view();
        let path = &files[i].0;
        let text = &files[i].1;
        proof {
            assert(fv[i0] == (path@, text@));
            assert(fv.skip(i0)[0] == fv[i0]);
        }
        match front_matter(text) {
            None => {
                proof {
                    assert(spec_load_pages(fv.skip(i0)) == Err::<Seq<PageView>, _>(path@));
                }
                return Err(FrontMatterError { path: path.clone() });
            },
            Some(f) => {
                let date: Option<String> = match &f.date {
                    Some(d) => {
                        if !date_valid(d.as_str()) {
                            proof {
                                assert(spec_load_pages(fv.skip(i0)) == Err::<
                                    Seq<PageView>,
                                    _,
                                >(path@));
                            }
                            return Err(FrontMatterError { path: path.clone() });
                        }
                        Some(d.clone())
                    },
                    None => None,
                };
                let page = Page {
                    title: f.title,
                    description: f.description,
                    template: f.template,
                    date,
                    draft: f.draft,
                    excerpt: f.excerpt,
                    name: strip_extension(path.as_str()),
                    content: f.content,
                };
                let ghost pv = page.deep_view();
                out.push(page);
                proof {
                    assert(out.deep_view() =~= before + seq![pv]);
                    lemma_load_step(fv, i0, before, pv, out.deep_view());
                }
            },
        }
        i = i + 1;
    }
    proof {
        assert(spec_load_pages(fv.skip(files.len() as int)) == Ok::<_, Seq<char>>(
            Seq::<PageView>::empty(),
        ));
        assert(out.deep_view() + Seq::<PageView>::empty() =~= out.deep_view());
    }
    Ok(out)
}

// ---------------------------------------------------------------------------
// Draft filtering.
// ---------------------------------------------------------------------------

/// The pages the build keeps: all of them when drafts are included, the
/// non-drafts otherwise, in order.
pub open spec fn spec_filter_drafts(pages: Seq<PageView>, with_drafts: bool) -> Seq<PageView>
    decreases pages.len(),
{
    if pages.len() == 0 {
        Seq::empty()
    } else {
        let tl = spec_filter_drafts(pages.drop_first(), with_drafts);
        if with_drafts || !pages[0].draft {
            seq![pages[0]] + tl
        } else {
            tl
        }
    }
}

/// Keep every page when drafts are included, the non-drafts otherwise,
/// preserving order.
pub fn filter_drafts(pages: Vec<Page>, with_drafts: bool) -> (r: Vec<Page>)
    ensures
        r.deep_view() == spec_filter_drafts(pages.deep_view(), with_drafts),
{
    let ghost pv = pages.deep_view();
    let mut out: Vec<Page> = Vec::new();
    let mut i: usize = 0;
    proof {
        assert(pv.skip(0) =~= pv);
        assert(out.deep_view() + spec_filter_drafts(pv, with_drafts) =~= spec_filter_drafts(
            pv,
            with_drafts,
        ));
    }
    let n = pages.len();
    let mut rest = pages;
    // consume from the front to move each kept page without cloning
    while i < n
        invariant
            i <= n,
            n == pv.len(),
            rest.deep_view() =~= pv.skip(i as int),
            spec_filter_drafts(pv, with_drafts) == out.deep_view() + spec_filter_drafts(
                pv.skip(i as int),
                with_drafts,
            ),
        decreases n - i,
    {
        let ghost before = out.deep_view();
        let ghost rv = rest@;
        let ghost rdv = rest.deep_view();
        let page = rest.remove(0);
        proof {
            assert(pv.skip(i as int)[0] == pv[i as int]);
            assert(rdv[0] == rv[0].deep_view());
            assert(page.deep_view() == pv[i as int]);
            assert forall|j: int| 0 <= j < rest@.len() implies rest.deep_view()[j] == pv.skip(
                i as int + 1,
            )[j] by {
                assert(rest@[j] == rv[j + 1]);
                assert(rest.deep_view()[j] == rest@[j].deep_view());
                assert(rdv[j + 1] == rv[j + 1].deep_view());
                assert(rdv[j + 1] == pv.skip(i as int)[j + 1]);
            }
            assert(rest.deep_view() =~= pv.skip(i as int + 1));
            assert(pv.skip(i as int).drop_first() =~= pv.skip(i as int + 1));
        }
        if with_drafts || !page.draft {
            out.push(page);
            proof {
                assert(out.deep_view() =~= before + seq![pv[i as int]]);
                assert(before + (seq![pv[i as int]] + spec_filter_drafts(
                    pv.skip(i as int + 1),
                    with_drafts,
                )) =~= out.deep_view() + spec_filter_drafts(pv.skip(i as int + 1), with_drafts));
            }
        }
        i = i + 1;
    }
    proof {
        assert(spec_filter_drafts(pv.skip(n as int), with_drafts) =~= Seq::<PageView>::empty());
        assert(out.deep_view() + Seq::<PageView>::empty() =~= out.deep_view());
    }
    out
}

// ---------------------------------------------------------------------------
// The content-rendering stage.
// ---------------------------------------------------------------------------

/// The page after its content is rendered; everything else is untouched.
pub open spec fn spec_rendered_page(
    p: PageView,
    out: Seq<crate::markdown::OutEventView>,
) -> PageView {
    PageView { content: rendered_html(p.content, out), ..p }
}

/// Rendering every page's content, in order: the first failing page fails
/// the whole stage.
pub open spec fn spec_render_each(
    pages: Seq<PageView>,
    theme: Seq<char>,
    macros: Seq<(Seq<char>, Seq<char>)>,
) -> Result<Seq<PageView>, RenderErrorView>
    decreases pages.len(),
{
    if pages.len() == 0 {
        Ok(Seq::empty())
    } else {
        match spec_transform(pages[0].content, theme, macros) {
            Ok(out) => match spec_render_each(pages.drop_first(), theme, macros) {
                Ok(tl) => Ok(seq![spec_rendered_page(pages[0], out)] + tl),
                Err(e) => Err(e),
            },
            Err(e) => Err(e),
        }
    }
}

/// The content stage as a whole: an unknown theme fails it outright, even
/// with no pages to render.
pub open spec fn spec_render_pages(
    pages: Seq<PageView>,
    theme: Seq<char>,
    macros: Seq<(Seq<char>, Seq<char>)>,
) -> Result<Seq<PageView>, RenderErrorView> {
    if !known_theme(theme) {
        Err(RenderErrorView::Theme(theme))
    } else {
        spec_render_each(pages, theme, macros)
    }
}

/// One step of the rendering loop.
proof fn lemma_render_pages_step(
    pv: Seq<PageView>,
    theme: Seq<char>,
    m: Seq<(Seq<char>, Seq<char>)>,
    i: int,
    before: Seq<PageView>,
    rp: PageView,
    after: Seq<PageView>,
)
    requires
        0 <= i < pv.len(),
        after == before + seq![rp],
        spec_transform(pv[i].content, theme, m) matches Ok(out) && rp == spec_rendered_page(
            pv[i],
            out,
        ),
        (spec_render_each(pv.skip(i), theme, m) matches Ok(tl) ==> spec_render_each(pv, theme, m)
            == Ok::<_, RenderErrorView>(before + tl)),
        (spec_render_each(pv.skip(i), theme, m) matches Err(e) ==> spec_render_each(pv, theme, m)
            == Err::<Seq<PageView>, _>(e)),
    ensures
        (spec_render_each(pv.skip(i + 1), theme, m) matches Ok(tl) ==> spec_render_each(
            pv,
            theme,
            m,
        ) == Ok::<_, RenderErrorView>(after + tl)),
        (spec_render_each(pv.skip(i + 1), theme, m) matches Err(e) ==> spec_render_each(
            pv,
            theme,
            m,
        ) == Err::<Seq<PageView>, _>(e)),
{
    let rest = pv.skip(i);
    assert(rest[0] == pv[i]);
    assert(rest.drop_first() =~= pv.skip(i + 1));
    match spec_render_each(pv.skip(i + 1), theme, m) {
        Ok(tl) => {
            assert(spec_render_each(rest, theme, m) == Ok::<_, RenderErrorView>(seq![rp] + tl));
            assert(before + (seq![rp] + tl) =~= after + tl);
        },
        Err(_) => {},
    }
}

/// Render every page's Markdown content to HTML, in place and in order.
/// All-or-nothing: on success every page's content is its rendered HTML
/// and all metadata is untouched; on any failure the pages are unchanged
/// and the first error comes back.
pub fn render_markdown(pages: &mut Vec<Page>, theme: &String, macros: &Vec<(String, String)>) -> (r:
    Result<(), RenderError>)
    ensures
        r is Ok ==> (spec_render_pages(old(pages).deep_view(), theme@, macros_view(macros@))
            matches Ok(out) && final (pages).deep_view() == out),
        r matches Err(e) ==> spec_render_pages(old(pages).deep_view(), theme@, macros_view(macros@))
            matches Err(ev) && e.deep_view() == ev && *final (pages) == *old(pages),
{
    let ghost pv = pages.deep_view();
    let ghost m = macros_view(macros@);
    if !crate::markdown::theme_known(theme.as_str()) {
        return Err(RenderError::Theme(theme.clone()));
    }
    let mut done: Vec<Page> = Vec::new();
    let mut i: usize = 0;
    proof {
        assert(pv.skip(0) =~= pv);
        match spec_render_each(pv, theme@, m) {
            Ok(tl) => {
                assert(done.deep_view() + tl =~= tl);
            },
            Err(_) => {},
        }
    }
    while i < pages.len()
        invariant
            i <= pages.len(),
            pv == pages.deep_view(),
            m == macros_view(macros@),
            known_theme(theme@),
            (spec_render_each(pv.skip(i as int), theme@, m) matches Ok(tl) ==> spec_render_each(
                pv,
                theme@,
                m,
            ) == Ok::<_, RenderErrorView>(done.deep_view() + tl)),
            (spec_render_each(pv.skip(i as int), theme@, m) matches Err(e) ==> spec_render_each(
                pv,
                theme@,
                m,
            ) == Err::<Seq<PageView>, _>(e)),
        decreases pages.len() - i,
    {
        let ghost i0 = i as int;
        let ghost before = done.deep_view();
        proof {
            assert(pv.skip(i0)[0] == pv[i0]);
            assert(pages[i0].deep_view() == pv[i0]);
        }
        let p = &pages[i];
        match transform_markdown(&p.content, theme, macros) {
            Ok(html) => {
                let rendered = Page {
                    title: p.title.clone(),
                    description: p.description.clone(),
                    template: p.template.clone(),
                    date: match &p.date {
                        Some(d) => Some(d.clone()),
                        None => None,
                    },
                    draft: p.draft,
                    excerpt: match &p.excerpt {
                        Some(e) => Some(e.clone()),
                        None => None,
                    },
                    name: p.name.clone(),
                    content: html,
                };
                let ghost rp = rendered.deep_view();
                done.push(rendered);
                proof {
                    assert(done.deep_view() =~= before + seq![rp]);
                    lemma_render_pages_step(pv, theme@, m, i0, before, rp, done.deep_view());
                }
            },
            Err(e) => {
                proof {
                    assert(spec_render_each(pv.skip(i0), theme@, m) matches Err(ev) && e.deep_view()
                        == ev);
                }
                return Err(e);
            },
        }
        i = i + 1;
    }
    proof {
        assert(spec_render_each(pv.skip(pages.len() as int), theme@, m) == Ok::<
            _,
            RenderErrorView,
        >(Seq::<PageView>::empty()));
        assert(done.deep_view() + Seq::<PageView>::empty() =~= done.deep_view());
    }
    *pages = done;
    Ok(())
}

} // verus!
