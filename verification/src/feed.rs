//! The syndication feed: selecting the dated pages and building the Atom
//! document.
//!
//! Only pages carrying a publish date enter the feed, in page order; the
//! XML serialization itself is the feed builder's work.

use vstd::prelude::*;

verus! {

use crate::page::{Page, PageView, date_ok, date_valid};

/// One feed entry: the dated page's identity and rendered content.
#[derive(Clone, Debug, PartialEq)]
pub struct FeedEntry {
    pub name: String,
    pub title: String,
    pub content: String,
    pub date: String,
}

/// Mathematical model of one feed entry.
pub struct FeedEntryView {
    pub name: Seq<char>,
    pub title: Seq<char>,
    pub content: Seq<char>,
    pub date: Seq<char>,
}

impl View for FeedEntry {
    type V = FeedEntryView;

    open spec fn view(&self) -> FeedEntryView {
        FeedEntryView {
            name: self.name@,
            title: self.title@,
            content: self.content@,
            date: self.date@,
        }
    }
}

impl DeepView for FeedEntry {
    type V = FeedEntryView;

    open spec fn deep_view(&self) -> FeedEntryView {
        self.view()
    }
}

/// The Atom document that the feed builder produces from the feed title,
/// the site's base URL, and the entries, in that order.
pub uninterp spec fn feed_doc(
    title: Seq<char>,
    base_url: Seq<char>,
    entries: Seq<FeedEntryView>,
) -> Seq<char>;

/// Relies on atom_syndication's builders and `Feed::to_string`: the
/// document is a deterministic function of the title, the id, and the
/// entries.  Each entry's date goes through
/// `chrono::DateTime::parse_from_rfc3339`, which the caller has validated,
/// so no call here can fail.
#[verifier::external_body]
fn feed_xml(title: &String, base_url: &String, entries: &Vec<FeedEntry>) -> (r: String)
    requires
        forall|i: int|
            0 <= i < entries.deep_view().len() ==> date_ok(entries.deep_view()[i].date),
    ensures
        r@ == feed_doc(title@, base_url@, entries.deep_view()),
{
    let es: Vec<atom_syndication::Entry> = entries.iter().map(|e: &FeedEntry| {
        atom_syndication::EntryBuilder::default().id(&e.name)
            .content(atom_syndication::ContentBuilder::default().value(e.content.clone()).build())
            .title(atom_syndication::Text::plain(&e.title))
            .updated(chrono::DateTime::parse_from_rfc3339(&e.date).unwrap()).build()
    }).collect();
    atom_syndication::FeedBuilder::default().title(title.as_str()).id(base_url.as_str())
        .entries(es).build().to_string()
}

/// The entries the feed holds: one per page with an accepted publish date,
/// in page order, carrying the page's slug, title, rendered content, and
/// date.
pub open spec fn spec_feed_entries(pages: Seq<PageView>) -> Seq<FeedEntryView>
    decreases pages.len(),
{
    if pages.len() == 0 {
        Seq::empty()
    } else {
        let tl = spec_feed_entries(pages.drop_first());
        if pages[0].date matches Some(d) && date_ok(d) {
            seq![
                FeedEntryView {
                    name: pages[0].name,
                    title: pages[0].title,
                    content: pages[0].content,
                    date: pages[0].date->0,
                },
            ] + tl
        } else {
            tl
        }
    }
}

/// Select the feed's entries from the pages: those with an accepted
/// publish date, in order.
pub fn feed_entries(pages: &Vec<Page>) -> (r: Vec<FeedEntry>)
    ensures
        r.deep_view() == spec_feed_entries(pages.deep_view()),
        forall|i: int| 0 <= i < r.deep_view().len() ==> date_ok(r.deep_view()[i].date),
{
    let ghost pv = pages.deep_view();
    let mut out: Vec<FeedEntry> = Vec::new();
    let mut i: usize = 0;
    proof {
        assert(pv.skip(0) =~= pv);
        assert(out.deep_view() + spec_feed_entries(pv) =~= spec_feed_entries(pv));
    }
    while i < pages.len()
        invariant
            i <= pages.len(),
            pv == pages.deep_view(),
            spec_feed_entries(pv) == out.deep_view() + spec_feed_entries(pv.skip(i as int)),
            forall|j: int| 0 <= j < out.deep_view().len() ==> date_ok(out.deep_view()[j].date),
        decreases pages.len() - i,
    {
        let ghost i0 = i as int;
        let ghost before = out.deep_view();
        let p = &pages[i];
        proof {
            assert(pv.skip(i0)[0] == pv[i0]);
            assert(p.deep_view() == pv[i0]);
            assert(pv.skip(i0).drop_first() =~= pv.skip(i0 + 1));
        }
        match &p.date {
            Some(d) => {
                if date_valid(d.as_str()) {
                    let entry = FeedEntry {
                        name: p.name.clone(),
                        title: p.title.clone(),
                        content: p.content.clone(),
                        date: d.clone(),
                    };
                    let ghost ev = entry.deep_view();
                    out.push(entry);
                    proof {
                        assert(out.deep_view() =~= before + seq![ev]);
                        assert(before + (seq![ev] + spec_feed_entries(pv.skip(i0 + 1)))
                            =~= out.deep_view() + spec_feed_entries(pv.skip(i0 + 1)));
                    }
                } else {
                    proof {
                        assert(!(pv[i0].date matches Some(dd) && date_ok(dd)));
                    }
                }
            },
            None => {
                proof {
                    assert(!(pv[i0].date matches Some(dd) && date_ok(dd)));
                }
            },
        }
        i = i + 1;
    }
    proof {
        assert(spec_feed_entries(pv.skip(pages.len() as int)) =~= Seq::<FeedEntryView>::empty());
        assert(out.deep_view() + Seq::<FeedEntryView>::empty() =~= out.deep_view());
    }
    out
}

/// Build the Atom feed document: the feed's title, the site's base URL as
/// its id, and one entry per dated page, in page order.
pub fn render_feed(title: &String, base_url: &String, pages: &Vec<Page>) -> (r: String)
    ensures
        r@ == feed_doc(title@, base_url@, spec_feed_entries(pages.deep_view())),
{
    let entries = feed_entries(pages);
    feed_xml(title, base_url, &entries)
}

} // verus!
