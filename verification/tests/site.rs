//! Page loading, draft filtering, content rendering, the feed, the build
//! schedule, and the watch filter.

use bakery::config::{css_jobs, default_theme, page_output_path, SassConfig};
use bakery::feed::{feed_entries, render_feed};
use bakery::page::{filter_drafts, load_pages, render_markdown, strip_extension, Page};
use bakery::schedule::{Schedule, Stage, StageStatus};
use bakery::watch::should_rebuild;

fn file(path: &str, text: &str) -> (String, String) {
    (path.to_string(), text.to_string())
}

fn page(name: &str, date: Option<&str>, draft: bool, content: &str) -> Page {
    Page {
        title: format!("title of {}", name),
        description: "d".to_string(),
        template: "page.html".to_string(),
        date: date.map(|d| d.to_string()),
        draft,
        excerpt: None,
        name: name.to_string(),
        content: content.to_string(),
    }
}

const GOOD: &str = "---\ntitle = \"Hello\"\ndescription = \"A page\"\ntemplate = \"page.html\"\n---\nBody text";

#[test]
fn load_pages_reads_front_matter_and_body() {
    let pages = load_pages(&vec![file("posts/hello.md", GOOD)]).unwrap();
    assert_eq!(1, pages.len());
    let p = &pages[0];
    assert_eq!("Hello", p.title);
    assert_eq!("A page", p.description);
    assert_eq!("page.html", p.template);
    assert_eq!("posts/hello", p.name);
    assert_eq!("Body text", p.content);
    assert_eq!(None, p.date);
    assert!(!p.draft);
}

#[test]
fn load_pages_reads_date_and_draft() {
    let text = "---\ntitle = \"T\"\ndescription = \"D\"\ntemplate = \"t.html\"\ndate = 2021-06-01T12:00:00Z\ndraft = true\n---\nb";
    let pages = load_pages(&vec![file("a.md", text)]).unwrap();
    assert_eq!(Some("2021-06-01T12:00:00Z".to_string()), pages[0].date);
    assert!(pages[0].draft);
}

#[test]
fn missing_front_matter_names_the_file() {
    let err = load_pages(&vec![
        file("ok.md", GOOD),
        file("plain.md", "no front matter here"),
    ])
    .unwrap_err();
    assert_eq!("plain.md", err.path);
}

#[test]
fn missing_required_field_names_the_file() {
    let text = "---\ndescription = \"D\"\ntemplate = \"t.html\"\n---\nb";
    let err = load_pages(&vec![file("untitled.md", text)]).unwrap_err();
    assert_eq!("untitled.md", err.path);
}

#[test]
fn mistyped_field_names_the_file() {
    let text = "---\ntitle = 3\ndescription = \"D\"\ntemplate = \"t.html\"\n---\nb";
    let err = load_pages(&vec![file("numeric.md", text)]).unwrap_err();
    assert_eq!("numeric.md", err.path);
}

#[test]
fn unreadable_date_names_the_file() {
    let text = "---\ntitle = \"T\"\ndescription = \"D\"\ntemplate = \"t.html\"\ndate = \"tomorrow\"\n---\nb";
    let err = load_pages(&vec![file("dated.md", text)]).unwrap_err();
    assert_eq!("dated.md", err.path);
}

#[test]
fn strip_extension_cases() {
    assert_eq!("post", strip_extension("post.md"));
    assert_eq!("dir/post", strip_extension("dir/post.md"));
    assert_eq!("archive.tar", strip_extension("archive.tar.gz"));
    assert_eq!(".hidden", strip_extension(".hidden"));
    assert_eq!("noext", strip_extension("noext"));
    assert_eq!("a.b/c", strip_extension("a.b/c"));
}

#[test]
fn drafts_are_filtered_unless_wanted() {
    let pages = vec![
        page("one", None, false, "x"),
        page("two", None, true, "x"),
        page("three", None, false, "x"),
    ];
    let kept = filter_drafts(pages, false);
    let names: Vec<&str> = kept.iter().map(|p| p.name.as_str()).collect();
    assert_eq!(vec!["one", "three"], names);

    let pages = vec![page("one", None, false, "x"), page("two", None, true, "x")];
    let kept = filter_drafts(pages, true);
    assert_eq!(2, kept.len());
}

#[test]
fn render_markdown_rewrites_every_page() {
    let mut pages = vec![
        page("a", None, false, "plain *text*\n"),
        page("b", None, false, "`$N=1$`\n"),
    ];
    render_markdown(&mut pages, &"InspiredGitHub".to_string(), &Vec::new()).unwrap();
    assert!(pages[0].content.contains("<em>text</em>"));
    assert!(pages[1].content.contains("katex"));
    assert_eq!("a", pages[0].name);
}

#[test]
fn render_markdown_is_all_or_nothing() {
    let mut pages = vec![
        page("good", None, false, "fine\n"),
        page("bad", None, false, "`$\\nosuchmacroxyz$`\n"),
    ];
    let err = render_markdown(&mut pages, &"InspiredGitHub".to_string(), &Vec::new());
    assert!(err.is_err());
    // no page was touched, not even the good one
    assert_eq!("fine\n", pages[0].content);
    assert_eq!("`$\\nosuchmacroxyz$`\n", pages[1].content);
}

#[test]
fn render_markdown_rejects_unknown_theme() {
    let mut pages = vec![page("a", None, false, "x\n")];
    assert!(render_markdown(&mut pages, &"NoSuchThemeZZ".to_string(), &Vec::new()).is_err());
}

#[test]
fn feed_holds_only_dated_pages_in_order() {
    let pages = vec![
        page("undated", None, false, "<p>a</p>"),
        page("first", Some("2021-01-01T00:00:00Z"), false, "<p>b</p>"),
        page("second", Some("2022-01-01T00:00:00Z"), false, "<p>c</p>"),
    ];
    let entries = feed_entries(&pages);
    let names: Vec<&str> = entries.iter().map(|e| e.name.as_str()).collect();
    assert_eq!(vec!["first", "second"], names);
}

#[test]
fn feed_document_matches_the_builder() {
    let pages = vec![
        page("undated", None, false, "<p>a</p>"),
        page("posts/hello", Some("2021-06-01T12:00:00Z"), false, "<p>hi</p>"),
    ];
    let ours = render_feed(
        &"My Site".to_string(),
        &"https://example.com/".to_string(),
        &pages,
    );
    let entry = atom_syndication::EntryBuilder::default()
        .id("posts/hello")
        .content(
            atom_syndication::ContentBuilder::default()
                .value("<p>hi</p>".to_string())
                .build(),
        )
        .title(atom_syndication::Text::plain("title of posts/hello"))
        .updated(chrono::DateTime::parse_from_rfc3339("2021-06-01T12:00:00Z").unwrap())
        .build();
    let expected = atom_syndication::FeedBuilder::default()
        .title("My Site")
        .id("https://example.com/")
        .entries(vec![entry])
        .build()
        .to_string();
    assert_eq!(expected, ours);
}

#[test]
fn output_paths_nest_by_slug() {
    assert_eq!("index.html", page_output_path(&"index".to_string()));
    assert_eq!(
        "posts/hello/index.html",
        page_output_path(&"posts/hello".to_string())
    );
}

#[test]
fn css_jobs_pair_output_and_source() {
    let cfg = SassConfig {
        compressed: true,
        targets: vec![("main.css".to_string(), "main.scss".to_string())],
        load_paths: Vec::new(),
    };
    assert_eq!(
        vec![("css/main.css".to_string(), "sass/main.scss".to_string())],
        css_jobs(&cfg)
    );
}

#[test]
fn the_default_theme_name() {
    assert_eq!("InspiredGitHub", default_theme());
}

fn run_to_end(sched: &mut Schedule, failing: Option<Stage>) {
    while !sched.finished() {
        let started = sched.start_ready();
        for s in started {
            let ok = Some(s) != failing;
            sched.complete(s, ok);
        }
    }
}

#[test]
fn schedule_hands_out_stages_in_dependency_order() {
    let mut sched = Schedule::new();
    let first = sched.start_ready();
    assert_eq!(vec![Stage::Clean, Stage::LoadPages], first);
    // nothing else is ready until those report back
    assert_eq!(Vec::<Stage>::new(), sched.start_ready());
    sched.complete(Stage::Clean, true);
    sched.complete(Stage::LoadPages, true);
    let second = sched.start_ready();
    assert_eq!(
        vec![Stage::RenderContent, Stage::CopyAssets, Stage::CompileCss],
        second
    );
    // html and feed wait for the full content barrier
    assert_eq!(
        StageStatus::Pending,
        sched.status_of(Stage::RenderHtml)
    );
    sched.complete(Stage::CopyAssets, true);
    sched.complete(Stage::CompileCss, true);
    assert_eq!(Vec::<Stage>::new(), sched.start_ready());
    sched.complete(Stage::RenderContent, true);
    let third = sched.start_ready();
    assert_eq!(vec![Stage::RenderHtml, Stage::RenderFeed], third);
    sched.complete(Stage::RenderHtml, true);
    sched.complete(Stage::RenderFeed, true);
    assert!(sched.finished());
    assert_eq!(None, sched.first_failed());
}

#[test]
fn failed_content_skips_output_but_not_siblings() {
    let mut sched = Schedule::new();
    run_to_end(&mut sched, Some(Stage::RenderContent));
    assert_eq!(StageStatus::Failed, sched.status_of(Stage::RenderContent));
    assert_eq!(StageStatus::Skipped, sched.status_of(Stage::RenderHtml));
    assert_eq!(StageStatus::Skipped, sched.status_of(Stage::RenderFeed));
    // a content failure does not keep assets or stylesheets from finishing
    assert_eq!(StageStatus::Succeeded, sched.status_of(Stage::CopyAssets));
    assert_eq!(StageStatus::Succeeded, sched.status_of(Stage::CompileCss));
    assert_eq!(Some(Stage::RenderContent), sched.first_failed());
}

#[test]
fn failed_css_does_not_stop_the_rest() {
    let mut sched = Schedule::new();
    run_to_end(&mut sched, Some(Stage::CompileCss));
    assert_eq!(StageStatus::Failed, sched.status_of(Stage::CompileCss));
    assert_eq!(StageStatus::Succeeded, sched.status_of(Stage::CopyAssets));
    assert_eq!(StageStatus::Succeeded, sched.status_of(Stage::RenderHtml));
    assert_eq!(StageStatus::Succeeded, sched.status_of(Stage::RenderFeed));
    assert_eq!(Some(Stage::CompileCss), sched.first_failed());
}

#[test]
fn failed_clean_skips_every_writer() {
    let mut sched = Schedule::new();
    run_to_end(&mut sched, Some(Stage::Clean));
    assert_eq!(StageStatus::Failed, sched.status_of(Stage::Clean));
    assert_eq!(StageStatus::Skipped, sched.status_of(Stage::CopyAssets));
    assert_eq!(StageStatus::Skipped, sched.status_of(Stage::CompileCss));
    assert_eq!(StageStatus::Skipped, sched.status_of(Stage::RenderHtml));
    // the feed depends only on content, which still succeeded
    assert_eq!(StageStatus::Succeeded, sched.status_of(Stage::RenderFeed));
    assert_eq!(Some(Stage::Clean), sched.first_failed());
}

#[test]
fn rebuild_filter_ignores_output_and_backups() {
    let target = "/site/target".to_string();
    // events under the output directory never rebuild
    assert!(!should_rebuild(&"/site/target/index.html".to_string(), &target));
    assert!(!should_rebuild(&"/site/target".to_string(), &target));
    // backup files never rebuild
    assert!(!should_rebuild(&"/site/content/post.md~".to_string(), &target));
    // everything else inside the site does
    assert!(should_rebuild(&"/site/content/post.md".to_string(), &target));
    assert!(should_rebuild(&"/site/bakery.toml".to_string(), &target));
    // a sibling whose name merely starts with the output directory's rebuilds
    assert!(should_rebuild(&"/site/targetfoo/x.md".to_string(), &target));
    // a tilde with no extension is not a backup marker
    assert!(should_rebuild(&"/site/content/foo~".to_string(), &target));
}
