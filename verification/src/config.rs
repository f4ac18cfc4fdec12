//! Site configuration and the output layout it induces.

use vstd::prelude::*;

verus! {

/// Stylesheet compilation settings: each target maps an output file name
/// (under the output CSS directory) to a source file name (under the sass
/// directory).
pub struct SassConfig {
    pub compressed: bool,
    pub targets: Vec<(String, String)>,
    pub load_paths: Vec<String>,
}

/// Site-wide configuration, as the configuration file provides it.
pub struct SiteConfig {
    pub base_url: String,
    pub title: String,
    pub theme: String,
    pub sass: SassConfig,
}

/// Name of the syntax-highlighting theme used when the site configuration
/// does not pick one.
pub fn default_theme() -> (r: String)
    ensures
        r@ == "InspiredGitHub"@,
{
    String::from_str("InspiredGitHub")
}

/// Where one page's HTML goes, relative to the output directory: the root
/// page is `index.html` itself, every other page nests under its slug.
pub open spec fn spec_output_path(name: Seq<char>) -> Seq<char> {
    if name == "index"@ {
        "index.html"@
    } else {
        name + "/index.html"@
    }
}

/// The output path of one page, relative to the output directory.
pub fn page_output_path(name: &String) -> (r: String)
    ensures
        r@ == spec_output_path(name@),
{
    let root = String::from_str("index");
    if name.eq(&root) {
        String::from_str("index.html")
    } else {
        let mut r = name.clone();
        r.append("/index.html");
        r
    }
}

/// The stylesheet jobs a configuration asks for: for each target, the
/// output path under the output directory and the source path under the
/// site directory, in target order.
pub open spec fn spec_css_jobs(targets: Seq<(Seq<char>, Seq<char>)>) -> Seq<
    (Seq<char>, Seq<char>),
> {
    targets.map_values(|pr: (Seq<char>, Seq<char>)| ("css/"@ + pr.0, "sass/"@ + pr.1))
}

/// List each stylesheet target's (output, source) paths: the output
/// relative to the output directory, the source relative to the site
/// directory.
pub fn css_jobs(cfg: &SassConfig) -> (r: Vec<(String, String)>)
    ensures
        r.deep_view() == spec_css_jobs(cfg.targets.deep_view()),
{
    let ghost tv = cfg.targets.deep_view();
    let mut out: Vec<(String, String)> = Vec::new();
    let mut i: usize = 0;
    while i < cfg.targets.len()
        invariant
            i <= cfg.targets.len(),
            tv == cfg.targets.deep_view(),
            out.deep_view().len() == i,
            forall|j: int|
                0 <= j < i ==> out.deep_view()[j] == ("css/"@ + tv[j].0, "sass/"@ + tv[j].1),
        decreases cfg.targets.len() - i,
    {
        let mut css = String::from_str("css/");
        css.append(cfg.targets[i].0.as_str());
        let mut sass = String::from_str("sass/");
        sass.append(cfg.targets[i].1.as_str());
        proof {
            assert(tv[i as int] == (cfg.targets[i as int].0@, cfg.targets[i as int].1@));
        }
        let ghost before = out.deep_view();
        let ghost bv = out@;
        let ghost i0 = i as int;
        out.push((css, sass));
        proof {
            assert forall|j: int| 0 <= j < i0 + 1 implies out.deep_view()[j] == ("css/"@ + tv[j].0,
            "sass/"@ + tv[j].1) by {
                if j < i0 {
                    assert(out@[j] == bv[j]);
                    assert(before[j] == bv[j].deep_view());
                    assert(out.deep_view()[j] == out@[j].deep_view());
                } else {
                    assert(out.deep_view()[j] == out@[j].deep_view());
                }
            }
        }
        i = i + 1;
    }
    proof {
        assert(out.deep_view() =~= spec_css_jobs(tv));
    }
    out
}

} // verus!
