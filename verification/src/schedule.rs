//! The build orchestrator's stage graph.
//!
//! A build is six or seven discrete stages with declared dependencies:
//! cleaning the output directory comes before anything that writes under
//! it, and content rendering comes before HTML and feed rendering.  The
//! schedule tracks each stage's status, hands out the stages that are safe
//! to run concurrently, skips the stages whose prerequisites failed, and
//! aggregates the first failure in completion order.  The runner performs
//! the stages' actual work and reports each outcome back.

use vstd::prelude::*;

verus! {

/// One discrete unit of build work.
#[derive(Clone, Copy, Debug, PartialEq, Eq, Structural)]
pub enum Stage {
    /// Remove and recreate the output directory.
    Clean,
    /// Read the source files and parse their front matter.
    LoadPages,
    /// Render every page's Markdown and LaTeX content.
    RenderContent,
    /// Copy static asset files into the output directory.
    CopyAssets,
    /// Compile the stylesheets into the output directory.
    CompileCss,
    /// Render every page through its template into the output directory.
    RenderHtml,
    /// Write the syndication feed.
    RenderFeed,
}

/// Where one stage stands.
#[derive(Clone, Copy, Debug, PartialEq, Eq, Structural)]
pub enum StageStatus {
    /// Not yet handed out.
    Pending,
    /// Handed out, not yet reported back.
    Running,
    /// Reported back without error.
    Succeeded,
    /// Reported back with an error.
    Failed,
    /// Never run: some prerequisite failed or was itself skipped.
    Skipped,
}

/// The stages in a fixed topological order: every stage's prerequisites
/// come before it.
pub open spec fn stage_order() -> Seq<Stage> {
    seq![
        Stage::Clean,
        Stage::LoadPages,
        Stage::RenderContent,
        Stage::CopyAssets,
        Stage::CompileCss,
        Stage::RenderHtml,
        Stage::RenderFeed,
    ]
}

/// The prerequisites of each stage, by data dependency: whatever writes
/// under the output directory waits for `Clean`, and both output stages
/// wait for every page's content to be rendered.
pub open spec fn spec_deps(s: Stage) -> Seq<Stage> {
    match s {
        Stage::Clean => Seq::empty(),
        Stage::LoadPages => Seq::empty(),
        Stage::RenderContent => seq![Stage::LoadPages],
        Stage::CopyAssets => seq![Stage::Clean],
        Stage::CompileCss => seq![Stage::Clean],
        Stage::RenderHtml => seq![Stage::Clean, Stage::RenderContent],
        Stage::RenderFeed => seq![Stage::RenderContent],
    }
}

/// The stage has been handed out at least once: it is running or has
/// reported back.
pub open spec fn stage_begun(st: StageStatus) -> bool {
    st is Running || st is Succeeded || st is Failed
}

/// The stages in their topological order.
pub fn all_stages() -> (v: Vec<Stage>)
    ensures
        v@ == stage_order(),
{
    let mut v: Vec<Stage> = Vec::new();
    v.push(Stage::Clean);
    v.push(Stage::LoadPages);
    v.push(Stage::RenderContent);
    v.push(Stage::CopyAssets);
    v.push(Stage::CompileCss);
    v.push(Stage::RenderHtml);
    v.push(Stage::RenderFeed);
    proof {
        assert(v@ =~= stage_order());
    }
    v
}

/// The prerequisites of one stage.
pub fn deps_of(s: Stage) -> (v: Vec<Stage>)
    ensures
        v@ == spec_deps(s),
{
    let mut v: Vec<Stage> = Vec::new();
    match s {
        Stage::Clean => {},
        Stage::LoadPages => {},
        Stage::RenderContent => {
            v.push(Stage::LoadPages);
        },
        Stage::CopyAssets => {
            v.push(Stage::Clean);
        },
        Stage::CompileCss => {
            v.push(Stage::Clean);
        },
        Stage::RenderHtml => {
            v.push(Stage::Clean);
            v.push(Stage::RenderContent);
        },
        Stage::RenderFeed => {
            v.push(Stage::RenderContent);
        },
    }
    proof {
        assert(v@ =~= spec_deps(s));
    }
    v
}

/// The orchestrator's state: each stage's status, and the completion log
/// in completion order.
pub struct Schedule {
    pub clean: StageStatus,
    pub load_pages: StageStatus,
    pub render_content: StageStatus,
    pub copy_assets: StageStatus,
    pub compile_css: StageStatus,
    pub render_html: StageStatus,
    pub render_feed: StageStatus,
    pub log: Vec<(Stage, bool)>,
}

impl Schedule {
    /// The status of one stage.
    pub open spec fn status(self, s: Stage) -> StageStatus {
        match s {
            Stage::Clean => self.clean,
            Stage::LoadPages => self.load_pages,
            Stage::RenderContent => self.render_content,
            Stage::CopyAssets => self.copy_assets,
            Stage::CompileCss => self.compile_css,
            Stage::RenderHtml => self.render_html,
            Stage::RenderFeed => self.render_feed,
        }
    }

    /// The completion log: each completed stage with its outcome, in the
    /// order the outcomes were reported.
    pub open spec fn spec_log(self) -> Seq<(Stage, bool)> {
        self.log@
    }

    /// Every prerequisite of `s` has succeeded.
    pub open spec fn deps_succeeded(self, s: Stage) -> bool {
        forall|j: int|
            0 <= j < spec_deps(s).len() ==> self.status(#[trigger] spec_deps(s)[j]) is Succeeded
    }

    /// The schedule's invariant: no stage has ever been handed out before
    /// all of its prerequisites succeeded.
    pub open spec fn wf(self) -> bool {
        forall|s: Stage| stage_begun(#[trigger] self.status(s)) ==> self.deps_succeeded(s)
    }

    /// `s` may be handed out now: it is pending and its prerequisites have
    /// all succeeded.
    pub open spec fn spec_ready(self, s: Stage) -> bool {
        self.status(s) is Pending && self.deps_succeeded(s)
    }

    /// `s` can never run: it is pending and some prerequisite failed or
    /// was skipped.
    pub open spec fn spec_blocked(self, s: Stage) -> bool {
        self.status(s) is Pending && exists|j: int|
            0 <= j < spec_deps(s).len() && (self.status(#[trigger] spec_deps(s)[j]) is Failed
                || self.status(spec_deps(s)[j]) is Skipped)
    }

    /// `self` with stage `s` set to `v` and everything else untouched.
    pub open spec fn with_status(self, s: Stage, v: StageStatus) -> Schedule {
        Schedule {
            clean: if s is Clean {
                v
            } else {
                self.clean
            },
            load_pages: if s is LoadPages {
                v
            } else {
                self.load_pages
            },
            render_content: if s is RenderContent {
                v
            } else {
                self.render_content
            },
            copy_assets: if s is CopyAssets {
                v
            } else {
                self.copy_assets
            },
            compile_css: if s is CompileCss {
                v
            } else {
                self.compile_css
            },
            render_html: if s is RenderHtml {
                v
            } else {
                self.render_html
            },
            render_feed: if s is RenderFeed {
                v
            } else {
                self.render_feed
            },
            log: self.log,
        }
    }

    /// A fresh schedule: everything pending, nothing logged.
    pub fn new() -> (r: Schedule)
        ensures
            r.wf(),
            forall|s: Stage| r.status(s) is Pending,
            r.spec_log() == Seq::<(Stage, bool)>::empty(),
    {
        let r = Schedule {
            clean: StageStatus::Pending,
            load_pages: StageStatus::Pending,
            render_content: StageStatus::Pending,
            copy_assets: StageStatus::Pending,
            compile_css: StageStatus::Pending,
            render_html: StageStatus::Pending,
            render_feed: StageStatus::Pending,
            log: Vec::new(),
        };
        proof {
            assert(r.spec_log() =~= Seq::<(Stage, bool)>::empty());
        }
        r
    }

    /// The status of one stage.
    pub fn status_of(&self, s: Stage) -> (st: StageStatus)
        ensures
            st == self.status(s),
    {
        match s {
            Stage::Clean => self.clean,
            Stage::LoadPages => self.load_pages,
            Stage::RenderContent => self.render_content,
            Stage::CopyAssets => self.copy_assets,
            Stage::CompileCss => self.compile_css,
            Stage::RenderHtml => self.render_html,
            Stage::RenderFeed => self.render_feed,
        }
    }

    fn set_status(&mut self, s: Stage, v: StageStatus)
        ensures
            *final (self) == old(self).with_status(s, v),
    {
        match s {
            Stage::Clean => {
                self.clean = v;
            },
            Stage::LoadPages => {
                self.load_pages = v;
            },
            Stage::RenderContent => {
                self.render_content = v;
            },
            Stage::CopyAssets => {
                self.copy_assets = v;
            },
            Stage::CompileCss => {
                self.compile_css = v;
            },
            Stage::RenderHtml => {
                self.render_html = v;
            },
            Stage::RenderFeed => {
                self.render_feed = v;
            },
        }
    }

    /// Whether `s` may be handed out now.
    pub fn ready(&self, s: Stage) -> (b: bool)
        ensures
            b == self.spec_ready(s),
    {
        let st = self.status_of(s);
        if !(st == StageStatus::Pending) {
            return false;
        }
        let ds = deps_of(s);
        let mut j: usize = 0;
        while j < ds.len()
            invariant
                j <= ds.len(),
                ds@ == spec_deps(s),
                self.status(s) is Pending,
                forall|q: int| 0 <= q < j ==> self.status(#[trigger] spec_deps(s)[q]) is Succeeded,
            decreases ds.len() - j,
        {
            let d = ds[j];
            if !(self.status_of(d) == StageStatus::Succeeded) {
                return false;
            }
            j = j + 1;
        }
        true
    }

    /// Whether `s` can never run.
    pub fn blocked(&self, s: Stage) -> (b: bool)
        ensures
            b == self.spec_blocked(s),
    {
        let st = self.status_of(s);
        if !(st == StageStatus::Pending) {
            return false;
        }
        let ds = deps_of(s);
        let mut j: usize = 0;
        while j < ds.len()
            invariant
                j <= ds.len(),
                ds@ == spec_deps(s),
                self.status(s) is Pending,
                forall|q: int|
                    0 <= q < j ==> !(self.status(#[trigger] spec_deps(s)[q]) is Failed
                        || self.status(spec_deps(s)[q]) is Skipped),
            decreases ds.len() - j,
        {
            let d = ds[j];
            let dst = self.status_of(d);
            if dst == StageStatus::Failed || dst == StageStatus::Skipped {
                proof {
                    assert(self.status(s) is Pending);
                    assert(d == spec_deps(s)[j as int]);
                    assert(self.status(spec_deps(s)[j as int]) is Failed || self.status(
                        spec_deps(s)[j as int],
                    ) is Skipped);
                    assert(self.spec_blocked(s));
                }
                return true;
            }
            j = j + 1;
        }
        false
    }

    /// Hand out a ready stage.
    pub fn start(&mut self, s: Stage)
        requires
            old(self).wf(),
            old(self).spec_ready(s),
        ensures
            *final (self) == old(self).with_status(s, StageStatus::Running),
            final (self).wf(),
    {
        self.set_status(s, StageStatus::Running);
        proof {
            let sc0 = *old(self);
            let sc = *self;
            assert forall|t: Stage| stage_begun(sc.status(t)) implies sc.deps_succeeded(t) by {
                if t == s {
                    assert forall|j: int| 0 <= j < spec_deps(t).len() implies sc.status(
                        #[trigger] spec_deps(t)[j],
                    ) is Succeeded by {
                        assert(sc0.status(spec_deps(t)[j]) is Succeeded);
                    }
                } else {
                    assert(stage_begun(sc0.status(t)));
                    assert(sc0.deps_succeeded(t));
                    assert forall|j: int| 0 <= j < spec_deps(t).len() implies sc.status(
                        #[trigger] spec_deps(t)[j],
                    ) is Succeeded by {
                        assert(sc0.status(spec_deps(t)[j]) is Succeeded);
                    }
                }
            }
        }
    }

    /// Retire a blocked stage.
    pub fn skip(&mut self, s: Stage)
        requires
            old(self).wf(),
            old(self).spec_blocked(s),
        ensures
            *final (self) == old(self).with_status(s, StageStatus::Skipped),
            final (self).wf(),
    {
        self.set_status(s, StageStatus::Skipped);
        proof {
            let sc0 = *old(self);
            let sc = *self;
            assert forall|t: Stage| stage_begun(sc.status(t)) implies sc.deps_succeeded(t) by {
                assert(stage_begun(sc0.status(t)));
                assert(sc0.deps_succeeded(t));
                assert forall|j: int| 0 <= j < spec_deps(t).len() implies sc.status(
                    #[trigger] spec_deps(t)[j],
                ) is Succeeded by {
                    assert(sc0.status(spec_deps(t)[j]) is Succeeded);
                }
            }
        }
    }

    /// Record a running stage's outcome.
    pub fn complete(&mut self, s: Stage, ok: bool)
        requires
            old(self).wf(),
            old(self).status(s) is Running,
        ensures
            final (self).wf(),
            forall|t: Stage|
                final (self).status(t) == if t == s {
                    if ok {
                        StageStatus::Succeeded
                    } else {
                        StageStatus::Failed
                    }
                } else {
                    old(self).status(t)
                },
            final (self).spec_log() == old(self).spec_log() + seq![(s, ok)],
    {
        let v = if ok {
            StageStatus::Succeeded
        } else {
            StageStatus::Failed
        };
        self.set_status(s, v);
        self.log.push((s, ok));
        proof {
            let sc0 = *old(self);
            let sc = *self;
            assert(sc.spec_log() =~= sc0.spec_log() + seq![(s, ok)]);
            assert forall|t: Stage| stage_begun(sc.status(t)) implies sc.deps_succeeded(t) by {
                assert(stage_begun(sc0.status(t)));
                assert(sc0.deps_succeeded(t));
                assert forall|j: int| 0 <= j < spec_deps(t).len() implies sc.status(
                    #[trigger] spec_deps(t)[j],
                ) is Succeeded by {
                    assert(sc0.status(spec_deps(t)[j]) is Succeeded);
                }
            }
        }
    }

    /// One pass of the scheduler over stage `s`: hand it out if ready,
    /// retire it if blocked, leave it otherwise.
    pub open spec fn advance_one(self, s: Stage) -> Schedule {
        if self.spec_ready(s) {
            self.with_status(s, StageStatus::Running)
        } else if self.spec_blocked(s) {
            self.with_status(s, StageStatus::Skipped)
        } else {
            self
        }
    }

    /// The scheduler's pass over the first `k` stages in topological
    /// order.
    pub open spec fn advance_upto(self, k: int) -> Schedule
        decreases k,
    {
        if k <= 0 {
            self
        } else {
            self.advance_upto(k - 1).advance_one(stage_order()[k - 1])
        }
    }

    /// The stages that the pass over the first `k` stages hands out, in
    /// order.
    pub open spec fn started_upto(self, k: int) -> Seq<Stage>
        decreases k,
    {
        if k <= 0 {
            Seq::empty()
        } else {
            self.started_upto(k - 1) + (if self.advance_upto(k - 1).spec_ready(
                stage_order()[k - 1],
            ) {
                seq![stage_order()[k - 1]]
            } else {
                Seq::empty()
            })
        }
    }

    /// One scheduler pass: hand out every stage that is ready, retire
    /// every stage that is blocked, in topological order, so that a stage
    /// blocked only through an earlier skip in the same pass is retired
    /// too.  Returns the stages handed out, for the runner to perform
    /// concurrently.
    pub fn start_ready(&mut self) -> (started: Vec<Stage>)
        requires
            old(self).wf(),
        ensures
            final (self).wf(),
            *final (self) == old(self).advance_upto(stage_order().len() as int),
            started@ == old(self).started_upto(stage_order().len() as int),
    {
        let ghost sc0 = *self;
        let stages = all_stages();
        let mut started: Vec<Stage> = Vec::new();
        let mut i: usize = 0;
        proof {
            assert(started@ =~= sc0.started_upto(0));
        }
        while i < stages.len()
            invariant
                i <= stages.len(),
                stages@ == stage_order(),
                self.wf(),
                *self == sc0.advance_upto(i as int),
                started@ == sc0.started_upto(i as int),
            decreases stages.len() - i,
        {
            let s = stages[i];
            let ghost before = started@;
            if self.ready(s) {
                self.start(s);
                started.push(s);
                proof {
                    assert(started@ =~= before + seq![s]);
                }
            } else if self.blocked(s) {
                self.skip(s);
            } else {
                proof {
                    assert(started@ =~= before + Seq::<Stage>::empty());
                }
            }
            i = i + 1;
        }
        started
    }

    /// Whether every stage has been resolved: succeeded, failed, or
    /// skipped.
    pub open spec fn spec_finished(self) -> bool {
        forall|s: Stage|
            #[trigger] self.status(s) is Succeeded || self.status(s) is Failed || self.status(
                s,
            ) is Skipped
    }

    /// Whether the build is over: every stage resolved.
    pub fn finished(&self) -> (b: bool)
        ensures
            b == self.spec_finished(),
    {
        let stages = all_stages();
        let mut i: usize = 0;
        while i < stages.len()
            invariant
                i <= stages.len(),
                stages@ == stage_order(),
                forall|q: int|
                    0 <= q < i ==> (#[trigger] self.status(stage_order()[q]) is Succeeded
                        || self.status(stage_order()[q]) is Failed || self.status(
                        stage_order()[q],
                    ) is Skipped),
            decreases stages.len() - i,
        {
            let st = self.status_of(stages[i]);
            if !(st == StageStatus::Succeeded || st == StageStatus::Failed || st
                == StageStatus::Skipped) {
                return false;
            }
            i = i + 1;
        }
        proof {
            assert forall|s: Stage|
                #[trigger] self.status(s) is Succeeded || self.status(s) is Failed || self.status(
                    s,
                ) is Skipped by {
                assert(stage_order().contains(s)) by {
                    match s {
                        Stage::Clean => assert(stage_order()[0] == s),
                        Stage::LoadPages => assert(stage_order()[1] == s),
                        Stage::RenderContent => assert(stage_order()[2] == s),
                        Stage::CopyAssets => assert(stage_order()[3] == s),
                        Stage::CompileCss => assert(stage_order()[4] == s),
                        Stage::RenderHtml => assert(stage_order()[5] == s),
                        Stage::RenderFeed => assert(stage_order()[6] == s),
                    }
                }
                let q = choose|q: int| 0 <= q < stage_order().len() && stage_order()[q] == s;
                assert(self.status(stage_order()[q]) is Succeeded || self.status(
                    stage_order()[q],
                ) is Failed || self.status(stage_order()[q]) is Skipped);
            }
        }
        true
    }

    /// The first failure in the completion log, if any.
    pub open spec fn spec_first_failed(log: Seq<(Stage, bool)>) -> Option<Stage>
        decreases log.len(),
    {
        if log.len() == 0 {
            None
        } else if !log[0].1 {
            Some(log[0].0)
        } else {
            Self::spec_first_failed(log.drop_first())
        }
    }

    /// The first stage that reported an error, in completion order: the
    /// one actionable error the whole build surfaces.
    pub fn first_failed(&self) -> (r: Option<Stage>)
        ensures
            r == Self::spec_first_failed(self.spec_log()),
    {
        let mut i: usize = 0;
        let n = self.log.len();
        proof {
            assert(self.log@.skip(0) =~= self.log@);
        }
        while i < n
            invariant
                i <= n,
                n == self.log@.len(),
                Self::spec_first_failed(self.log@) == Self::spec_first_failed(
                    self.log@.skip(i as int),
                ),
            decreases n - i,
        {
            let (s, ok) = self.log[i];
            proof {
                assert(self.log@.skip(i as int)[0] == self.log@[i as int]);
                assert(self.log@.skip(i as int).drop_first() =~= self.log@.skip(i as int + 1));
            }
            if !ok {
                return Some(s);
            }
            i = i + 1;
        }
        proof {
            assert(self.log@.skip(n as int).len() == 0);
        }
        None
    }
}

// ---------------------------------------------------------------------------
// The orchestrator's laws.
// ---------------------------------------------------------------------------

/// No stage ever begins before each of its prerequisites has succeeded.
pub proof fn lemma_stage_barrier(sc: Schedule, s: Stage, j: int)
    requires
        sc.wf(),
        stage_begun(sc.status(s)),
        0 <= j < spec_deps(s).len(),
    ensures
        sc.status(spec_deps(s)[j]) is Succeeded,
{
}

/// HTML and feed rendering never begin before content rendering has
/// finished for all pages: both stages wait on the full content barrier.
pub proof fn lemma_output_waits_for_content(sc: Schedule)
    requires
        sc.wf(),
        stage_begun(sc.status(Stage::RenderHtml)) || stage_begun(sc.status(Stage::RenderFeed)),
    ensures
        sc.status(Stage::RenderContent) is Succeeded,
{
    if stage_begun(sc.status(Stage::RenderHtml)) {
        assert(spec_deps(Stage::RenderHtml)[1] == Stage::RenderContent);
        lemma_stage_barrier(sc, Stage::RenderHtml, 1);
    } else {
        assert(spec_deps(Stage::RenderFeed)[0] == Stage::RenderContent);
        lemma_stage_barrier(sc, Stage::RenderFeed, 0);
    }
}

/// Cleaning fully completes before any writer stage begins: no byte is
/// written under the output directory before it has been removed and
/// recreated.
pub proof fn lemma_clean_before_writers(sc: Schedule)
    requires
        sc.wf(),
        stage_begun(sc.status(Stage::CopyAssets)) || stage_begun(sc.status(Stage::CompileCss))
            || stage_begun(sc.status(Stage::RenderHtml)),
    ensures
        sc.status(Stage::Clean) is Succeeded,
{
    if stage_begun(sc.status(Stage::CopyAssets)) {
        assert(spec_deps(Stage::CopyAssets)[0] == Stage::Clean);
        lemma_stage_barrier(sc, Stage::CopyAssets, 0);
    } else if stage_begun(sc.status(Stage::CompileCss)) {
        assert(spec_deps(Stage::CompileCss)[0] == Stage::Clean);
        lemma_stage_barrier(sc, Stage::CompileCss, 0);
    } else {
        assert(spec_deps(Stage::RenderHtml)[0] == Stage::Clean);
        lemma_stage_barrier(sc, Stage::RenderHtml, 0);
    }
}

/// A failed content stage keeps both output stages from ever starting: no
/// page is written when any page's rendering failed.
pub proof fn lemma_failed_content_blocks_output(sc: Schedule)
    requires
        sc.wf(),
        sc.status(Stage::RenderContent) is Failed,
    ensures
        !stage_begun(sc.status(Stage::RenderHtml)),
        !stage_begun(sc.status(Stage::RenderFeed)),
{
    if stage_begun(sc.status(Stage::RenderHtml)) {
        lemma_output_waits_for_content(sc);
    }
    if stage_begun(sc.status(Stage::RenderFeed)) {
        lemma_output_waits_for_content(sc);
    }
}

/// The scheduler never deadlocks: while some stage is pending and none is
/// running, some pending stage is ready to hand out or blocked for good.
pub proof fn lemma_scheduler_progress(sc: Schedule)
    requires
        sc.wf(),
        exists|s: Stage| sc.status(s) is Pending,
        forall|s: Stage| !(#[trigger] sc.status(s) is Running),
    ensures
        exists|s: Stage|
            #![trigger sc.spec_ready(s)]
            #![trigger sc.spec_blocked(s)]
            sc.spec_ready(s) || sc.spec_blocked(s),
{
    if sc.status(Stage::Clean) is Pending {
        assert(sc.spec_ready(Stage::Clean));
    } else if sc.status(Stage::LoadPages) is Pending {
        assert(sc.spec_ready(Stage::LoadPages));
    } else if sc.status(Stage::RenderContent) is Pending {
        assert(!(sc.status(Stage::LoadPages) is Pending));
        assert(!(sc.status(Stage::LoadPages) is Running));
        if sc.status(Stage::LoadPages) is Succeeded {
            assert(sc.spec_ready(Stage::RenderContent));
        } else {
            assert(spec_deps(Stage::RenderContent)[0] == Stage::LoadPages);
            assert(sc.spec_blocked(Stage::RenderContent));
        }
    } else if sc.status(Stage::CopyAssets) is Pending {
        if sc.status(Stage::Clean) is Succeeded {
            assert(sc.spec_ready(Stage::CopyAssets));
        } else {
            assert(spec_deps(Stage::CopyAssets)[0] == Stage::Clean);
            assert(sc.spec_blocked(Stage::CopyAssets));
        }
    } else if sc.status(Stage::CompileCss) is Pending {
        if sc.status(Stage::Clean) is Succeeded {
            assert(sc.spec_ready(Stage::CompileCss));
        } else {
            assert(spec_deps(Stage::CompileCss)[0] == Stage::Clean);
            assert(sc.spec_blocked(Stage::CompileCss));
        }
    } else if sc.status(Stage::RenderHtml) is Pending {
        if sc.status(Stage::Clean) is Succeeded && sc.status(Stage::RenderContent) is Succeeded {
            assert(sc.spec_ready(Stage::RenderHtml));
        } else {
            assert(spec_deps(Stage::RenderHtml)[0] == Stage::Clean);
            assert(spec_deps(Stage::RenderHtml)[1] == Stage::RenderContent);
            assert(sc.spec_blocked(Stage::RenderHtml));
        }
    } else {
        assert(sc.status(Stage::RenderFeed) is Pending) by {
            let p = choose|s: Stage| sc.status(s) is Pending;
            match p {
                Stage::RenderFeed => {},
                _ => {
                    assert(false);
                },
            }
        }
        if sc.status(Stage::RenderContent) is Succeeded {
            assert(sc.spec_ready(Stage::RenderFeed));
        } else {
            assert(spec_deps(Stage::RenderFeed)[0] == Stage::RenderContent);
            assert(sc.spec_blocked(Stage::RenderFeed));
        }
    }
}

} // verus!
