//! The recursive track resolver, as a step machine.
//!
//! An [`Expander`] holds the work still to do (a stack of paths), the tracks
//! found so far, and a phase saying what it waits for. The driver asks it for
//! the next [`Request`], performs that one filesystem operation, and feeds
//! the outcome back. Every decision — resolution, classification, playlist
//! filtering and decoding, ordering, fail-fast — is made here and verified;
//! the I/O itself stays with the driver.
//!
//! Work is demand-driven: no filesystem operation is requested beyond the
//! one the driver is currently asked for, and a driver that stops polling
//! causes no further expansion.

use vstd::prelude::*;
use crate::decode::{percent_decode, percent_decoded};
use crate::errors::Error;
use crate::lines::{filter_line, filter_line_spec};
use crate::paths::{is_playlist, is_playlist_spec};
use crate::resolve::{resolve_spec, RootContext, RootContextView};

verus! {

/// One unit of pending work: a path still to be expanded.
pub enum Pending {
    /// A path as written, possibly relative: still to resolve against the
    /// root. The starting path and playlist lines enter this way.
    Raw(String),
    /// An already absolute path: a directory entry.
    Abs(String),
}

/// The mathematical content of a [`Pending`] item.
pub enum PendingView {
    Raw(Seq<char>),
    Abs(Seq<char>),
}

impl View for Pending {
    type V = PendingView;

    open spec fn view(&self) -> PendingView {
        match self {
            Pending::Raw(s) => PendingView::Raw(s@),
            Pending::Abs(s) => PendingView::Abs(s@),
        }
    }
}

impl DeepView for Pending {
    type V = PendingView;

    open spec fn deep_view(&self) -> PendingView {
        self.view()
    }
}

/// What the machine waits for.
pub enum Phase {
    /// Ready to take the next pending item.
    Idle,
    /// A metadata query for this absolute path is outstanding.
    AwaitMeta(String),
    /// A directory enumeration for this absolute path is outstanding.
    AwaitDir(String),
    /// A playlist read for this absolute path is outstanding.
    AwaitLines(String),
    /// Every pending item has been expanded.
    Done,
    /// The run aborted with its first error; nothing further is expanded.
    Failed(Error),
}

/// The mathematical content of a [`Phase`].
pub enum PhaseView {
    Idle,
    AwaitMeta(Seq<char>),
    AwaitDir(Seq<char>),
    AwaitLines(Seq<char>),
    Done,
    Failed(Error),
}

impl View for Phase {
    type V = PhaseView;

    open spec fn view(&self) -> PhaseView {
        match self {
            Phase::Idle => PhaseView::Idle,
            Phase::AwaitMeta(p) => PhaseView::AwaitMeta(p@),
            Phase::AwaitDir(p) => PhaseView::AwaitDir(p@),
            Phase::AwaitLines(p) => PhaseView::AwaitLines(p@),
            Phase::Done => PhaseView::Done,
            Phase::Failed(e) => PhaseView::Failed(*e),
        }
    }
}

/// A filesystem operation the machine asks its driver to perform.
#[derive(Debug)]
pub enum Request {
    /// Query metadata: is this absolute path a directory?
    Stat(String),
    /// Enumerate the immediate entries of this directory, as absolute paths,
    /// in enumeration order.
    ReadDir(String),
    /// Read the raw text lines of this playlist file, in file order.
    ReadLines(String),
}

/// The mathematical content of a [`Request`].
pub enum RequestView {
    Stat(Seq<char>),
    ReadDir(Seq<char>),
    ReadLines(Seq<char>),
}

impl View for Request {
    type V = RequestView;

    open spec fn view(&self) -> RequestView {
        match self {
            Request::Stat(p) => RequestView::Stat(p@),
            Request::ReadDir(p) => RequestView::ReadDir(p@),
            Request::ReadLines(p) => RequestView::ReadLines(p@),
        }
    }
}

impl DeepView for Request {
    type V = RequestView;

    open spec fn deep_view(&self) -> RequestView {
        self.view()
    }
}

/// The mathematical content of an [`Expander`]. The last pending item is the
/// top of the work stack: the one expanded next.
#[verifier::ext_equal]
pub struct ExpanderView {
    pub ctx: RootContextView,
    pub pending: Seq<PendingView>,
    pub tracks: Seq<Seq<char>>,
    pub phase: PhaseView,
}

/// The state right after seeding the machine with the user-supplied path.
pub open spec fn init_spec(ctx: RootContextView, path: Seq<char>) -> ExpanderView {
    ExpanderView {
        ctx,
        pending: seq![PendingView::Raw(path)],
        tracks: Seq::empty(),
        phase: PhaseView::Idle,
    }
}

/// What [`Expander::poll`] does: take the top pending item, resolve it, and
/// either request its metadata or abort with the resolution error. An empty
/// stack means the run is complete.
pub open spec fn poll_spec(m: ExpanderView) -> (ExpanderView, Option<RequestView>) {
    if !(m.phase is Idle) {
        (m, None)
    } else if m.pending.len() == 0 {
        (ExpanderView { phase: PhaseView::Done, ..m }, None)
    } else {
        let rest = m.pending.drop_last();
        let resolved = match m.pending.last() {
            PendingView::Raw(p) => resolve_spec(m.ctx, p),
            PendingView::Abs(p) => Ok(p),
        };
        match resolved {
            Ok(abs) => (
                ExpanderView { pending: rest, phase: PhaseView::AwaitMeta(abs), ..m },
                Some(RequestView::Stat(abs)),
            ),
            Err(e) => (ExpanderView { pending: rest, phase: PhaseView::Failed(e), ..m }, None),
        }
    }
}

/// What [`Expander::on_meta`] does: a directory is enumerated, a playlist is
/// read line by line, and anything else is a leaf — exactly one track, the
/// absolute path itself.
pub open spec fn on_meta_spec(m: ExpanderView, is_dir: bool) -> (ExpanderView, Option<
    RequestView,
>) {
    match m.phase {
        PhaseView::AwaitMeta(p) => if is_dir {
            (
                ExpanderView { phase: PhaseView::AwaitDir(p), ..m },
                Some(RequestView::ReadDir(p)),
            )
        } else if is_playlist_spec(p) {
            (
                ExpanderView { phase: PhaseView::AwaitLines(p), ..m },
                Some(RequestView::ReadLines(p)),
            )
        } else {
            (ExpanderView { tracks: m.tracks.push(p), phase: PhaseView::Idle, ..m }, None)
        },
        _ => (m, None),
    }
}

/// Directory entries stacked so that the first entry is expanded first.
pub open spec fn queued_entries(entries: Seq<Seq<char>>) -> Seq<PendingView> {
    entries.reverse().map_values(|p: Seq<char>| PendingView::Abs(p))
}

/// What [`Expander::on_entries`] does: stack every entry of the enumerated
/// directory, to be expanded in enumeration order.
pub open spec fn on_entries_spec(m: ExpanderView, entries: Seq<Seq<char>>) -> ExpanderView {
    match m.phase {
        PhaseView::AwaitDir(_) => ExpanderView {
            pending: m.pending + queued_entries(entries),
            phase: PhaseView::Idle,
            ..m
        },
        _ => m,
    }
}

/// The candidate paths of a playlist: each line trimmed, blanks and comments
/// dropped, the rest percent-decoded, in file order; the first undecodable
/// line aborts the whole run.
pub open spec fn candidates_spec(lines: Seq<Seq<char>>) -> Result<Seq<Seq<char>>, Error>
    decreases lines.len(),
{
    if lines.len() == 0 {
        Ok(Seq::empty())
    } else {
        match filter_line_spec(lines.first()) {
            None => candidates_spec(lines.drop_first()),
            Some(cand) => match percent_decoded(cand) {
                None => Err(Error::Utf8),
                Some(dec) => match candidates_spec(lines.drop_first()) {
                    Ok(rest) => Ok(seq![dec] + rest),
                    Err(e) => Err(e),
                },
            },
        }
    }
}

/// Playlist candidates stacked so that the first line is expanded first.
/// They re-enter as raw paths: a playlist line may be relative and passes
/// through root resolution again.
pub open spec fn queued_candidates(cands: Seq<Seq<char>>) -> Seq<PendingView> {
    cands.reverse().map_values(|p: Seq<char>| PendingView::Raw(p))
}

/// What [`Expander::on_lines`] does: filter and decode the playlist's lines,
/// then stack the candidates in file order; an undecodable line fails the
/// run instead.
pub open spec fn on_lines_spec(m: ExpanderView, lines: Seq<Seq<char>>) -> ExpanderView {
    match m.phase {
        PhaseView::AwaitLines(_) => match candidates_spec(lines) {
            Ok(cands) => ExpanderView {
                pending: m.pending + queued_candidates(cands),
                phase: PhaseView::Idle,
                ..m
            },
            Err(e) => ExpanderView { phase: PhaseView::Failed(e), ..m },
        },
        _ => m,
    }
}

/// What [`Expander::on_failure`] does: abort the run with the first error.
pub open spec fn on_failure_spec(m: ExpanderView, e: Error) -> ExpanderView {
    match m.phase {
        PhaseView::AwaitMeta(_) => ExpanderView { phase: PhaseView::Failed(e), ..m },
        PhaseView::AwaitDir(_) => ExpanderView { phase: PhaseView::Failed(e), ..m },
        PhaseView::AwaitLines(_) => ExpanderView { phase: PhaseView::Failed(e), ..m },
        _ => m,
    }
}

/// The recursive track resolver. See the module documentation for the
/// driving protocol.
pub struct Expander {
    ctx: RootContext,
    pending: Vec<Pending>,
    tracks: Vec<String>,
    phase: Phase,
}

impl View for Expander {
    type V = ExpanderView;

    closed spec fn view(&self) -> ExpanderView {
        ExpanderView {
            ctx: self.ctx@,
            pending: self.pending.deep_view(),
            tracks: self.tracks.deep_view(),
            phase: self.phase@,
        }
    }
}

impl Expander {
    /// Seed a resolution run: the context is fixed for the whole run, and
    /// the user-supplied path is the first unit of work.
    pub fn new(ctx: RootContext, path: String) -> (m: Self)
        ensures
            m@ == init_spec(ctx@, path@),
    {
        let ghost path0 = path@;
        let mut pending: Vec<Pending> = Vec::new();
        pending.push(Pending::Raw(path));
        let m = Expander { ctx, pending, tracks: Vec::new(), phase: Phase::Idle };
        proof {
            assert(m@.pending =~= seq![PendingView::Raw(path0)]);
            assert(m@.tracks =~= Seq::<Seq<char>>::empty());
            assert(m@ =~= init_spec(m@.ctx, path0));
        }
        m
    }

    /// Take the next pending item and ask for its metadata; report the run
    /// complete when nothing is pending. A resolution failure aborts the
    /// run. Returns `None` exactly when there is nothing to ask the driver.
    pub fn poll(&mut self) -> (r: Option<Request>)
        ensures
            final(self)@ == poll_spec(old(self)@).0,
            r.deep_view() == poll_spec(old(self)@).1,
    {
        if !matches!(self.phase, Phase::Idle) {
            return None;
        }
        let ghost m0 = self@;
        if self.pending.len() == 0 {
            self.phase = Phase::Done;
            proof {
                assert(self@ =~= poll_spec(m0).0);
            }
            return None;
        }
        let top = self.pending.pop().unwrap();
        proof {
            assert(self.pending.deep_view() =~= m0.pending.drop_last());
            assert(top.deep_view() == m0.pending.last());
        }
        let resolved = match &top {
            Pending::Raw(p) => self.ctx.resolve(p.as_str()),
            Pending::Abs(p) => Ok(p.clone()),
        };
        match resolved {
            Ok(abs) => {
                self.phase = Phase::AwaitMeta(abs.clone());
                proof {
                    assert(self@ =~= poll_spec(m0).0);
                }
                Some(Request::Stat(abs))
            },
            Err(e) => {
                self.phase = Phase::Failed(e);
                proof {
                    assert(self@ =~= poll_spec(m0).0);
                }
                None
            },
        }
    }

    /// Classify the path whose metadata query the driver answered: recurse
    /// into a directory, read a playlist, or emit a leaf as one track.
    pub fn on_meta(&mut self, is_dir: bool) -> (r: Option<Request>)
        ensures
            final(self)@ == on_meta_spec(old(self)@, is_dir).0,
            r.deep_view() == on_meta_spec(old(self)@, is_dir).1,
    {
        let ghost m0 = self@;
        let pth = match &self.phase {
            Phase::AwaitMeta(p) => p.clone(),
            _ => { return None; },
        };
        if is_dir {
            self.phase = Phase::AwaitDir(pth.clone());
            proof {
                assert(self@ =~= on_meta_spec(m0, is_dir).0);
            }
            Some(Request::ReadDir(pth))
        } else if is_playlist(pth.as_str()) {
            self.phase = Phase::AwaitLines(pth.clone());
            proof {
                assert(self@ =~= on_meta_spec(m0, is_dir).0);
            }
            Some(Request::ReadLines(pth))
        } else {
            let ghost p0 = pth@;
            self.tracks.push(pth);
            self.phase = Phase::Idle;
            proof {
                assert(self.tracks.deep_view() =~= m0.tracks.push(p0));
                assert(self@ =~= on_meta_spec(m0, is_dir).0);
            }
            None
        }
    }

    /// Stack the entries of the directory the driver enumerated, first entry
    /// on top.
    pub fn on_entries(&mut self, entries: Vec<String>)
        ensures
            final(self)@ == on_entries_spec(old(self)@, entries.deep_view()),
    {
        let ghost m0 = self@;
        let ghost entries0 = entries.deep_view();
        if !matches!(self.phase, Phase::AwaitDir(_)) {
            return ;
        }
        let mut es = entries;
        let ghost n = entries0.len() as int;
        while es.len() > 0
            invariant
                es.deep_view() == entries0.subrange(0, es.len() as int),
                es.len() <= n,
                n == entries0.len(),
                self.ctx@ == m0.ctx,
                self.tracks.deep_view() == m0.tracks,
                self.phase@ == m0.phase,
                self.pending.deep_view() == m0.pending + queued_entries(
                    entries0.subrange(es.len() as int, n),
                ),
            decreases es.len(),
        {
            let ghost k = es.len() as int;
            let ghost es_pre = es.deep_view();
            let ghost esv_pre = es@;
            let e = es.pop().unwrap();
            proof {
                assert(es_pre[k - 1] == esv_pre[k - 1].deep_view());
                assert(e == esv_pre[k - 1]);
                assert(e@ == entries0[k - 1]);
                assert(es.deep_view() =~= entries0.subrange(0, k - 1));
            }
            let ghost pend_pre = self.pending.deep_view();
            self.pending.push(Pending::Abs(e));
            proof {
                assert(self.pending.deep_view() =~= pend_pre.push(PendingView::Abs(entries0[k
                    - 1])));
                assert(queued_entries(entries0.subrange(k - 1, n)) =~= queued_entries(
                    entries0.subrange(k, n),
                ).push(PendingView::Abs(entries0[k - 1])));
                assert(self.pending.deep_view() =~= m0.pending + queued_entries(
                    entries0.subrange(k - 1, n),
                ));
            }
        }
        self.phase = Phase::Idle;
        proof {
            assert(entries0.subrange(0, n) =~= entries0);
            assert(self@ =~= on_entries_spec(m0, entries0));
        }
    }

    /// Filter and decode the playlist lines the driver read, and stack the
    /// resulting candidate paths, first line on top; an undecodable line
    /// aborts the run.
    pub fn on_lines(&mut self, lines: Vec<String>)
        ensures
            final(self)@ == on_lines_spec(old(self)@, lines.deep_view()),
    {
        let ghost m0 = self@;
        let ghost lines0 = lines.deep_view();
        if !matches!(self.phase, Phase::AwaitLines(_)) {
            return ;
        }
        let n = lines.len();
        let mut cands: Vec<String> = Vec::new();
        let mut i: usize = 0;
        proof {
            assert(lines0.skip(0) =~= lines0);
        }
        #[verifier::loop_isolation(false)]
        while i < n
            invariant
                0 <= i <= n,
                n == lines0.len(),
                lines.deep_view() == lines0,
                self@ == m0,
                m0.phase is AwaitLines,
                match candidates_spec(lines0.skip(i as int)) {
                    Ok(rest) => candidates_spec(lines0) == Ok::<Seq<Seq<char>>, Error>(
                        cands.deep_view() + rest,
                    ),
                    Err(e) => candidates_spec(lines0) == Err::<Seq<Seq<char>>, Error>(e),
                },
            decreases n - i,
        {
            let ghost rest0 = lines0.skip(i as int);
            proof {
                assert(rest0.first() == lines0[i as int]);
                assert(rest0.drop_first() =~= lines0.skip(i as int + 1));
            }
            let filtered = filter_line(lines[i].as_str());
            match filtered {
                None => {},
                Some(cand) => {
                    match percent_decode(cand) {
                        Some(dec) => {
                            let ghost dec0 = dec@;
                            let ghost cands0 = cands.deep_view();
                            cands.push(dec);
                            proof {
                                assert(cands.deep_view() =~= cands0.push(dec0));
                                if candidates_spec(lines0.skip(i as int + 1)) is Ok {
                                    let tail = candidates_spec(lines0.skip(i as int + 1))->Ok_0;
                                    assert(cands0 + (seq![dec0] + tail) =~= cands0.push(dec0)
                                        + tail);
                                }
                            }
                        },
                        None => {
                            self.phase = Phase::Failed(Error::Utf8);
                            proof {
                                assert(candidates_spec(rest0) == Err::<Seq<Seq<char>>, Error>(
                                    Error::Utf8,
                                ));
                                assert(candidates_spec(lines0) == Err::<
                                    Seq<Seq<char>>,
                                    Error,
                                >(Error::Utf8));
                                assert(self@ =~= on_lines_spec(m0, lines0));
                            }
                            return ;
                        },
                    }
                },
            }
            i = i + 1;
        }
        proof {
            assert(lines0.skip(n as int) =~= Seq::<Seq<char>>::empty());
            assert(candidates_spec(lines0) == Ok::<Seq<Seq<char>>, Error>(
                cands.deep_view() + Seq::<Seq<char>>::empty(),
            ));
            assert(cands.deep_view() + Seq::<Seq<char>>::empty() =~= cands.deep_view());
        }
        let ghost cands_all = cands.deep_view();
        let ghost nc = cands_all.len() as int;
        let mut cs = cands;
        while cs.len() > 0
            invariant
                cs.deep_view() == cands_all.subrange(0, cs.len() as int),
                cs.len() <= nc,
                nc == cands_all.len(),
                self.ctx@ == m0.ctx,
                self.tracks.deep_view() == m0.tracks,
                self.phase@ == m0.phase,
                self.pending.deep_view() == m0.pending + queued_candidates(
                    cands_all.subrange(cs.len() as int, nc),
                ),
            decreases cs.len(),
        {
            let ghost k = cs.len() as int;
            let ghost cs_pre = cs.deep_view();
            let ghost csv_pre = cs@;
            let c = cs.pop().unwrap();
            proof {
                assert(cs_pre[k - 1] == csv_pre[k - 1].deep_view());
                assert(c == csv_pre[k - 1]);
                assert(c@ == cands_all[k - 1]);
                assert(cs.deep_view() =~= cands_all.subrange(0, k - 1));
            }
            let ghost pend_pre = self.pending.deep_view();
            self.pending.push(Pending::Raw(c));
            proof {
                assert(self.pending.deep_view() =~= pend_pre.push(PendingView::Raw(cands_all[k
                    - 1])));
                assert(queued_candidates(cands_all.subrange(k - 1, nc)) =~= queued_candidates(
                    cands_all.subrange(k, nc),
                ).push(PendingView::Raw(cands_all[k - 1])));
                assert(self.pending.deep_view() =~= m0.pending + queued_candidates(
                    cands_all.subrange(k - 1, nc),
                ));
            }
        }
        self.phase = Phase::Idle;
        proof {
            assert(cands_all.subrange(0, nc) =~= cands_all);
            assert(self@ =~= on_lines_spec(m0, lines0));
        }
    }

    /// Record the failure of the outstanding filesystem operation; the run
    /// aborts with it.
    pub fn on_failure(&mut self, e: Error)
        ensures
            final(self)@ == on_failure_spec(old(self)@, e),
    {
        match &self.phase {
            Phase::AwaitMeta(_) => {
                self.phase = Phase::Failed(e);
            },
            Phase::AwaitDir(_) => {
                self.phase = Phase::Failed(e);
            },
            Phase::AwaitLines(_) => {
                self.phase = Phase::Failed(e);
            },
            _ => {},
        }
    }

    /// Whether the run has ended, in success or failure.
    pub fn is_finished(&self) -> (b: bool)
        ensures
            b == (self@.phase is Done || self@.phase is Failed),
    {
        matches!(self.phase, Phase::Done | Phase::Failed(_))
    }

    /// The outcome of a finished run: every track found, in emission order,
    /// or the single first error that aborted it.
    pub fn finish(self) -> (r: Result<Vec<String>, Error>)
        requires
            self@.phase is Done || self@.phase is Failed,
        ensures
            match r {
                Ok(ts) => self@.phase is Done && ts.deep_view() == self@.tracks,
                Err(e) => self@.phase == PhaseView::Failed(e),
            },
    {
        let Expander { phase, tracks, .. } = self;
        match phase {
            Phase::Done => Ok(tracks),
            Phase::Failed(e) => Err(e),
            _ => {
                proof {
                    assert(false);
                }
                Err(Error::Io)
            },
        }
    }
}

/// The meaningful lines of a playlist: each line trimmed, blanks and
/// comment lines dropped, the rest kept in file order.
pub open spec fn meaningful_lines(lines: Seq<Seq<char>>) -> Seq<Seq<char>>
    decreases lines.len(),
{
    if lines.len() == 0 {
        Seq::empty()
    } else {
        match filter_line_spec(lines.first()) {
            None => meaningful_lines(lines.drop_first()),
            Some(c) => seq![c] + meaningful_lines(lines.drop_first()),
        }
    }
}

/// Playlist filtering: when every meaningful line decodes to itself (it
/// holds no escape), the candidate paths are exactly the trimmed non-blank,
/// non-comment lines, in file order.
pub proof fn lemma_candidates_of_plain_lines(lines: Seq<Seq<char>>)
    requires
        forall|i: int|
            0 <= i < lines.len() ==> match filter_line_spec(#[trigger] lines[i]) {
                Some(c) => percent_decoded(c) == Some(c),
                None => true,
            },
    ensures
        candidates_spec(lines) == Ok::<Seq<Seq<char>>, Error>(meaningful_lines(lines)),
    decreases lines.len(),
{
    if lines.len() > 0 {
        assert(lines[0] == lines.first());
        assert(forall|i: int|
            0 <= i < lines.drop_first().len() ==> lines.drop_first()[i] == lines[i + 1]);
        lemma_candidates_of_plain_lines(lines.drop_first());
    }
}

/// The absolute paths of a stack of directory-entry items.
pub open spec fn leaf_paths(items: Seq<PendingView>) -> Seq<Seq<char>> {
    items.map_values(|it: PendingView| it->Abs_0)
}

/// Every pending item is an absolute path of a plain file: no playlist.
pub open spec fn all_abs_leaves(items: Seq<PendingView>) -> bool {
    forall|i: int|
        0 <= i < items.len() ==> items[i] is Abs && !is_playlist_spec(items[i]->Abs_0)
}

/// The machine driven to the end when every answer to a metadata query is
/// "not a directory": each pending item in turn is taken, stated, and — as a
/// leaf — emitted.
pub open spec fn drain_leaves_spec(m: ExpanderView) -> ExpanderView
    decreases m.pending.len(),
{
    if !(m.phase is Idle) || m.pending.len() == 0 {
        poll_spec(m).0
    } else {
        drain_leaves_spec(on_meta_spec(poll_spec(m).0, false).0)
    }
}

/// Draining a stack of leaf files emits exactly their paths, top of stack
/// first, and completes the run.
pub proof fn lemma_drain_all_leaves(m: ExpanderView)
    requires
        m.phase is Idle,
        all_abs_leaves(m.pending),
    ensures
        drain_leaves_spec(m).phase is Done,
        drain_leaves_spec(m).tracks == m.tracks + leaf_paths(m.pending).reverse(),
        drain_leaves_spec(m).ctx == m.ctx,
        drain_leaves_spec(m).pending.len() == 0,
    decreases m.pending.len(),
{
    if m.pending.len() == 0 {
        assert(m.tracks + leaf_paths(m.pending).reverse() =~= m.tracks);
        assert(drain_leaves_spec(m) =~= poll_spec(m).0);
    } else {
        let p = m.pending.last()->Abs_0;
        let m1 = poll_spec(m).0;
        let m2 = on_meta_spec(m1, false).0;
        assert(m.pending.last() is Abs);
        assert(m1.phase == PhaseView::AwaitMeta(p));
        assert(m2.phase is Idle);
        assert(m2.pending == m.pending.drop_last());
        assert(m2.tracks == m.tracks.push(p));
        assert(all_abs_leaves(m2.pending));
        lemma_drain_all_leaves(m2);
        assert(m.tracks.push(p) + leaf_paths(m.pending.drop_last()).reverse() =~= m.tracks
            + leaf_paths(m.pending).reverse());
    }
}

/// A leaf file path expands to exactly one track: its resolved absolute
/// path. The machine asks for its metadata, and the answer "not a
/// directory" (for a non-playlist path) emits the track and completes the
/// run.
pub proof fn lemma_leaf_yields_one_track(ctx: RootContextView, path: Seq<char>, abs: Seq<char>)
    requires
        resolve_spec(ctx, path) == Ok::<Seq<char>, Error>(abs),
        !is_playlist_spec(abs),
    ensures
        ({
            let m0 = init_spec(ctx, path);
            let m1 = poll_spec(m0).0;
            let m2 = on_meta_spec(m1, false).0;
            let m3 = poll_spec(m2).0;
            poll_spec(m0).1 == Some(RequestView::Stat(abs)) && on_meta_spec(m1, false).1
                is None && m3.phase is Done && m3.tracks == seq![abs]
        }),
{
    let m0 = init_spec(ctx, path);
    assert(m0.pending.last() == PendingView::Raw(path));
    let m1 = poll_spec(m0).0;
    let m2 = on_meta_spec(m1, false).0;
    assert(m2.tracks =~= seq![abs]);
    assert(m2.pending =~= Seq::<PendingView>::empty());
}

/// A directory holding only leaf files expands to exactly its entries'
/// absolute paths, in enumeration order: after the machine stacks the
/// enumerated entries, draining them as leaves emits each one.
pub proof fn lemma_flat_dir_yields_entries(
    ctx: RootContextView,
    path: Seq<char>,
    abs: Seq<char>,
    entries: Seq<Seq<char>>,
)
    requires
        resolve_spec(ctx, path) == Ok::<Seq<char>, Error>(abs),
        forall|i: int| 0 <= i < entries.len() ==> !is_playlist_spec(entries[i]),
    ensures
        ({
            let m0 = init_spec(ctx, path);
            let m1 = poll_spec(m0).0;
            let m2 = on_meta_spec(m1, true).0;
            let m3 = on_entries_spec(m2, entries);
            let mf = drain_leaves_spec(m3);
            poll_spec(m0).1 == Some(RequestView::Stat(abs)) && on_meta_spec(m1, true).1
                == Some(RequestView::ReadDir(abs)) && mf.phase is Done && mf.tracks == entries
        }),
{
    let m0 = init_spec(ctx, path);
    assert(m0.pending.last() == PendingView::Raw(path));
    let m1 = poll_spec(m0).0;
    let m2 = on_meta_spec(m1, true).0;
    let m3 = on_entries_spec(m2, entries);
    assert(m3.pending =~= queued_entries(entries));
    assert(all_abs_leaves(m3.pending));
    lemma_drain_all_leaves(m3);
    assert(leaf_paths(queued_entries(entries)).reverse() =~= entries);
    assert(m3.tracks + leaf_paths(m3.pending).reverse() =~= entries);
}

/// Fail-fast: once the machine has failed, no transition changes it — no
/// track from the failing branch, nor from any sibling after it, is ever
/// added, and the run reports that single first error.
pub proof fn lemma_failed_is_absorbing(
    m: ExpanderView,
    is_dir: bool,
    entries: Seq<Seq<char>>,
    lines: Seq<Seq<char>>,
    e: Error,
)
    requires
        m.phase is Failed,
    ensures
        poll_spec(m).0 == m && poll_spec(m).1 is None,
        on_meta_spec(m, is_dir).0 == m && on_meta_spec(m, is_dir).1 is None,
        on_entries_spec(m, entries) == m,
        on_lines_spec(m, lines) == m,
        on_failure_spec(m, e) == m,
{
}

/// The first resolution failure aborts the run with exactly that error, and
/// adds no track.
pub proof fn lemma_resolution_failure_aborts(m: ExpanderView, e: Error)
    requires
        m.phase is Idle,
        m.pending.len() > 0,
        m.pending.last() matches PendingView::Raw(p) && resolve_spec(m.ctx, p) == Err::<
            Seq<char>,
            Error,
        >(e),
    ensures
        poll_spec(m).0.phase == PhaseView::Failed(e),
        poll_spec(m).0.tracks == m.tracks,
        poll_spec(m).1 is None,
{
}

} // verus!
