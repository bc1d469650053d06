//! The decisions of the download pipeline: which tracks a requested resource
//! stands for, which of them are left out, and the order in which the
//! post-processing stages of a downloaded track run.

use vstd::prelude::*;
use crate::id::{Resource, ResourceId, SpotifyId};
use crate::metadata::{Album, Artist, Disc, Playlist};

verus! {

broadcast use vstd::seq_lib::group_seq_properties;

/// A file on its way through the post-processing stages.
#[derive(Debug, Clone)]
pub struct StageArtifact {
    /// The track being processed.
    pub resource_id: ResourceId,
    /// The path of the file, relative to the stage's working directory.
    pub file_path: String,
}

// ---------------------------------------------------------------------------
// The tracks a resource stands for.
// ---------------------------------------------------------------------------

pub open spec fn rid_ids(rs: Seq<ResourceId>) -> Seq<SpotifyId> {
    rs.map_values(|r: ResourceId| r.id)
}

/// The tracks of the discs, disc after disc, each disc's tracks in order.
pub open spec fn disc_tracks(discs: Seq<Disc>) -> Seq<SpotifyId>
    decreases discs.len(),
{
    if discs.len() == 0 {
        seq![]
    } else {
        disc_tracks(discs.drop_last()) + rid_ids(discs.last().tracks@)
    }
}

/// The releases whose tracks make up an artist's discography: its albums, then
/// its singles, then its compilations (never the albums it only appears on).
pub open spec fn artist_releases(a: Artist) -> Seq<SpotifyId> {
    rid_ids(a.albums@) + rid_ids(a.singles@) + rid_ids(a.compilations@)
}

fn append_ids(out: &mut Vec<SpotifyId>, rs: &Vec<ResourceId>)
    ensures
        final(out)@ == old(out)@ + rid_ids(rs@),
{
    let ghost start = out@;
    let mut i: usize = 0;
    while i < rs.len()
        invariant
            i <= rs@.len(),
            out@ == start + rid_ids(rs@.take(i as int)),
        decreases rs@.len() - i,
    {
        out.push(rs[i].id);
        assert(rid_ids(rs@.take(i + 1)) =~= rid_ids(rs@.take(i as int)).push(rs@[i as int].id));
        i = i + 1;
    }
    assert(rs@.take(rs@.len() as int) =~= rs@);
}

/// The IDs of the releases whose tracks an artist download takes: albums,
/// singles and compilations, in that order.
pub fn artist_release_ids(artist: &Artist) -> (ids: Vec<SpotifyId>)
    ensures
        ids@ == artist_releases(*artist),
{
    let mut ids: Vec<SpotifyId> = Vec::new();
    append_ids(&mut ids, &artist.albums);
    append_ids(&mut ids, &artist.singles);
    append_ids(&mut ids, &artist.compilations);
    assert(ids@ =~= artist_releases(*artist));
    ids
}

/// The IDs of an album's tracks, disc after disc.
pub fn album_track_ids(album: &Album) -> (ids: Vec<SpotifyId>)
    ensures
        ids@ == disc_tracks(album.discs@),
{
    let mut ids: Vec<SpotifyId> = Vec::new();
    let mut i: usize = 0;
    assert(album.discs@.take(0) =~= Seq::<Disc>::empty());
    while i < album.discs.len()
        invariant
            i <= album.discs@.len(),
            ids@ == disc_tracks(album.discs@.take(i as int)),
        decreases album.discs@.len() - i,
    {
        append_ids(&mut ids, &album.discs[i].tracks);
        assert(album.discs@.take(i + 1).drop_last() =~= album.discs@.take(i as int));
        i = i + 1;
    }
    assert(album.discs@.take(album.discs@.len() as int) =~= album.discs@);
    ids
}

/// How many tracks the first `d` discs hold together.
pub open spec fn tracks_before(discs: Seq<Disc>, d: int) -> int
    decreases d,
{
    if d <= 0 {
        0
    } else {
        tracks_before(discs, d - 1) + discs[d - 1].tracks@.len()
    }
}

proof fn lemma_tracks_before_prefix(discs: Seq<Disc>, d: int)
    requires
        0 <= d < discs.len(),
    ensures
        tracks_before(discs.drop_last(), d) == tracks_before(discs, d),
    decreases d,
{
    if d > 0 {
        lemma_tracks_before_prefix(discs, d - 1);
    }
}

proof fn lemma_tracks_before_grows(discs: Seq<Disc>, d: int, e: int)
    requires
        0 <= d <= e,
    ensures
        tracks_before(discs, d) <= tracks_before(discs, e),
    decreases e - d,
{
    if d < e {
        lemma_tracks_before_grows(discs, d, e - 1);
    }
}

/// The track list of an album's discs holds exactly as many entries as the
/// discs hold tracks together, and the `k`-th track of disc `d` stands at
/// position `k` after all tracks of the discs before `d`: every track of every
/// disc occurs, disc after disc, each in its place.
pub proof fn lemma_disc_tracks_lists_every_track(discs: Seq<Disc>)
    ensures
        disc_tracks(discs).len() == tracks_before(discs, discs.len() as int),
        forall|d: int, k: int|
            #![trigger discs[d].tracks@[k]]
            0 <= d < discs.len() && 0 <= k < discs[d].tracks@.len() ==> disc_tracks(discs)[tracks_before(discs, d)
                + k] == discs[d].tracks@[k].id,
    decreases discs.len(),
{
    if discs.len() > 0 {
        let init = discs.drop_last();
        let last = discs.last();
        let n = discs.len() - 1;
        lemma_disc_tracks_lists_every_track(init);
        lemma_tracks_before_prefix(discs, n);
        let head = disc_tracks(init);
        let tail = rid_ids(last.tracks@);
        assert(disc_tracks(discs) == head + tail);
        assert forall|d: int, k: int|
            #![trigger discs[d].tracks@[k]]
            0 <= d < discs.len() && 0 <= k < discs[d].tracks@.len() implies disc_tracks(discs)[tracks_before(
                discs,
                d,
            ) + k] == discs[d].tracks@[k].id by {
            if d < n {
                lemma_tracks_before_prefix(discs, d);
                assert(init[d] == discs[d]);
                assert(init[d].tracks@[k] == discs[d].tracks@[k]);
                lemma_tracks_before_grows(init, d + 1, n);
                lemma_tracks_before_grows(init, 0, d);
                let idx = tracks_before(init, d) + k;
                assert(idx < head.len());
                assert(head[idx] == init[d].tracks@[k].id);
                assert((head + tail)[idx] == head[idx]);
            } else {
                assert(discs[d] == last);
                assert(tracks_before(discs, d) == head.len());
                assert(tail[k] == last.tracks@[k].id);
                assert((head + tail)[head.len() + k] == tail[k]);
            }
        }
    }
}

/// The IDs of a playlist's tracks, in order.
pub fn playlist_track_ids(playlist: &Playlist) -> (ids: Vec<SpotifyId>)
    ensures
        ids@ == rid_ids(playlist.tracks@),
{
    let mut ids: Vec<SpotifyId> = Vec::new();
    append_ids(&mut ids, &playlist.tracks);
    assert(ids@ =~= rid_ids(playlist.tracks@));
    ids
}

// ---------------------------------------------------------------------------
// Tracks left out of a download.
// ---------------------------------------------------------------------------

/// Resources not to download.
#[derive(Debug, Clone)]
pub struct ExcludedSet {
    items: Vec<ResourceId>,
}

impl View for ExcludedSet {
    type V = Set<ResourceId>;

    closed spec fn view(&self) -> Set<ResourceId> {
        self.items@.to_set()
    }
}

impl ExcludedSet {
    /// No resource left out.
    pub fn new() -> (r: Self)
        ensures
            r@ == Set::<ResourceId>::empty(),
    {
        let r = ExcludedSet { items: Vec::new() };
        assert(r@ =~= Set::<ResourceId>::empty());
        r
    }

    /// Whether `rid` is left out.
    pub fn contains(&self, rid: &ResourceId) -> (b: bool)
        ensures
            b == self@.contains(*rid),
    {
        let mut i: usize = 0;
        while i < self.items.len()
            invariant
                i <= self.items@.len(),
                forall|j: int| 0 <= j < i ==> self.items@[j] != *rid,
            decreases self.items@.len() - i,
        {
            if self.items[i] == *rid {
                assert(self.items@.contains(*rid));
                return true;
            }
            i = i + 1;
        }
        false
    }

    /// Leaves `rid` out as well.
    pub fn insert(&mut self, rid: ResourceId)
        ensures
            final(self)@ == old(self)@.insert(rid),
    {
        if !self.contains(&rid) {
            let ghost before = self.items@;
            self.items.push(rid);
            assert(self.items@.to_set() =~= before.to_set().insert(rid));
        } else {
            assert(self@ =~= old(self)@.insert(rid));
        }
    }

    /// Leaves every resource of `rids` out as well.
    pub fn extend(&mut self, rids: &Vec<ResourceId>)
        ensures
            final(self)@ == old(self)@.union(rids@.to_set()),
    {
        let ghost start = self@;
        let mut i: usize = 0;
        while i < rids.len()
            invariant
                i <= rids@.len(),
                self@ == start.union(rids@.take(i as int).to_set()),
            decreases rids@.len() - i,
        {
            self.insert(rids[i]);
            assert(rids@.take(i + 1).to_set() =~= rids@.take(i as int).to_set().insert(rids@[i as int]));
            assert(self@ =~= start.union(rids@.take(i + 1).to_set()));
            i = i + 1;
        }
        assert(rids@.take(rids@.len() as int) =~= rids@);
    }

    /// Whether a track found for a requested resource goes on to be downloaded:
    /// it does unless the track itself is left out.
    pub fn allows_track(&self, track_id: SpotifyId) -> (b: bool)
        ensures
            b == !self@.contains(ResourceId { resource: Resource::Track, id: track_id }),
    {
        let rid = ResourceId::new(Resource::Track, track_id);
        !self.contains(&rid)
    }

    /// Whether a track goes on to be downloaded once its alternatives are
    /// known: it does unless the track itself or one of its alternatives (the
    /// same recording under another ID, which may already be present) is left
    /// out.
    pub fn allows_track_with(&self, track_id: SpotifyId, alternatives: &Vec<ResourceId>) -> (b: bool)
        ensures
            b == (!self@.contains(ResourceId { resource: Resource::Track, id: track_id }) && forall|i: int|
                0 <= i < alternatives@.len() ==> !self@.contains(#[trigger] alternatives@[i])),
    {
        if !self.allows_track(track_id) {
            return false;
        }
        let mut i: usize = 0;
        while i < alternatives.len()
            invariant
                i <= alternatives@.len(),
                forall|j: int| 0 <= j < i ==> !self@.contains(#[trigger] alternatives@[j]),
            decreases alternatives@.len() - i,
        {
            if self.contains(&alternatives[i]) {
                return false;
            }
            i = i + 1;
        }
        true
    }
}

// ---------------------------------------------------------------------------
// Running the post-processing stages of a track.
// ---------------------------------------------------------------------------

/// What comes next for a downloaded track.
#[derive(Debug, Clone, Copy, PartialEq, Eq, Structural)]
pub enum PostProcessStep {
    /// Run the stage with this index.
    RunStage(usize),
    /// A stage failed: report the failure, then report the track finished.
    Failed,
    /// All stages ran: report the track finished.
    Finished,
}

/// The step that starts post-processing with `stage_count` stages.
pub open spec fn start_step(stage_count: nat) -> PostProcessStep {
    if stage_count > 0 {
        PostProcessStep::RunStage(0)
    } else {
        PostProcessStep::Finished
    }
}

/// The step after stage `idx` of `stage_count` succeeded (`ok`) or failed: a
/// failure stops the run, a success moves to the next stage, and the last
/// success ends it.
pub open spec fn next_step(idx: nat, stage_count: nat, ok: bool) -> PostProcessStep {
    if !ok {
        PostProcessStep::Failed
    } else if idx + 1 < stage_count {
        PostProcessStep::RunStage((idx + 1) as usize)
    } else {
        PostProcessStep::Finished
    }
}

/// The step that starts post-processing with `stage_count` stages.
pub fn first_step(stage_count: usize) -> (s: PostProcessStep)
    ensures
        s == start_step(stage_count as nat),
{
    if stage_count > 0 {
        PostProcessStep::RunStage(0)
    } else {
        PostProcessStep::Finished
    }
}

/// The step after stage `idx` of `stage_count` succeeded (`ok`) or failed.
pub fn step_after(idx: usize, stage_count: usize, ok: bool) -> (s: PostProcessStep)
    requires
        idx < stage_count,
    ensures
        s == next_step(idx as nat, stage_count as nat, ok),
{
    if !ok {
        PostProcessStep::Failed
    } else if idx + 1 < stage_count {
        PostProcessStep::RunStage(idx + 1)
    } else {
        PostProcessStep::Finished
    }
}

/// The steps of a run in which the stages before `fail_at` succeed and stage
/// `fail_at` (if it exists) fails: each stage up to the failure (or every
/// stage) in order, then `Failed` or `Finished`.
pub open spec fn run_steps(stage_count: nat, fail_at: Option<nat>) -> Seq<PostProcessStep> {
    match fail_at {
        Some(f) if f < stage_count => Seq::new(f + 1, |i: int| PostProcessStep::RunStage(i as usize)).push(
            PostProcessStep::Failed,
        ),
        _ => Seq::new(stage_count, |i: int| PostProcessStep::RunStage(i as usize)).push(
            PostProcessStep::Finished,
        ),
    }
}

pub open spec fn stage_succeeds(fail_at: Option<nat>, k: nat) -> bool {
    match fail_at {
        Some(f) => k != f,
        None => true,
    }
}

/// Following `first_step` and then `step_after` with the outcome of each stage
/// (the stages before `fail_at` succeed, stage `fail_at` fails) yields exactly
/// `run_steps`: every stage runs once, in order, and the first failure stops the
/// run.
pub proof fn lemma_steps_follow_outcomes(stage_count: usize, fail_at: Option<nat>, k: nat)
    requires
        k < stage_count,
        match fail_at {
            Some(f) => k <= f,
            None => true,
        },
    ensures
        run_steps(stage_count as nat, fail_at)[0] == start_step(stage_count as nat),
        run_steps(stage_count as nat, fail_at)[k as int] == PostProcessStep::RunStage(k as usize),
        run_steps(stage_count as nat, fail_at)[k + 1int] == next_step(
            k,
            stage_count as nat,
            stage_succeeds(fail_at, k),
        ),
{
}

/// What the pipeline reports about the post-processing of a track.
#[derive(Debug, Clone, Copy, PartialEq, Eq, Structural)]
pub enum PostProcessReport {
    /// Post-processing starts, with this many stages.
    Started(usize),
    /// The stage with this index (first field) of this many (second) starts.
    Progress(usize, usize),
    /// A stage failed.
    Failed,
    /// Post-processing is over.
    Finished,
}

/// The reports that go with one step of a run of `stage_count` stages.
pub open spec fn step_reports(step: PostProcessStep, stage_count: usize) -> Seq<PostProcessReport> {
    match step {
        PostProcessStep::RunStage(i) => seq![PostProcessReport::Progress(i, stage_count)],
        PostProcessStep::Failed => seq![PostProcessReport::Failed, PostProcessReport::Finished],
        PostProcessStep::Finished => seq![PostProcessReport::Finished],
    }
}

/// The reports of a sequence of steps, one step after the other.
pub open spec fn steps_reports(steps: Seq<PostProcessStep>, stage_count: usize) -> Seq<PostProcessReport>
    decreases steps.len(),
{
    if steps.len() == 0 {
        seq![]
    } else {
        steps_reports(steps.drop_last(), stage_count) + step_reports(steps.last(), stage_count)
    }
}

/// The reports of a whole run in which the stages before `fail_at` succeed and
/// stage `fail_at` (if it exists) fails: `Started`, a `Progress` for each stage
/// that runs (up to and including the failing one), `Failed` if a stage failed,
/// and `Finished`.
pub open spec fn run_reports(stage_count: usize, fail_at: Option<nat>) -> Seq<PostProcessReport> {
    match fail_at {
        Some(f) if f < stage_count => seq![PostProcessReport::Started(stage_count)] + Seq::new(
            f + 1,
            |i: int| PostProcessReport::Progress(i as usize, stage_count),
        ) + seq![PostProcessReport::Failed, PostProcessReport::Finished],
        _ => seq![PostProcessReport::Started(stage_count)] + Seq::new(
            stage_count as nat,
            |i: int| PostProcessReport::Progress(i as usize, stage_count),
        ) + seq![PostProcessReport::Finished],
    }
}

/// The reports to send for `step`, in order.
pub fn reports_for_step(step: PostProcessStep, stage_count: usize) -> (v: Vec<PostProcessReport>)
    ensures
        v@ == step_reports(step, stage_count),
{
    match step {
        PostProcessStep::RunStage(i) => vec![PostProcessReport::Progress(i, stage_count)],
        PostProcessStep::Failed => vec![PostProcessReport::Failed, PostProcessReport::Finished],
        PostProcessStep::Finished => vec![PostProcessReport::Finished],
    }
}

/// The report that opens a run of `stage_count` stages.
pub fn start_report(stage_count: usize) -> (r: PostProcessReport)
    ensures
        r == PostProcessReport::Started(stage_count),
{
    PostProcessReport::Started(stage_count)
}

proof fn lemma_stage_reports(m: nat, stage_count: usize)
    requires
        m <= stage_count,
    ensures
        steps_reports(Seq::new(m, |i: int| PostProcessStep::RunStage(i as usize)), stage_count) == Seq::new(
            m,
            |i: int| PostProcessReport::Progress(i as usize, stage_count),
        ),
    decreases m,
{
    let steps = Seq::new(m, |i: int| PostProcessStep::RunStage(i as usize));
    let reports = Seq::new(m, |i: int| PostProcessReport::Progress(i as usize, stage_count));
    if m == 0 {
        assert(reports =~= Seq::<PostProcessReport>::empty());
    } else {
        let prev = (m - 1) as nat;
        lemma_stage_reports(prev, stage_count);
        assert(steps.drop_last() =~= Seq::new(prev, |i: int| PostProcessStep::RunStage(i as usize)));
        assert(reports =~= Seq::new(prev, |i: int| PostProcessReport::Progress(i as usize, stage_count)).push(
            PostProcessReport::Progress(prev as usize, stage_count),
        ));
    }
}

proof fn lemma_steps_reports_push(steps: Seq<PostProcessStep>, last: PostProcessStep, stage_count: usize)
    ensures
        steps_reports(steps.push(last), stage_count) == steps_reports(steps, stage_count) + step_reports(
            last,
            stage_count,
        ),
{
    assert(steps.push(last).drop_last() =~= steps);
}

/// Reporting `start_report` and then `reports_for_step` of each step of a run
/// (the steps that `first_step` and `step_after` give, as
/// `lemma_steps_follow_outcomes` states) yields `run_reports`: `Started` with
/// the stage count, a `Progress` for each stage that runs, in order, `Failed`
/// exactly when a stage failed, and `Finished` last.
pub proof fn lemma_reports_follow_outcomes(stage_count: usize, fail_at: Option<nat>)
    ensures
        seq![PostProcessReport::Started(stage_count)] + steps_reports(run_steps(stage_count as nat, fail_at), stage_count)
            == run_reports(stage_count, fail_at),
{
    match fail_at {
        Some(f) if f < stage_count => {
            let runs = Seq::new(f + 1, |i: int| PostProcessStep::RunStage(i as usize));
            lemma_stage_reports(f + 1, stage_count);
            lemma_steps_reports_push(runs, PostProcessStep::Failed, stage_count);
            assert(seq![PostProcessReport::Started(stage_count)] + steps_reports(
                run_steps(stage_count as nat, fail_at),
                stage_count,
            ) =~= run_reports(stage_count, fail_at));
        },
        _ => {
            let runs = Seq::new(stage_count as nat, |i: int| PostProcessStep::RunStage(i as usize));
            lemma_stage_reports(stage_count as nat, stage_count);
            lemma_steps_reports_push(runs, PostProcessStep::Finished, stage_count);
            assert(seq![PostProcessReport::Started(stage_count)] + steps_reports(
                run_steps(stage_count as nat, fail_at),
                stage_count,
            ) =~= run_reports(stage_count, fail_at));
        },
    }
}

/// A run with no stages finishes at once.
pub proof fn lemma_no_stages_finish(fail_at: Option<nat>)
    ensures
        run_steps(0, fail_at) == seq![PostProcessStep::Finished],
        start_step(0) == PostProcessStep::Finished,
{
    assert(run_steps(0, fail_at) =~= seq![PostProcessStep::Finished]);
}

} // verus!

verus! {

/// Whether a download has made enough headway since the last progress report
/// to report again: more than 10000 samples.
pub fn progress_due(sample_count: usize, last_report: usize) -> (due: bool)
    requires
        last_report <= sample_count,
    ensures
        due == (sample_count - last_report > 10_000),
{
    sample_count - last_report > 10_000
}

} // verus!
