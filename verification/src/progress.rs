//! The progress display of a download: one bar for the track being downloaded
//! and one per post-processing worker. A downloaded track takes a free worker
//! bar until its post-processing ends.

use vstd::prelude::*;
use crate::id::SpotifyId;
use crate::text::{chars_of, concat_chars, string_from_chars};

verus! {

broadcast use vstd::seq_lib::group_seq_properties, vstd::string::group_string_axioms,
    vstd::std_specs::hash::group_hash_axioms;

/// Which bar an update is for.
#[derive(Debug, Clone, Copy, PartialEq, Eq, Structural)]
pub enum ProgressBar {
    Download,
    Worker(usize),
}

/// A change to one bar: its message, and its position and length when they change.
#[derive(Debug, Clone)]
pub struct ProgressUpdate {
    pub bar: ProgressBar,
    pub message: String,
    pub position: Option<u64>,
    pub length: Option<u64>,
}

/// The state of the display: the name of each track seen, the worker bar each
/// track in post-processing holds, and the free worker bars (the last one is
/// taken next).
pub struct ProgressBoard {
    workers: usize,
    names: std::collections::HashMap<u128, String>,
    slots: std::collections::HashMap<u128, usize>,
    free: Vec<usize>,
}

/// How a track is shown: `<artist>/<album>/<title>`.
pub open spec fn display_name(artist: Seq<char>, album: Seq<char>, title: Seq<char>) -> Seq<char> {
    artist + seq!['/'] + album + seq!['/'] + title
}

pub open spec fn downloading_message(name: Seq<char>) -> Seq<char> {
    "Downloading "@ + name
}

pub open spec fn downloaded_message(name: Seq<char>) -> Seq<char> {
    "Finished downloading "@ + name
}

pub open spec fn post_processing_message(name: Seq<char>) -> Seq<char> {
    "Post-processing "@ + name
}

pub open spec fn stage_message(stage: Seq<char>, name: Seq<char>) -> Seq<char> {
    "Post-processing ("@ + stage + ") "@ + name
}

pub open spec fn failed_message(name: Seq<char>) -> Seq<char> {
    "Failed to post-process "@ + name
}

pub open spec fn finished_message(name: Seq<char>) -> Seq<char> {
    "Finished post-processing "@ + name
}

/// The free bars of a fresh board: the last worker first, so that worker 0 is
/// taken first.
pub open spec fn initial_free(workers: nat) -> Seq<usize> {
    Seq::new(workers, |i: int| (workers - 1 - i) as usize)
}

/// `<artist>/<album>/<title>`, the name a track is shown under.
pub fn track_display_name(artist: &str, album: &str, title: &str) -> (s: String)
    ensures
        s@ == display_name(artist@, album@, title@),
{
    let slash = vec!['/'];
    let a = concat_chars(&chars_of(artist), &slash);
    let b = concat_chars(&concat_chars(&a, &chars_of(album)), &slash);
    let c = concat_chars(&b, &chars_of(title));
    assert(c@ =~= display_name(artist@, album@, title@));
    string_from_chars(c.as_slice())
}

fn prefixed(prefix: &str, rest: &Vec<char>) -> (s: String)
    ensures
        s@ == prefix@ + rest@,
{
    let v = concat_chars(&chars_of(prefix), rest);
    string_from_chars(v.as_slice())
}

impl ProgressBoard {
    /// Whether every free bar and every held bar is one of the worker bars.
    pub closed spec fn wf(&self) -> bool {
        &&& forall|i: int| 0 <= i < self.free@.len() ==> self.free@[i] < self.workers
        &&& forall|k: u128| #[trigger] self.slots@.contains_key(k) ==> self.slots@[k] < self.workers
    }

    pub closed spec fn workers(&self) -> nat {
        self.workers as nat
    }

    /// The worker bars free to take, the last one first.
    pub closed spec fn free(&self) -> Seq<usize> {
        self.free@
    }

    /// The worker bar each track holds.
    pub closed spec fn slots(&self) -> Map<u128, usize> {
        self.slots@
    }

    /// The name each track is shown under.
    pub closed spec fn names(&self) -> Map<u128, Seq<char>> {
        self.names@.map_values(|s: String| s@)
    }

    /// A board with `workers` worker bars, all free.
    pub fn new(workers: usize) -> (b: Self)
        ensures
            b.wf(),
            b.workers() == workers,
            b.free() == initial_free(workers as nat),
            b.slots() == Map::<u128, usize>::empty(),
            b.names() == Map::<u128, Seq<char>>::empty(),
    {
        let mut free: Vec<usize> = Vec::new();
        let mut k: usize = workers;
        while k > 0
            invariant
                k <= workers,
                free@ == initial_free(workers as nat).take(workers - k),
            decreases k,
        {
            free.push(k - 1);
            assert(free@ =~= initial_free(workers as nat).take(workers - k + 1));
            k = k - 1;
        }
        assert(free@ =~= initial_free(workers as nat));
        let b = ProgressBoard {
            workers,
            names: std::collections::HashMap::new(),
            slots: std::collections::HashMap::new(),
            free,
        };
        assert(b.names() =~= Map::<u128, Seq<char>>::empty());
        b
    }

    fn name_of(&self, track_id: SpotifyId) -> (r: Option<Vec<char>>)
        ensures
            match r {
                None => !self.names().contains_key(track_id.0),
                Some(n) => self.names().contains_key(track_id.0) && n@ == self.names()[track_id.0],
            },
    {
        match self.names.get(&track_id.0) {
            None => None,
            Some(n) => Some(chars_of(n.as_str())),
        }
    }

    /// A track started downloading under `name`: the download bar shows it,
    /// restarted at 0 of 100.
    pub fn download_started(&mut self, track_id: SpotifyId, name: String) -> (u: ProgressUpdate)
        requires
            old(self).wf(),
        ensures
            final(self).wf(),
            final(self).names() == old(self).names().insert(track_id.0, name@),
            final(self).slots() == old(self).slots(),
            final(self).free() == old(self).free(),
            final(self).workers() == old(self).workers(),
            u.bar == ProgressBar::Download,
            u.message@ == downloading_message(name@),
            u.position == Some(0u64),
            u.length == Some(100u64),
    {
        let n = chars_of(name.as_str());
        let message = prefixed("Downloading ", &n);
        self.names.insert(track_id.0, name);
        assert(self.names() =~= old(self).names().insert(track_id.0, n@));
        ProgressUpdate { bar: ProgressBar::Download, message, position: Some(0), length: Some(100) }
    }

    /// A track finished downloading: the download bar says so, and the track
    /// takes the free worker bar that is next in line. `None` when the track was
    /// never started or no worker bar is free.
    pub fn download_finished(&mut self, track_id: SpotifyId) -> (u: Option<ProgressUpdate>)
        requires
            old(self).wf(),
        ensures
            final(self).wf(),
            final(self).workers() == old(self).workers(),
            final(self).names() == old(self).names(),
            u is None <==> !old(self).names().contains_key(track_id.0) || old(self).free().len() == 0,
            u is None ==> final(self).free() == old(self).free() && final(self).slots() == old(self).slots(),
            u matches Some(up) ==> {
                &&& up.bar == ProgressBar::Download
                &&& up.message@ == downloaded_message(old(self).names()[track_id.0])
                &&& up.position == Some(100u64)
                &&& up.length is None
                &&& final(self).free() == old(self).free().drop_last()
                &&& final(self).slots() == old(self).slots().insert(track_id.0, old(self).free().last())
            },
    {
        let name = match self.name_of(track_id) {
            None => return None,
            Some(n) => n,
        };
        let slot = match self.free.pop() {
            None => return None,
            Some(s) => s,
        };
        self.slots.insert(track_id.0, slot);
        let message = prefixed("Finished downloading ", &name);
        Some(ProgressUpdate { bar: ProgressBar::Download, message, position: Some(100), length: None })
    }

    fn worker_update(&self, track_id: SpotifyId, prefix: &Vec<char>, position: Option<u64>, length: Option<u64>)
        -> (u: Option<ProgressUpdate>)
        requires
            self.wf(),
        ensures
            u is None <==> !self.names().contains_key(track_id.0) || !self.slots().contains_key(track_id.0),
            u matches Some(up) ==> {
                &&& up.bar == ProgressBar::Worker(self.slots()[track_id.0])
                &&& self.slots()[track_id.0] < self.workers()
                &&& up.message@ == prefix@ + self.names()[track_id.0]
                &&& up.position == position
                &&& up.length == length
            },
    {
        let name = match self.name_of(track_id) {
            None => return None,
            Some(n) => n,
        };
        let slot = match self.slots.get(&track_id.0) {
            None => return None,
            Some(s) => *s,
        };
        let message = concat_chars(prefix, &name);
        Some(
            ProgressUpdate {
                bar: ProgressBar::Worker(slot),
                message: string_from_chars(message.as_slice()),
                position,
                length,
            },
        )
    }

    /// Post-processing of a track started with `stage_count` stages: its worker
    /// bar restarts at 0 of `stage_count`.
    pub fn post_process_started(&self, track_id: SpotifyId, stage_count: usize) -> (u: Option<ProgressUpdate>)
        requires
            self.wf(),
        ensures
            u is None <==> !self.names().contains_key(track_id.0) || !self.slots().contains_key(track_id.0),
            u matches Some(up) ==> {
                &&& up.bar == ProgressBar::Worker(self.slots()[track_id.0])
                &&& self.slots()[track_id.0] < self.workers()
                &&& up.message@ == post_processing_message(self.names()[track_id.0])
                &&& up.position == Some(0u64)
                &&& up.length == Some(stage_count as u64)
            },
    {
        let prefix = chars_of("Post-processing ");
        self.worker_update(track_id, &prefix, Some(0), Some(stage_count as u64))
    }

    /// Stage `stage_idx` (named `stage`) of a track's `stage_count` stages
    /// started: its worker bar shows the stage and stands at `stage_idx + 1`.
    pub fn stage_started(&self, track_id: SpotifyId, stage: &str, stage_idx: usize, stage_count: usize) -> (u:
        Option<ProgressUpdate>)
        requires
            self.wf(),
            stage_idx < u64::MAX,
        ensures
            u is None <==> !self.names().contains_key(track_id.0) || !self.slots().contains_key(track_id.0),
            u matches Some(up) ==> {
                &&& up.bar == ProgressBar::Worker(self.slots()[track_id.0])
                &&& self.slots()[track_id.0] < self.workers()
                &&& up.message@ == stage_message(stage@, self.names()[track_id.0])
                &&& up.position == Some((stage_idx + 1) as u64)
                &&& up.length == Some(stage_count as u64)
            },
    {
        let prefix = concat_chars(
            &concat_chars(&chars_of("Post-processing ("), &chars_of(stage)),
            &chars_of(") "),
        );
        let u = self.worker_update(track_id, &prefix, Some(stage_idx as u64 + 1), Some(stage_count as u64));
        proof {
            if u is Some {
                assert(prefix@ + self.names()[track_id.0] =~= stage_message(stage@, self.names()[track_id.0]));
            }
        }
        u
    }

    /// Post-processing of a track ended, after a failure (`failed`) or not: its
    /// worker bar says so and becomes free again.
    pub fn post_process_ended(&mut self, track_id: SpotifyId, failed: bool) -> (u: Option<ProgressUpdate>)
        requires
            old(self).wf(),
        ensures
            final(self).wf(),
            final(self).workers() == old(self).workers(),
            final(self).names() == old(self).names(),
            final(self).slots() == old(self).slots(),
            u is None <==> !old(self).names().contains_key(track_id.0) || !old(self).slots().contains_key(
                track_id.0,
            ),
            u is None ==> final(self).free() == old(self).free(),
            u matches Some(up) ==> {
                &&& up.bar == ProgressBar::Worker(old(self).slots()[track_id.0])
                &&& old(self).slots()[track_id.0] < old(self).workers()
                &&& up.message@ == (if failed {
                    failed_message(old(self).names()[track_id.0])
                } else {
                    finished_message(old(self).names()[track_id.0])
                })
                &&& up.position is None
                &&& up.length is None
                &&& final(self).free() == old(self).free().push(old(self).slots()[track_id.0])
            },
    {
        let prefix = if failed {
            chars_of("Failed to post-process ")
        } else {
            chars_of("Finished post-processing ")
        };
        let u = self.worker_update(track_id, &prefix, None, None);
        match u {
            None => None,
            Some(up) => {
                match up.bar {
                    ProgressBar::Worker(slot) => self.free.push(slot),
                    ProgressBar::Download => {},
                }
                Some(up)
            },
        }
    }
}

/// Every worker bar the board hands out exists: whatever happened before, the
/// bar a track holds, and every bar in line to be taken, is below the number of
/// workers.
pub proof fn lemma_bars_exist(b: ProgressBoard, track: u128)
    requires
        b.wf(),
    ensures
        forall|i: int| 0 <= i < b.free().len() ==> b.free()[i] < b.workers(),
        b.slots().contains_key(track) ==> b.slots()[track] < b.workers(),
{
}

/// On a fresh board the first track to finish downloading takes worker bar 0.
pub proof fn lemma_first_download_takes_worker_zero(workers: nat)
    requires
        workers > 0,
    ensures
        initial_free(workers).last() == 0,
        initial_free(workers).len() == workers,
{
}

} // verus!
