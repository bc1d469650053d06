//! The watcher: an index from audio file paths to the Spotify track IDs their
//! tags hold, kept up to date as files change, and the framing of the requests
//! and answers exchanged with it over its socket.

use vstd::prelude::*;
use crate::id::{SpotifyId, id_text};
use crate::scan::ScanItem;
use crate::text::{chars_of, concat_chars, string_from_chars};

verus! {

broadcast use vstd::seq_lib::group_seq_properties, vstd::string::group_string_axioms;

/// The files being watched and the track ID each holds.
pub struct Watcher {
    entries: Vec<(String, SpotifyId)>,
    map: Ghost<Map<Seq<char>, SpotifyId>>,
}

impl View for Watcher {
    type V = Map<Seq<char>, SpotifyId>;

    closed spec fn view(&self) -> Map<Seq<char>, SpotifyId> {
        self.map@
    }
}

/// Whether some watched file holds `id`.
pub open spec fn watches(m: Map<Seq<char>, SpotifyId>, id: SpotifyId) -> bool {
    exists|p: Seq<char>| #[trigger] m.contains_key(p) && m[p] == id
}

impl Watcher {
    /// The entries list each watched path once, with its track ID.
    pub closed spec fn wf(&self) -> bool {
        &&& forall|i: int|
            0 <= i < self.entries@.len() ==> self.map@.contains_key(#[trigger] self.entries@[i].0@)
                && self.map@[self.entries@[i].0@] == self.entries@[i].1
        &&& forall|p: Seq<char>|
            #[trigger] self.map@.contains_key(p) ==> exists|i: int|
                0 <= i < self.entries@.len() && #[trigger] self.entries@[i].0@ == p
        &&& forall|i: int, j: int|
            0 <= i < self.entries@.len() && 0 <= j < self.entries@.len() && i != j ==> (
            #[trigger] self.entries@[i]).0@ != (#[trigger] self.entries@[j]).0@
    }

    /// An index watching nothing.
    pub fn new() -> (w: Self)
        ensures
            w.wf(),
            w@ == Map::<Seq<char>, SpotifyId>::empty(),
    {
        Watcher { entries: Vec::new(), map: Ghost(Map::empty()) }
    }

    fn position(&self, path: &String) -> (r: Option<usize>)
        requires
            self.wf(),
        ensures
            match r {
                None => !self@.contains_key(path@),
                Some(i) => i < self.entries@.len() && self.entries@[i as int].0@ == path@,
            },
    {
        let mut i: usize = 0;
        while i < self.entries.len()
            invariant
                i <= self.entries@.len(),
                forall|j: int| 0 <= j < i ==> (#[trigger] self.entries@[j]).0@ != path@,
            decreases self.entries@.len() - i,
        {
            if self.entries[i].0 == *path {
                return Some(i);
            }
            i = i + 1;
        }
        proof {
            if self@.contains_key(path@) {
                let k = choose|k: int| 0 <= k < self.entries@.len() && #[trigger] self.entries@[k].0@ == path@;
                assert(self.entries@[k].0@ != path@);
            }
        }
        None
    }

    /// Records that the file at `path` holds `id`, replacing what it held before.
    pub fn insert(&mut self, path: String, id: SpotifyId)
        requires
            old(self).wf(),
        ensures
            final(self).wf(),
            final(self)@ == old(self)@.insert(path@, id),
    {
        let ghost p = path@;
        let ghost old_entries = self.entries@;
        match self.position(&path) {
            Some(i) => {
                self.entries.set(i, (path, id));
                self.map = Ghost(self.map@.insert(p, id));
                assert forall|q: Seq<char>| #[trigger] self.map@.contains_key(q) implies exists|k: int|
                    0 <= k < self.entries@.len() && #[trigger] self.entries@[k].0@ == q by {
                    if q != p {
                        let k = choose|k: int| 0 <= k < old_entries.len() && #[trigger] old_entries[k].0@ == q;
                        assert(self.entries@[k] == old_entries[k]);
                    } else {
                        assert(self.entries@[i as int].0@ == q);
                    }
                }
                assert forall|a: int|
                    0 <= a < self.entries@.len() implies self.map@.contains_key(
                    #[trigger] self.entries@[a].0@,
                ) && self.map@[self.entries@[a].0@] == self.entries@[a].1 by {
                    if a != i {
                        assert(self.entries@[a] == old_entries[a]);
                        assert(old_entries[a].0@ != old_entries[i as int].0@);
                    }
                }
                assert forall|a: int, b: int|
                    0 <= a < self.entries@.len() && 0 <= b < self.entries@.len() && a != b implies (
                    #[trigger] self.entries@[a]).0@ != (#[trigger] self.entries@[b]).0@ by {
                    if a != i && b != i {
                        assert(self.entries@[a] == old_entries[a]);
                        assert(self.entries@[b] == old_entries[b]);
                    } else if a == i {
                        assert(self.entries@[b] == old_entries[b]);
                        assert(old_entries[b].0@ != old_entries[i as int].0@);
                    } else {
                        assert(self.entries@[a] == old_entries[a]);
                        assert(old_entries[a].0@ != old_entries[i as int].0@);
                    }
                }
            },
            None => {
                self.entries.push((path, id));
                self.map = Ghost(self.map@.insert(p, id));
                let ghost n = old_entries.len() as int;
                assert forall|q: Seq<char>| #[trigger] self.map@.contains_key(q) implies exists|k: int|
                    0 <= k < self.entries@.len() && #[trigger] self.entries@[k].0@ == q by {
                    if q != p {
                        let k = choose|k: int| 0 <= k < old_entries.len() && #[trigger] old_entries[k].0@ == q;
                        assert(self.entries@[k] == old_entries[k]);
                    } else {
                        assert(self.entries@[n].0@ == q);
                    }
                }
                assert forall|a: int|
                    0 <= a < self.entries@.len() implies self.map@.contains_key(
                    #[trigger] self.entries@[a].0@,
                ) && self.map@[self.entries@[a].0@] == self.entries@[a].1 by {
                    if a != n {
                        assert(self.entries@[a] == old_entries[a]);
                        assert(old(self).map@.contains_key(old_entries[a].0@));
                    }
                }
                assert forall|a: int, b: int|
                    0 <= a < self.entries@.len() && 0 <= b < self.entries@.len() && a != b implies (
                    #[trigger] self.entries@[a]).0@ != (#[trigger] self.entries@[b]).0@ by {
                    if a != n && b != n {
                        assert(self.entries@[a] == old_entries[a]);
                        assert(self.entries@[b] == old_entries[b]);
                    } else if a == n {
                        assert(self.entries@[b] == old_entries[b]);
                        assert(old(self).map@.contains_key(old_entries[b].0@));
                    } else {
                        assert(self.entries@[a] == old_entries[a]);
                        assert(old(self).map@.contains_key(old_entries[a].0@));
                    }
                }
            },
        }
    }

    /// Stops watching the file at `path`; returns the track ID it held, if any.
    pub fn remove(&mut self, path: &str) -> (r: Option<SpotifyId>)
        requires
            old(self).wf(),
        ensures
            final(self).wf(),
            final(self)@ == old(self)@.remove(path@),
            match r {
                None => !old(self)@.contains_key(path@),
                Some(id) => old(self)@.contains_key(path@) && old(self)@[path@] == id,
            },
    {
        let key = path.to_string();
        let ghost p = path@;
        let ghost old_entries = self.entries@;
        match self.position(&key) {
            None => {
                assert(self@ =~= old(self)@.remove(p));
                None
            },
            Some(i) => {
                let (_, id) = self.entries.remove(i);
                self.map = Ghost(self.map@.remove(p));
                assert forall|k: int| 0 <= k < self.entries@.len() implies #[trigger] self.entries@[k] == (if k < i {
                    old_entries[k]
                } else {
                    old_entries[k + 1]
                }) by {}
                assert forall|q: Seq<char>| #[trigger] self.map@.contains_key(q) implies exists|k: int|
                    0 <= k < self.entries@.len() && #[trigger] self.entries@[k].0@ == q by {
                    let k = choose|k: int| 0 <= k < old_entries.len() && #[trigger] old_entries[k].0@ == q;
                    if k < i {
                        assert(self.entries@[k] == old_entries[k]);
                    } else {
                        assert(k != i);
                        assert(self.entries@[k - 1] == old_entries[k]);
                    }
                }
                assert forall|a: int|
                    0 <= a < self.entries@.len() implies self.map@.contains_key(
                    #[trigger] self.entries@[a].0@,
                ) && self.map@[self.entries@[a].0@] == self.entries@[a].1 by {
                    let oa = if a < i { a } else { a + 1 };
                    assert(self.entries@[a] == old_entries[oa]);
                    assert(old_entries[oa].0@ != old_entries[i as int].0@);
                }
                assert forall|a: int, b: int|
                    0 <= a < self.entries@.len() && 0 <= b < self.entries@.len() && a != b implies (
                    #[trigger] self.entries@[a]).0@ != (#[trigger] self.entries@[b]).0@ by {
                    let oa = if a < i { a } else { a + 1 };
                    let ob = if b < i { b } else { b + 1 };
                    assert(self.entries@[a] == old_entries[oa]);
                    assert(self.entries@[b] == old_entries[ob]);
                    assert(old_entries[oa].0@ != old_entries[ob].0@);
                }
                Some(id)
            },
        }
    }

    /// Whether some watched file holds the track `id`.
    pub fn contains(&self, id: SpotifyId) -> (b: bool)
        requires
            self.wf(),
        ensures
            b == watches(self@, id),
    {
        let mut i: usize = 0;
        while i < self.entries.len()
            invariant
                self.wf(),
                i <= self.entries@.len(),
                forall|j: int| 0 <= j < i ==> (#[trigger] self.entries@[j]).1 != id,
            decreases self.entries@.len() - i,
        {
            if self.entries[i].1 == id {
                assert(self@.contains_key(self.entries@[i as int].0@));
                return true;
            }
            i = i + 1;
        }
        proof {
            if watches(self@, id) {
                let p = choose|p: Seq<char>| #[trigger] self@.contains_key(p) && self@[p] == id;
                let k = choose|k: int| 0 <= k < self.entries@.len() && #[trigger] self.entries@[k].0@ == p;
                assert(self.entries@[k].1 != id);
            }
        }
        false
    }

    /// Every watched file with its track ID, each file once.
    pub fn list(&self) -> (items: Vec<ScanItem>)
        requires
            self.wf(),
        ensures
            forall|k: int|
                0 <= k < items@.len() ==> self@.contains_key(#[trigger] items@[k].path@) && self@[items@[k].path@]
                    == items@[k].id,
            forall|p: Seq<char>| #[trigger]
                self@.contains_key(p) ==> exists|k: int| 0 <= k < items@.len() && #[trigger] items@[k].path@ == p,
            forall|a: int, b: int|
                0 <= a < items@.len() && 0 <= b < items@.len() && a != b ==> (#[trigger] items@[a]).path@ != (
                #[trigger] items@[b]).path@,
    {
        let mut items: Vec<ScanItem> = Vec::new();
        let mut i: usize = 0;
        while i < self.entries.len()
            invariant
                self.wf(),
                i <= self.entries@.len(),
                items@.len() == i,
                forall|k: int|
                    0 <= k < i ==> (#[trigger] items@[k]).path@ == self.entries@[k].0@ && items@[k].id
                        == self.entries@[k].1,
            decreases self.entries@.len() - i,
        {
            items.push(ScanItem { path: self.entries[i].0.clone(), id: self.entries[i].1 });
            i = i + 1;
        }
        assert forall|p: Seq<char>| #[trigger] self@.contains_key(p) implies exists|k: int|
            0 <= k < items@.len() && #[trigger] items@[k].path@ == p by {
            let k = choose|k: int| 0 <= k < self.entries@.len() && #[trigger] self.entries@[k].0@ == p;
            assert(items@[k].path@ == p);
        }
        assert forall|a: int, b: int|
            0 <= a < items@.len() && 0 <= b < items@.len() && a != b implies (#[trigger] items@[a]).path@ != (
            #[trigger] items@[b]).path@ by {
            assert(self.entries@[a].0@ != self.entries@[b].0@);
        }
        assert forall|k: int| 0 <= k < items@.len() implies self@.contains_key(#[trigger] items@[k].path@)
            && self@[items@[k].path@] == items@[k].id by {
            assert(self.entries@[k].0@ == items@[k].path@);
        }
        items
    }

    /// Records the files a scan found.
    pub fn add_items(&mut self, items: Vec<ScanItem>)
        requires
            old(self).wf(),
        ensures
            final(self).wf(),
            final(self)@ == scanned_into(old(self)@, items@),
    {
        let ghost start = self@;
        let mut i: usize = 0;
        let mut items = items;
        let ghost all = items@;
        assert(all.take(0) =~= Seq::<ScanItem>::empty());
        while i < items.len()
            invariant
                self.wf(),
                i <= all.len(),
                items@ == all,
                self@ == scanned_into(start, all.take(i as int)),
            decreases all.len() - i,
        {
            let path = items[i].path.clone();
            let id = items[i].id;
            self.insert(path, id);
            assert(all.take(i + 1).drop_last() =~= all.take(i as int));
            i = i + 1;
        }
        assert(all.take(all.len() as int) =~= all);
    }

    /// A watched file was created or changed: `found` is the track ID its tag
    /// now holds, if any. A file with an ID is (re)indexed; one without is
    /// dropped from the index.
    pub fn file_changed(&mut self, path: String, found: Option<SpotifyId>) -> (dropped: Option<SpotifyId>)
        requires
            old(self).wf(),
        ensures
            final(self).wf(),
            final(self)@ == match found {
                Some(id) => old(self)@.insert(path@, id),
                None => old(self)@.remove(path@),
            },
            dropped == (if found is None && old(self)@.contains_key(path@) {
                Some(old(self)@[path@])
            } else {
                None
            }),
    {
        match found {
            Some(id) => {
                self.insert(path, id);
                None
            },
            None => self.remove(path.as_str()),
        }
    }
}

/// The index after recording scanned items in order.
pub open spec fn scanned_into(m: Map<Seq<char>, SpotifyId>, items: Seq<ScanItem>) -> Map<Seq<char>, SpotifyId>
    decreases items.len(),
{
    if items.len() == 0 {
        m
    } else {
        scanned_into(m, items.drop_last()).insert(items.last().path@, items.last().id)
    }
}

/// A file indexed with a track ID makes that track watched; a file dropped from
/// the index is no longer watched.
pub proof fn lemma_watch_after_change(m: Map<Seq<char>, SpotifyId>, path: Seq<char>, id: SpotifyId)
    ensures
        watches(m.insert(path, id), id),
        !m.remove(path).contains_key(path),
        m.insert(path, id)[path] == id,
{
    assert(m.insert(path, id).contains_key(path));
}

// ---------------------------------------------------------------------------
// The socket protocol.
// ---------------------------------------------------------------------------

/// What a client asks the watcher.
#[derive(Debug, Clone, Copy, PartialEq, Eq, Structural)]
pub enum WatcherRequest {
    /// Every watched file with its track ID.
    List,
    /// Whether a track is watched.
    Contains(SpotifyId),
}

/// A request on the wire: its length as a big-endian `u16` (the length of a
/// longer request is cut to 16 bits), then the request itself.
pub open spec fn request_frame(payload: Seq<u8>) -> Seq<u8> {
    let n = (payload.len() % 65536) as int;
    seq![(n / 256) as u8, (n % 256) as u8] + payload
}

/// Frames an encoded request for sending.
pub fn frame_request(payload: &Vec<u8>) -> (frame: Vec<u8>)
    ensures
        frame@ == request_frame(payload@),
{
    let len: usize = payload.len();
    let n: u16 = #[verifier::truncate] (len as u16);
    assert(n == len % 65536) by (bit_vector)
        requires
            n == #[verifier::truncate] (len as u16),
    ;
    let hi: u8 = (n / 256) as u8;
    let lo: u8 = (n % 256) as u8;
    let mut frame: Vec<u8> = Vec::new();
    frame.push(hi);
    frame.push(lo);
    let mut i: usize = 0;
    while i < payload.len()
        invariant
            i <= payload@.len(),
            frame@ == seq![hi, lo] + payload@.take(i as int),
        decreases payload@.len() - i,
    {
        frame.push(payload[i]);
        assert(seq![hi, lo] + payload@.take(i + 1) =~= (seq![hi, lo] + payload@.take(i as int)).push(payload@[i as int]));
        i = i + 1;
    }
    assert(payload@.take(payload@.len() as int) =~= payload@);
    assert(frame@ =~= request_frame(payload@));
    frame
}

/// The length a frame header announces.
pub fn frame_length(hi: u8, lo: u8) -> (n: u16)
    ensures
        n == hi * 256 + lo,
{
    (hi as u16) * 256 + (lo as u16)
}

/// A frame carries its request: the header announces the request's length,
/// and the request follows it, for requests of at most 65535 bytes.
pub proof fn lemma_frame_roundtrip(payload: Seq<u8>)
    requires
        payload.len() <= 65535,
    ensures
        request_frame(payload)[0] * 256 + request_frame(payload)[1] == payload.len(),
        request_frame(payload).skip(2) == payload,
{
    let f = request_frame(payload);
    assert(f.skip(2) =~= payload);
}

/// The line a listed file is answered with: `<id> <path>\n`.
pub open spec fn list_line(item: ScanItem) -> Seq<char> {
    id_text(item.id.0) + seq![' '] + item.path@ + seq!['\n']
}

/// The answer to a list request: one line per item.
pub open spec fn list_answer(items: Seq<ScanItem>) -> Seq<char>
    decreases items.len(),
{
    if items.len() == 0 {
        seq![]
    } else {
        list_answer(items.drop_last()) + list_line(items.last())
    }
}

/// The text answering a list request.
pub fn list_response(items: &Vec<ScanItem>) -> (s: String)
    ensures
        s@ == list_answer(items@),
{
    let mut out: Vec<char> = Vec::new();
    let mut i: usize = 0;
    assert(items@.take(0) =~= Seq::<ScanItem>::empty());
    while i < items.len()
        invariant
            i <= items@.len(),
            out@ == list_answer(items@.take(i as int)),
        decreases items@.len() - i,
    {
        let item = &items[i];
        let mut line = chars_of(item.id.to_string().as_str());
        line.push(' ');
        line = concat_chars(&line, &chars_of(item.path.as_str()));
        line.push('\n');
        assert(line@ =~= list_line(*item));
        out = concat_chars(&out, &line);
        assert(items@.take(i + 1).drop_last() =~= items@.take(i as int));
        i = i + 1;
    }
    assert(items@.take(items@.len() as int) =~= items@);
    string_from_chars(out.as_slice())
}

/// The byte answering a contains request: 1 when the track is watched, else 0.
pub fn contains_response(watched: bool) -> (b: i8)
    ensures
        b == (if watched { 1i8 } else { 0i8 }),
{
    if watched {
        1
    } else {
        0
    }
}

} // verus!
