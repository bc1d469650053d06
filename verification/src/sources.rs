//! Music source directories: how a source is written on the command line, and
//! the index from track IDs to the files the sources already hold.

use vstd::prelude::*;
use crate::id::SpotifyId;
use crate::scan::ScanItem;
use crate::text::{chars_of, chars_equal, string_from_chars, sub_chars};

verus! {

broadcast use vstd::seq_lib::group_seq_properties, vstd::string::group_string_axioms;

/// How a track found in a source reaches the pipeline.
#[derive(Debug, Clone, Copy, PartialEq, Eq, Hash, Structural)]
pub enum PipelineSourceAction {
    Copy,
    SymLink,
    HardLink,
}

/// A source directory and the way its files are taken over.
#[derive(Debug, Clone)]
pub struct PipelineSource {
    pub source: String,
    pub action: PipelineSourceAction,
}

/// Why a source argument was refused.
#[derive(Debug, Clone, Copy, PartialEq, Eq, Structural)]
pub enum SourceError {
    /// The argument holds no `:`.
    MissingSeparator,
    /// The text before the first `:` is not `copy`, `symlink` or `hardlink`.
    InvalidAction,
}

/// The index of the first `c` in `s`.
pub open spec fn first_index_of(s: Seq<char>, c: char) -> Option<int>
    decreases s.len(),
{
    if s.len() == 0 {
        None
    } else if s[0] == c {
        Some(0)
    } else {
        match first_index_of(s.drop_first(), c) {
            None => None,
            Some(i) => Some(i + 1),
        }
    }
}

/// The action an action word names.
pub open spec fn action_named(word: Seq<char>) -> Option<PipelineSourceAction> {
    if word == seq!['c', 'o', 'p', 'y'] {
        Some(PipelineSourceAction::Copy)
    } else if word == seq!['s', 'y', 'm', 'l', 'i', 'n', 'k'] {
        Some(PipelineSourceAction::SymLink)
    } else if word == seq!['h', 'a', 'r', 'd', 'l', 'i', 'n', 'k'] {
        Some(PipelineSourceAction::HardLink)
    } else {
        None
    }
}

/// What an `<action>:<path>` argument says: the action ends at its first `:`,
/// and everything after that `:` is the path.
pub open spec fn source_spec(s: Seq<char>) -> Result<(PipelineSourceAction, Seq<char>), SourceError> {
    match first_index_of(s, ':') {
        None => Err(SourceError::MissingSeparator),
        Some(i) => match action_named(s.take(i)) {
            None => Err(SourceError::InvalidAction),
            Some(a) => Ok((a, s.skip(i + 1))),
        },
    }
}

/// What a list of arguments says: all sources in order, or the error of the
/// first argument that is refused.
pub open spec fn sources_spec(args: Seq<Seq<char>>) -> Result<Seq<(PipelineSourceAction, Seq<char>)>, SourceError>
    decreases args.len(),
{
    if args.len() == 0 {
        Ok(seq![])
    } else {
        match sources_spec(args.drop_last()) {
            Err(e) => Err(e),
            Ok(done) => match source_spec(args.last()) {
                Err(e) => Err(e),
                Ok(src) => Ok(done.push(src)),
            },
        }
    }
}

pub open spec fn source_view(s: PipelineSource) -> (PipelineSourceAction, Seq<char>) {
    (s.action, s.source@)
}

pub open spec fn sources_view(v: Seq<PipelineSource>) -> Seq<(PipelineSourceAction, Seq<char>)> {
    v.map_values(|s: PipelineSource| source_view(s))
}

proof fn lemma_first_index_bounds(s: Seq<char>, c: char)
    ensures
        match first_index_of(s, c) {
            None => forall|k: int| 0 <= k < s.len() ==> s[k] != c,
            Some(i) => 0 <= i < s.len() && s[i] == c && forall|k: int| 0 <= k < i ==> s[k] != c,
        },
    decreases s.len(),
{
    if s.len() > 0 && s[0] != c {
        let t = s.drop_first();
        lemma_first_index_bounds(t, c);
        assert forall|k: int| 0 <= k < t.len() implies t[k] == s[k + 1] by {}
    }
}

/// The first `c` of `s[k..]` is the first of `s`, where `s[..k]` holds none.
proof fn lemma_first_index_skip(s: Seq<char>, c: char, k: int)
    requires
        0 <= k <= s.len(),
        forall|j: int| 0 <= j < k ==> s[j] != c,
    ensures
        first_index_of(s, c) == (match first_index_of(s.skip(k), c) {
            None => None,
            Some(i) => Some(i + k),
        }),
    decreases k,
{
    if k > 0 {
        assert(s.drop_first().skip(k - 1) =~= s.skip(k));
        lemma_first_index_skip(s.drop_first(), c, k - 1);
    } else {
        assert(s.skip(0) =~= s);
    }
}

fn first_colon(v: &Vec<char>) -> (r: Option<usize>)
    ensures
        match r {
            None => first_index_of(v@, ':') is None,
            Some(i) => first_index_of(v@, ':') == Some(i as int),
        },
{
    let mut k: usize = 0;
    while k < v.len()
        invariant
            k <= v@.len(),
            forall|j: int| 0 <= j < k ==> v@[j] != ':',
        decreases v@.len() - k,
    {
        if v[k] == ':' {
            proof {
                lemma_first_index_skip(v@, ':', k as int);
                assert(v@.skip(k as int)[0] == ':');
            }
            return Some(k);
        }
        k = k + 1;
    }
    proof {
        lemma_first_index_skip(v@, ':', k as int);
        assert(v@.skip(k as int).len() == 0);
    }
    None
}

fn action_from_word(word: &Vec<char>) -> (r: Option<PipelineSourceAction>)
    ensures
        r == action_named(word@),
{
    let copy = vec!['c', 'o', 'p', 'y'];
    let symlink = vec!['s', 'y', 'm', 'l', 'i', 'n', 'k'];
    let hardlink = vec!['h', 'a', 'r', 'd', 'l', 'i', 'n', 'k'];
    assert(copy@ =~= seq!['c', 'o', 'p', 'y']);
    assert(symlink@ =~= seq!['s', 'y', 'm', 'l', 'i', 'n', 'k']);
    assert(hardlink@ =~= seq!['h', 'a', 'r', 'd', 'l', 'i', 'n', 'k']);
    if chars_equal(word, &copy) {
        Some(PipelineSourceAction::Copy)
    } else if chars_equal(word, &symlink) {
        Some(PipelineSourceAction::SymLink)
    } else if chars_equal(word, &hardlink) {
        Some(PipelineSourceAction::HardLink)
    } else {
        None
    }
}

/// The source directories given on the command line, each written
/// `<action>:<path>`.
#[derive(Debug, Clone)]
pub struct GroupSource {
    pub source: Vec<String>,
}

impl GroupSource {
    /// Reads a source argument `<action>:<path>`: the action, `copy`, `symlink`
    /// or `hardlink`, ends at the first `:`, and the rest is the path, which may
    /// itself hold `:`.
    pub fn parse_source(source: &str) -> (r: Result<PipelineSource, SourceError>)
        ensures
            match r {
                Ok(s) => source_spec(source@) == Ok::<_, SourceError>(source_view(s)),
                Err(e) => source_spec(source@) == Err::<(PipelineSourceAction, Seq<char>), _>(e),
            },
    {
        let v = chars_of(source);
        match first_colon(&v) {
            None => Err(SourceError::MissingSeparator),
            Some(i) => {
                proof {
                    lemma_first_index_bounds(v@, ':');
                }
                let word = sub_chars(&v, 0, i);
                assert(word@ =~= v@.take(i as int));
                match action_from_word(&word) {
                    None => Err(SourceError::InvalidAction),
                    Some(action) => {
                        let path = sub_chars(&v, i + 1, v.len());
                        assert(path@ =~= v@.skip(i + 1));
                        Ok(PipelineSource { source: string_from_chars(path.as_slice()), action })
                    },
                }
            },
        }
    }

    /// Reads every source argument, in order; the first refused one decides the error.
    pub fn get_sources(&self) -> (r: Result<Vec<PipelineSource>, SourceError>)
        ensures
            match r {
                Ok(v) => sources_spec(crate::text::string_seqs(self.source@)) == Ok::<_, SourceError>(sources_view(v@)),
                Err(e) => sources_spec(crate::text::string_seqs(self.source@)) == Err::<Seq<(PipelineSourceAction, Seq<char>)>, _>(e),
            },
    {
        let ghost args = crate::text::string_seqs(self.source@);
        let mut out: Vec<PipelineSource> = Vec::new();
        let mut i: usize = 0;
        assert(args.take(0) =~= Seq::<Seq<char>>::empty());
        assert(sources_view(out@) =~= Seq::<(PipelineSourceAction, Seq<char>)>::empty());
        while i < self.source.len()
            invariant
                i <= self.source@.len(),
                args == crate::text::string_seqs(self.source@),
                sources_spec(args.take(i as int)) == Ok::<_, SourceError>(sources_view(out@)),
            decreases self.source@.len() - i,
        {
            assert(args.take(i + 1).drop_last() =~= args.take(i as int));
            assert(args.take(i + 1).last() == self.source@[i as int]@);
            match Self::parse_source(self.source[i].as_str()) {
                Err(e) => {
                    proof {
                        lemma_sources_error_sticks(args, i + 1);
                    }
                    return Err(e);
                },
                Ok(s) => {
                    let ghost before = out@;
                    out.push(s);
                    assert(sources_view(out@) =~= sources_view(before).push(source_view(s)));
                    assert(sources_spec(args.take(i + 1)) == Ok::<_, SourceError>(sources_view(before).push(source_view(s))));
                },
            }
            i = i + 1;
        }
        assert(args.take(self.source@.len() as int) =~= args);
        Ok(out)
    }
}

/// Once a prefix of the arguments is refused, so is every longer prefix, with
/// the same error.
proof fn lemma_sources_error_sticks(args: Seq<Seq<char>>, n: int)
    requires
        0 <= n <= args.len(),
        sources_spec(args.take(n)) is Err,
    ensures
        sources_spec(args) == sources_spec(args.take(n)),
    decreases args.len() - n,
{
    if n < args.len() {
        assert(args.take(n + 1).drop_last() =~= args.take(n));
        lemma_sources_error_sticks(args, n + 1);
    } else {
        assert(args.take(n) =~= args);
    }
}

} // verus!

verus! {

/// Where each track ID already present in a source lives, and how to take it over.
pub struct SourceMap {
    map: std::collections::HashMap<u128, (PipelineSourceAction, String)>,
}

pub open spec fn source_entry_view(e: (PipelineSourceAction, String)) -> (PipelineSourceAction, Seq<char>) {
    (e.0, e.1@)
}

impl View for SourceMap {
    type V = Map<u128, (PipelineSourceAction, Seq<char>)>;

    closed spec fn view(&self) -> Self::V {
        self.map@.map_values(|e: (PipelineSourceAction, String)| source_entry_view(e))
    }
}

/// `m` after recording every scanned item, in order, under `action`: a later
/// item for the same ID replaces an earlier one.
pub open spec fn with_items(
    m: Map<u128, (PipelineSourceAction, Seq<char>)>,
    items: Seq<ScanItem>,
    action: PipelineSourceAction,
) -> Map<u128, (PipelineSourceAction, Seq<char>)>
    decreases items.len(),
{
    if items.len() == 0 {
        m
    } else {
        with_items(m, items.drop_last(), action).insert(items.last().id.0, (action, items.last().path@))
    }
}

impl SourceMap {
    /// An index with no entries.
    pub fn new() -> (r: Self)
        ensures
            r@ == Map::<u128, (PipelineSourceAction, Seq<char>)>::empty(),
    {
        let r = SourceMap { map: std::collections::HashMap::new() };
        assert(r@ =~= Map::<u128, (PipelineSourceAction, Seq<char>)>::empty());
        r
    }

    /// Records the scanned items of one source.
    pub fn add_items(&mut self, items: &Vec<ScanItem>, action: PipelineSourceAction)
        ensures
            final(self)@ == with_items(old(self)@, items@, action),
    {
        broadcast use vstd::std_specs::hash::group_hash_axioms;
        let ghost start = self@;
        let mut i: usize = 0;
        assert(items@.take(0) =~= Seq::<ScanItem>::empty());
        while i < items.len()
            invariant
                i <= items@.len(),
                self@ == with_items(start, items@.take(i as int), action),
            decreases items@.len() - i,
        {
            let item = &items[i];
            let ghost before = self@;
            self.map.insert(item.id.0, (action, item.path.clone()));
            assert(items@.take(i + 1).drop_last() =~= items@.take(i as int));
            assert(self@ =~= before.insert(item.id.0, (action, item.path@)));
            i = i + 1;
        }
        assert(items@.take(items@.len() as int) =~= items@);
    }

    /// The source file for `id` and how to take it over, if a source holds it.
    pub fn get(&self, id: SpotifyId) -> (r: Option<(PipelineSourceAction, String)>)
        ensures
            match r {
                None => !self@.contains_key(id.0),
                Some(e) => self@.contains_key(id.0) && self@[id.0] == source_entry_view(e),
            },
    {
        broadcast use vstd::std_specs::hash::group_hash_axioms;
        match self.map.get(&id.0) {
            None => None,
            Some(e) => Some((e.0, e.1.clone())),
        }
    }
}

} // verus!

verus! {

/// Recording items reads back: an item's ID maps to that item's path under the
/// action given, unless a later item carries the same ID.
pub proof fn lemma_recorded_item_is_found(
    m: Map<u128, (PipelineSourceAction, Seq<char>)>,
    items: Seq<ScanItem>,
    action: PipelineSourceAction,
    k: int,
)
    requires
        0 <= k < items.len(),
        forall|j: int| k < j < items.len() ==> (#[trigger] items[j]).id != items[k].id,
    ensures
        with_items(m, items, action).contains_key(items[k].id.0),
        with_items(m, items, action)[items[k].id.0] == (action, items[k].path@),
    decreases items.len(),
{
    if k < items.len() - 1 {
        let rest = items.drop_last();
        assert(items.last() == items[items.len() - 1]);
        assert forall|j: int| k < j < rest.len() implies (#[trigger] rest[j]).id != rest[k].id by {
            assert(rest[j] == items[j]);
        }
        lemma_recorded_item_is_found(m, rest, action, k);
        assert(rest[k] == items[k]);
    }
}

/// IDs that no scanned item carries keep what the index held before.
pub proof fn lemma_untouched_ids_kept(
    m: Map<u128, (PipelineSourceAction, Seq<char>)>,
    items: Seq<ScanItem>,
    action: PipelineSourceAction,
    id: u128,
)
    requires
        forall|j: int| 0 <= j < items.len() ==> (#[trigger] items[j]).id.0 != id,
    ensures
        with_items(m, items, action).contains_key(id) == m.contains_key(id),
        m.contains_key(id) ==> with_items(m, items, action)[id] == m[id],
    decreases items.len(),
{
    if items.len() > 0 {
        let rest = items.drop_last();
        assert forall|j: int| 0 <= j < rest.len() implies (#[trigger] rest[j]).id.0 != id by {
            assert(rest[j] == items[j]);
        }
        lemma_untouched_ids_kept(m, rest, action, id);
        assert(items.last() == items[items.len() - 1]);
    }
}

} // verus!
