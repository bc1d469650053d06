//! The manifest: a list of resources to keep in sync, stored as text with one
//! `<uri> <description>` line per resource.

use vstd::prelude::*;
use crate::id::{ResourceId, uri_text, uri_resource_id};
use crate::text::{
    chars_of, string_from_chars, sub_chars, concat_chars, find, find_from, find_char,
    find_chars_from, occurs_at, char_views,
};

verus! {

broadcast use vstd::seq_lib::group_seq_properties;

/// One resource of the manifest and its human-readable description.
#[derive(Debug, Clone)]
pub struct ManifestEntry {
    pub resource_id: ResourceId,
    pub description: String,
}

/// The resources to keep in sync, in file order.
#[derive(Debug, Clone)]
pub struct Manifest {
    entries: Vec<ManifestEntry>,
}

/// Which part of a manifest line was not understood.
#[derive(Debug, Clone, Copy, PartialEq, Eq, Structural)]
pub enum ManifestFault {
    /// The line has no space between URI and description.
    MissingSeparator,
    /// The text before the first space is not a resource URI.
    InvalidUri,
}

/// A manifest line that could not be read: what was wrong, and the offending
/// text (the whole line, or its URI part).
#[derive(Debug, Clone)]
pub struct ManifestError {
    pub fault: ManifestFault,
    pub text: String,
}

pub type EntryView = (ResourceId, Seq<char>);

pub open spec fn entry_view(e: ManifestEntry) -> EntryView {
    (e.resource_id, e.description@)
}

pub open spec fn entries_view(es: Seq<ManifestEntry>) -> Seq<EntryView> {
    es.map_values(|e: ManifestEntry| entry_view(e))
}

impl View for Manifest {
    type V = Seq<EntryView>;

    closed spec fn view(&self) -> Seq<EntryView> {
        entries_view(self.entries@)
    }
}

// ---------------------------------------------------------------------------
// The text format.
// ---------------------------------------------------------------------------

/// A line without a trailing carriage return.
pub open spec fn strip_cr(l: Seq<char>) -> Seq<char> {
    if l.len() > 0 && l.last() == '\r' {
        l.drop_last()
    } else {
        l
    }
}

/// The lines of a text: split at each `\n`, a `\r` right before a `\n` dropped;
/// a final line without `\n` is kept as it is, and a final `\n` starts no line.
pub open spec fn lines(s: Seq<char>) -> Seq<Seq<char>>
    decreases s.len(),
{
    if s.len() == 0 {
        seq![]
    } else {
        match find(s, seq!['\n']) {
            None => seq![s],
            Some(i) => {
                proof {
                    crate::text::lemma_find_from_some(s, seq!['\n'], 0);
                }
                seq![strip_cr(s.take(i))] + lines(s.skip(i + 1))
            },
        }
    }
}

/// The line that stores an entry.
pub open spec fn entry_line(e: EntryView) -> Seq<char> {
    uri_text(e.0) + seq![' '] + e.1
}

/// The text that stores a manifest: each entry's line followed by `\n`.
pub open spec fn manifest_text(m: Seq<EntryView>) -> Seq<char>
    decreases m.len(),
{
    if m.len() == 0 {
        seq![]
    } else {
        entry_line(m[0]) + seq!['\n'] + manifest_text(m.drop_first())
    }
}

/// What one line says: the URI before the first space, the description after it.
pub open spec fn parse_line(l: Seq<char>) -> Result<EntryView, (ManifestFault, Seq<char>)> {
    match find(l, seq![' ']) {
        None => Err((ManifestFault::MissingSeparator, l)),
        Some(i) => match uri_resource_id(l.take(i)) {
            None => Err((ManifestFault::InvalidUri, l.take(i))),
            Some(r) => Ok((r, l.skip(i + 1))),
        },
    }
}

/// What a sequence of lines says: the entries of all lines, or the fault of the
/// first line that cannot be read.
pub open spec fn parse_lines(ls: Seq<Seq<char>>) -> Result<Seq<EntryView>, (ManifestFault, Seq<char>)>
    decreases ls.len(),
{
    if ls.len() == 0 {
        Ok(seq![])
    } else {
        match parse_line(ls[0]) {
            Err(e) => Err(e),
            Ok(e) => match parse_lines(ls.drop_first()) {
                Err(x) => Err(x),
                Ok(rest) => Ok(seq![e] + rest),
            },
        }
    }
}

/// What a manifest text says.
pub open spec fn parse_manifest_text(s: Seq<char>) -> Result<Seq<EntryView>, (ManifestFault, Seq<char>)> {
    parse_lines(lines(s))
}

/// Keeps the entries that are not for `rid`.
pub open spec fn not_for(rid: ResourceId) -> spec_fn(EntryView) -> bool {
    |e: EntryView| e.0 != rid
}

fn strip_cr_exec(l: Vec<char>) -> (r: Vec<char>)
    ensures
        r@ == strip_cr(l@),
{
    let mut l = l;
    if l.len() > 0 && l[l.len() - 1] == '\r' {
        l.pop();
    }
    l
}

/// The lines of `v`.
fn split_lines(v: &Vec<char>) -> (ls: Vec<Vec<char>>)
    ensures
        char_views(ls@) == lines(v@),
{
    let nl = vec!['\n'];
    assert(nl@ =~= seq!['\n']);
    let mut ls: Vec<Vec<char>> = Vec::new();
    let mut start: usize = 0;
    while start < v.len()
        invariant
            nl@ == seq!['\n'],
            start <= v@.len(),
            lines(v@) == char_views(ls@) + lines(v@.skip(start as int)),
        decreases v@.len() - start,
    {
        let ghost rest = v@.skip(start as int);
        proof {
            crate::text::lemma_find_from_skip(v@, seq!['\n'], start as int, 0);
            assert(rest.len() > 0);
        }
        match find_chars_from(v, &nl, start) {
            None => {
                let line = sub_chars(v, start, v.len());
                assert(line@ =~= rest);
                assert(lines(rest) == seq![rest]);
                ls.push(line);
                assert(v@.skip(v@.len() as int) =~= Seq::<char>::empty());
                assert(lines(v@.skip(v@.len() as int)) =~= Seq::<Seq<char>>::empty());
                start = v.len();
            },
            Some(i) => {
                proof {
                    crate::text::lemma_find_from_some(v@, seq!['\n'], start as int);
                }
                let line = strip_cr_exec(sub_chars(v, start, i));
                let ghost j = i - start;
                assert(v@.subrange(start as int, i as int) =~= rest.take(j));
                assert(rest.skip(j + 1) =~= v@.skip(i + 1));
                assert(lines(rest) == seq![strip_cr(rest.take(j))] + lines(rest.skip(j + 1)));
                ls.push(line);
                start = i + 1;
            },
        }
    }
    assert(v@.skip(start as int) =~= Seq::<char>::empty());
    ls
}

fn parse_line_exec(l: &Vec<char>) -> (r: Result<ManifestEntry, ManifestError>)
    ensures
        match r {
            Ok(e) => parse_line(l@) == Ok::<EntryView, (ManifestFault, Seq<char>)>(entry_view(e)),
            Err(e) => parse_line(l@) == Err::<EntryView, (ManifestFault, Seq<char>)>((e.fault, e.text@)),
        },
{
    let n = l.len();
    let i = match find_char(l, ' ') {
        None => {
            return Err(ManifestError { fault: ManifestFault::MissingSeparator, text: string_from_chars(l.as_slice()) });
        },
        Some(i) => i,
    };
    let uri = sub_chars(l, 0, i);
    assert(uri@ =~= l@.take(i as int));
    let uri_string = string_from_chars(uri.as_slice());
    match crate::id::parse_uri(uri_string.as_str()) {
        Err(_) => Err(ManifestError { fault: ManifestFault::InvalidUri, text: uri_string }),
        Ok(rid) => {
            let desc = sub_chars(l, i + 1, n);
            assert(desc@ =~= l@.skip(i + 1));
            Ok(ManifestEntry { resource_id: rid, description: string_from_chars(desc.as_slice()) })
        },
    }
}

proof fn lemma_manifest_text_push(m: Seq<EntryView>, e: EntryView)
    ensures
        manifest_text(m.push(e)) == manifest_text(m) + entry_line(e) + seq!['\n'],
    decreases m.len(),
{
    if m.len() == 0 {
        assert(m.push(e).drop_first() =~= Seq::<EntryView>::empty());
        assert(manifest_text(m.push(e)) =~= entry_line(e) + seq!['\n']);
    } else {
        assert(m.push(e).drop_first() =~= m.drop_first().push(e));
        lemma_manifest_text_push(m.drop_first(), e);
        assert(manifest_text(m.push(e)) =~= manifest_text(m) + entry_line(e) + seq!['\n']);
    }
}

/// An entry that the text format stores faithfully: a description without line
/// breaks that does not end in a carriage return, and a resource whose URI reads
/// back as itself (`lemma_uri_roundtrip` gives the resources for which it does).
pub open spec fn storable_entry(e: EntryView) -> bool {
    &&& uri_resource_id(uri_text(e.0)) == Some(e.0)
    &&& !e.1.contains('\n')
    &&& !(e.1.len() > 0 && e.1.last() == '\r')
}

/// The first occurrence of a character that a prefix lacks is right after it.
proof fn lemma_find_after_prefix(a: Seq<char>, b: Seq<char>, c: char)
    requires
        !a.contains(c),
        b.len() > 0,
        b[0] == c,
    ensures
        find(a + b, seq![c]) == Some(a.len() as int),
{
    let s = a + b;
    assert forall|j: int| 0 <= j < a.len() implies !occurs_at(s, seq![c], j) by {
        if occurs_at(s, seq![c], j) {
            assert(s.subrange(j, j + 1)[0] == s[j]);
            assert(s[j] == a[j]);
        }
    }
    assert(s.subrange(a.len() as int, a.len() as int + 1) =~= seq![c]);
    crate::text::lemma_find_from_at(s, seq![c], 0, a.len() as int);
}

/// Storing a manifest and reading it back gives the same entries, for entries
/// that the text format stores faithfully.
pub proof fn lemma_manifest_roundtrip(m: Seq<EntryView>)
    requires
        forall|i: int| 0 <= i < m.len() ==> storable_entry(#[trigger] m[i]),
    ensures
        parse_manifest_text(manifest_text(m)) == Ok::<Seq<EntryView>, (ManifestFault, Seq<char>)>(m),
    decreases m.len(),
{
    if m.len() == 0 {
        assert(lines(manifest_text(m)) =~= Seq::<Seq<char>>::empty());
    } else {
        let e = m[0];
        assert(storable_entry(e));
        let rest = m.drop_first();
        assert forall|i: int| 0 <= i < rest.len() implies storable_entry(#[trigger] rest[i]) by {
            assert(rest[i] == m[i + 1]);
        }
        lemma_manifest_roundtrip(rest);
        let uri = uri_text(e.0);
        let line = entry_line(e);
        let text = manifest_text(m);
        crate::id::lemma_uri_text_has_no_space(e.0);
        // The first line is the entry's line.
        assert(!line.contains('\n')) by {
            assert forall|k: int| 0 <= k < line.len() implies line[k] != '\n' by {
                if k < uri.len() {
                    assert(line[k] == uri[k]);
                } else if k > uri.len() {
                    assert(line[k] == e.1[k - uri.len() - 1]);
                }
            }
        }
        assert(text =~= line + (seq!['\n'] + manifest_text(rest)));
        lemma_find_after_prefix(line, seq!['\n'] + manifest_text(rest), '\n');
        assert(text.take(line.len() as int) =~= line);
        assert(text.skip(line.len() as int + 1) =~= manifest_text(rest));
        assert(strip_cr(line) == line) by {
            if e.1.len() == 0 {
                assert(line.last() == ' ');
            } else {
                assert(line.last() == e.1.last());
            }
        }
        assert(lines(text) == seq![line] + lines(manifest_text(rest)));
        // The line reads back as the entry.
        assert(line =~= uri + (seq![' '] + e.1));
        lemma_find_after_prefix(uri, seq![' '] + e.1, ' ');
        assert(line.take(uri.len() as int) =~= uri);
        assert(line.skip(uri.len() as int + 1) =~= e.1);
        assert(parse_line(line) == Ok::<EntryView, (ManifestFault, Seq<char>)>(e));
        assert((seq![line] + lines(manifest_text(rest))).drop_first() =~= lines(manifest_text(rest)));
        assert(seq![e] + rest =~= m);
    }
}

impl Manifest {
    /// A manifest with no entries.
    pub fn new() -> (m: Self)
        ensures
            m@ == Seq::<EntryView>::empty(),
    {
        Manifest { entries: Vec::new() }
    }

    /// The entries, in file order.
    pub fn entries(&self) -> (es: &Vec<ManifestEntry>)
        ensures
            entries_view(es@) == self@,
    {
        &self.entries
    }

    /// The resource of each entry, in file order.
    pub fn resource_ids(&self) -> (ids: Vec<ResourceId>)
        ensures
            ids@ == self@.map_values(|e: EntryView| e.0),
    {
        let mut ids: Vec<ResourceId> = Vec::new();
        let mut i: usize = 0;
        while i < self.entries.len()
            invariant
                i <= self.entries@.len(),
                ids@ == entries_view(self.entries@).take(i as int).map_values(|e: EntryView| e.0),
            decreases self.entries@.len() - i,
        {
            ids.push(self.entries[i].resource_id);
            assert(entries_view(self.entries@).take(i + 1).map_values(|e: EntryView| e.0) =~= entries_view(
                self.entries@,
            ).take(i as int).map_values(|e: EntryView| e.0).push(self.entries@[i as int].resource_id));
            i = i + 1;
        }
        assert(entries_view(self.entries@).take(self.entries@.len() as int) =~= entries_view(self.entries@));
        ids
    }

    /// Whether some entry is for `resource_id`.
    pub fn contains(&self, resource_id: &ResourceId) -> (b: bool)
        ensures
            b == exists|i: int| 0 <= i < self@.len() && (#[trigger] self@[i]).0 == *resource_id,
    {
        let mut i: usize = 0;
        while i < self.entries.len()
            invariant
                i <= self.entries@.len(),
                forall|j: int| 0 <= j < i ==> (#[trigger] self@[j]).0 != *resource_id,
            decreases self.entries@.len() - i,
        {
            if self.entries[i].resource_id == *resource_id {
                assert(self@[i as int].0 == *resource_id);
                return true;
            }
            i = i + 1;
        }
        false
    }

    /// Appends an entry.
    pub fn add(&mut self, resource_id: ResourceId, description: String)
        ensures
            final(self)@ == old(self)@.push((resource_id, description@)),
    {
        self.entries.push(ManifestEntry { resource_id, description });
        assert(self@ =~= old(self)@.push((resource_id, description@)));
    }

    /// Removes every entry for `resource_id`, keeping the others in order.
    pub fn remove(&mut self, resource_id: &ResourceId)
        ensures
            final(self)@ == old(self)@.filter(not_for(*resource_id)),
    {
        let rid = *resource_id;
        let ghost pred = not_for(rid);
        let mut old_entries: Vec<ManifestEntry> = Vec::new();
        std::mem::swap(&mut old_entries, &mut self.entries);
        let mut kept: Vec<ManifestEntry> = Vec::new();
        let mut i: usize = 0;
        while i < old_entries.len()
            invariant
                i <= old_entries@.len(),
                pred == not_for(rid),
                old_entries@ == old(self).entries@,
                entries_view(kept@) == entries_view(old_entries@).take(i as int).filter(pred),
            decreases old_entries@.len() - i,
        {
            let ghost before = entries_view(old_entries@).take(i as int);
            assert(entries_view(old_entries@).take(i + 1) =~= before.push(entry_view(old_entries@[i as int])));
            proof {
                before.lemma_filter_push(entry_view(old_entries@[i as int]), pred);
            }
            if old_entries[i].resource_id != rid {
                let ghost old_kept = kept@;
                let entry = ManifestEntry {
                    resource_id: old_entries[i].resource_id,
                    description: old_entries[i].description.clone(),
                };
                assert(entry_view(entry) == entry_view(old_entries@[i as int]));
                kept.push(entry);
                assert(entries_view(kept@) =~= entries_view(old_kept).push(entry_view(entry)));
            }
            i = i + 1;
        }
        assert(entries_view(old_entries@).take(old_entries@.len() as int) =~= entries_view(old_entries@));
        self.entries = kept;
        assert(self@ == entries_view(kept@));
    }

    /// Reads a manifest from its text.
    pub fn parse(contents: &str) -> (r: Result<Self, ManifestError>)
        ensures
            match r {
                Ok(m) => parse_manifest_text(contents@) == Ok::<Seq<EntryView>, (ManifestFault, Seq<char>)>(m@),
                Err(e) => parse_manifest_text(contents@) == Err::<Seq<EntryView>, (ManifestFault, Seq<char>)>((e.fault, e.text@)),
            },
    {
        let v = chars_of(contents);
        let ls = split_lines(&v);
        let ghost lv = char_views(ls@);
        let mut entries: Vec<ManifestEntry> = Vec::new();
        let mut i: usize = 0;
        while i < ls.len()
            invariant
                i <= ls@.len(),
                lv == char_views(ls@),
                lv == lines(contents@),
                parse_lines(lv) == match parse_lines(lv.skip(i as int)) {
                    Ok(rest) => Ok::<Seq<EntryView>, (ManifestFault, Seq<char>)>(entries_view(entries@) + rest),
                    Err(x) => Err(x),
                },
            decreases ls@.len() - i,
        {
            let ghost tail = lv.skip(i as int);
            assert(tail.len() > 0);
            assert(tail[0] == ls@[i as int]@);
            assert(tail.drop_first() =~= lv.skip(i + 1));
            assert(parse_lines(tail) == match parse_line(tail[0]) {
                Err(e) => Err(e),
                Ok(e) => match parse_lines(tail.drop_first()) {
                    Err(x) => Err(x),
                    Ok(rest) => Ok(seq![e] + rest),
                },
            });
            match parse_line_exec(&ls[i]) {
                Err(e) => {
                    assert(parse_line(tail[0]) == Err::<EntryView, (ManifestFault, Seq<char>)>((e.fault, e.text@)));
                    assert(parse_lines(tail) == Err::<Seq<EntryView>, (ManifestFault, Seq<char>)>((e.fault, e.text@)));
                    assert(parse_lines(lv) == Err::<Seq<EntryView>, (ManifestFault, Seq<char>)>((e.fault, e.text@)));
                    assert(lv == lines(contents@));
                    return Err(e);
                },
                Ok(e) => {
                    let ghost old_view = entries_view(entries@);
                    let ghost ev = entry_view(e);
                    entries.push(e);
                    assert(entries_view(entries@) =~= old_view.push(ev));
                    proof {
                        assert(parse_line(tail[0]) == Ok::<EntryView, (ManifestFault, Seq<char>)>(ev));
                        match parse_lines(lv.skip(i + 1)) {
                            Ok(rest) => {
                                assert(parse_lines(tail) == Ok::<Seq<EntryView>, (ManifestFault, Seq<char>)>(seq![ev] + rest));
                                assert(old_view.push(ev) + rest =~= old_view + (seq![ev] + rest));
                            },
                            Err(x) => {
                                assert(parse_lines(tail) == Err::<Seq<EntryView>, (ManifestFault, Seq<char>)>(x));
                            },
                        }
                    }
                },
            }
            i = i + 1;
        }
        assert(lv.skip(ls@.len() as int) =~= Seq::<Seq<char>>::empty());
        assert(entries_view(entries@) + Seq::<EntryView>::empty() =~= entries_view(entries@));
        Ok(Manifest { entries })
    }

    /// The text that stores this manifest.
    pub fn to_text(&self) -> (s: String)
        ensures
            s@ == manifest_text(self@),
    {
        let mut out: Vec<char> = Vec::new();
        let mut i: usize = 0;
        while i < self.entries.len()
            invariant
                i <= self.entries@.len(),
                out@ == manifest_text(self@.take(i as int)),
            decreases self.entries@.len() - i,
        {
            let e = &self.entries[i];
            let uri = chars_of(e.resource_id.to_uri().as_str());
            let desc = chars_of(e.description.as_str());
            let space = vec![' '];
            let newline = vec!['\n'];
            let a = concat_chars(&out, &uri);
            let b = concat_chars(&a, &space);
            let c = concat_chars(&b, &desc);
            out = concat_chars(&c, &newline);
            proof {
                assert(self@.take(i + 1) =~= self@.take(i as int).push(self@[i as int]));
                lemma_manifest_text_push(self@.take(i as int), self@[i as int]);
                assert(out@ =~= manifest_text(self@.take(i as int)) + entry_line(self@[i as int]) + seq!['\n']);
            }
            i = i + 1;
        }
        assert(self@.take(self@.len() as int) =~= self@);
        string_from_chars(out.as_slice())
    }
}

} // verus!

verus! {

/// Adding an entry lists its resource, after every entry already there.
pub proof fn lemma_added_is_listed(m: Seq<EntryView>, r: ResourceId, d: Seq<char>)
    ensures
        exists|i: int| 0 <= i < m.push((r, d)).len() && (#[trigger] m.push((r, d))[i]).0 == r,
        m.push((r, d)).take(m.len() as int) == m,
{
    assert(m.push((r, d))[m.len() as int].0 == r);
    assert(m.push((r, d)).take(m.len() as int) =~= m);
}

/// Removing a resource leaves no entry for it and keeps every entry for another
/// resource.
pub proof fn lemma_removed_is_gone(m: Seq<EntryView>, r: ResourceId)
    ensures
        forall|i: int| 0 <= i < m.filter(not_for(r)).len() ==> (#[trigger] m.filter(not_for(r))[i]).0 != r,
        forall|i: int| 0 <= i < m.len() && m[i].0 != r ==> m.filter(not_for(r)).contains(#[trigger] m[i]),
{
    assert forall|i: int| 0 <= i < m.filter(not_for(r)).len() implies (#[trigger] m.filter(not_for(r))[i]).0 != r by {
        m.lemma_filter_pred(not_for(r), i);
    }
    assert forall|i: int| 0 <= i < m.len() && m[i].0 != r implies m.filter(not_for(r)).contains(#[trigger] m[i]) by {
        m.lemma_filter_contains(not_for(r), i);
    }
}


/// No occurrence found from `start` on means there is none there.
proof fn lemma_find_none_means_absent(s: Seq<char>, pat: Seq<char>, start: int)
    requires
        0 <= start,
        find_from(s, pat, start) is None,
    ensures
        forall|j: int| start <= j ==> !occurs_at(s, pat, j),
    decreases s.len() + 1 - start,
{
    if start + pat.len() <= s.len() {
        lemma_find_none_means_absent(s, pat, start + 1);
        assert(s.subrange(start, start + pat.len()) != pat);
    }
}

/// A newline added after a text that ends in neither `\n` nor `\r` starts no
/// line and changes none: the lines are those of the text as it was.
pub proof fn lemma_lines_final_newline(s: Seq<char>)
    requires
        s.len() > 0,
        s.last() != '\n',
        s.last() != '\r',
    ensures
        lines(s.push('\n')) == lines(s),
    decreases s.len(),
{
    let nl = seq!['\n'];
    let t = s.push('\n');
    assert(t.subrange(s.len() as int, s.len() as int + 1) =~= nl);
    match find(s, nl) {
        None => {
            lemma_find_none_means_absent(s, nl, 0);
            assert forall|j: int| 0 <= j < s.len() implies !occurs_at(t, nl, j) by {
                assert(!occurs_at(s, nl, j));
                assert(t.subrange(j, j + 1) =~= s.subrange(j, j + 1));
            }
            crate::text::lemma_find_from_at(t, nl, 0, s.len() as int);
            assert(find(t, nl) == Some(s.len() as int));
            assert(t.take(s.len() as int) =~= s);
            assert(strip_cr(s) == s);
            assert(t.skip(s.len() as int + 1) =~= Seq::<char>::empty());
            assert(lines(Seq::<char>::empty()) == Seq::<Seq<char>>::empty());
            assert(lines(t) == seq![strip_cr(t.take(s.len() as int))] + lines(t.skip(s.len() as int + 1)));
            assert(lines(t) =~= seq![s]);
        },
        Some(i) => {
            crate::text::lemma_find_from_some(s, nl, 0);
            assert(s.subrange(i, i + 1)[0] == s[i]);
            assert(i < s.len() - 1);
            assert forall|j: int| 0 <= j < i implies !occurs_at(t, nl, j) by {
                assert(!occurs_at(s, nl, j));
                assert(t.subrange(j, j + 1) =~= s.subrange(j, j + 1));
            }
            assert(t.subrange(i, i + 1) =~= s.subrange(i, i + 1));
            crate::text::lemma_find_from_at(t, nl, 0, i);
            assert(t.take(i) =~= s.take(i));
            let rest = s.skip(i + 1);
            assert(t.skip(i + 1) =~= rest.push('\n'));
            assert(rest.last() == s.last());
            lemma_lines_final_newline(rest);
        },
    }
}

/// The stored text of a non-empty manifest ends in `\n`, right after the last
/// character of its last entry's line.
proof fn lemma_manifest_text_end(m: Seq<EntryView>)
    requires
        m.len() > 0,
    ensures
        manifest_text(m).len() >= 2,
        manifest_text(m).last() == '\n',
        manifest_text(m)[manifest_text(m).len() - 2] == entry_line(m.last()).last(),
    decreases m.len(),
{
    let rest = m.drop_first();
    let line = entry_line(m[0]);
    if rest.len() == 0 {
        assert(manifest_text(rest) =~= Seq::<char>::empty());
        assert(m.last() == m[0]);
    } else {
        lemma_manifest_text_end(rest);
        assert(rest.last() == m.last());
        let t = manifest_text(m);
        let tr = manifest_text(rest);
        assert(t == line + seq!['\n'] + tr);
        assert(t.last() == tr.last());
        assert(t[t.len() - 2] == tr[tr.len() - 2]);
    }
}

/// A stored manifest reads back as itself also when its final newline is
/// missing, as in a hand-edited file: the last line counts whether or not a
/// newline ends it.
pub proof fn lemma_manifest_roundtrip_without_final_newline(m: Seq<EntryView>)
    requires
        m.len() > 0,
        forall|i: int| 0 <= i < m.len() ==> storable_entry(#[trigger] m[i]),
    ensures
        parse_manifest_text(manifest_text(m).drop_last()) == Ok::<Seq<EntryView>, (ManifestFault, Seq<char>)>(m),
{
    let t = manifest_text(m);
    lemma_manifest_text_end(m);
    lemma_manifest_roundtrip(m);
    let e = m.last();
    assert(storable_entry(m[m.len() - 1]));
    let line = entry_line(e);
    assert(line.last() != '\n' && line.last() != '\r') by {
        if e.1.len() == 0 {
            assert(line.last() == ' ');
        } else {
            assert(line.last() == e.1.last());
            assert(e.1[e.1.len() - 1] == e.1.last());
        }
    }
    let u = t.drop_last();
    assert(u.last() == t[t.len() - 2]);
    lemma_lines_final_newline(u);
    assert(u.push('\n') =~= t);
}

} // verus!
