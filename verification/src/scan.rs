//! Which files a scan looks at, and the Spotify track ID that a file's tag holds.

use vstd::prelude::*;
use vstd::utf8::{encode_utf8, decode_utf8, is_char_boundary};
use vstd::string::StringSliceAdditionalSpecFns;
use crate::id::{SpotifyId, is_id_text, base62_value};
use crate::text::{
    chars_of, string_from_chars, sub_chars, find, find_chars_from, chars_equal, char_views,
};

verus! {

broadcast use vstd::seq_lib::group_seq_properties, vstd::string::group_string_axioms;

/// The directories and files to scan, and those to leave out.
#[derive(Debug, Clone)]
pub struct ScanParams {
    pub includes: Vec<String>,
    pub exclude: Vec<String>,
}

/// A scanned file and the Spotify track ID its tag holds.
#[derive(Debug, Clone)]
pub struct ScanItem {
    pub path: String,
    pub id: SpotifyId,
}

pub open spec fn string_views(v: Seq<String>) -> Seq<Seq<char>> {
    v.map_values(|s: String| s@)
}

// ---------------------------------------------------------------------------
// Path components.
// ---------------------------------------------------------------------------

/// Whether a `/`-separated segment is a component: empty segments never are, and
/// `.` only as the first segment of a relative path.
pub open spec fn keep_segment(seg: Seq<char>, first: bool) -> bool {
    seg.len() > 0 && (first || seg != seq!['.'])
}

/// The components of the `/`-separated segments of `s`.
pub open spec fn segment_components(s: Seq<char>, first: bool) -> Seq<Seq<char>>
    decreases s.len(),
{
    match find(s, seq!['/']) {
        None => if keep_segment(s, first) {
            seq![s]
        } else {
            seq![]
        },
        Some(i) => {
            proof {
                crate::text::lemma_find_from_some(s, seq!['/'], 0);
            }
            (if keep_segment(s.take(i), first) {
                seq![s.take(i)]
            } else {
                seq![]
            }) + segment_components(s.skip(i + 1), false)
        },
    }
}

/// The components of a path, as `std::path::Path` reads them: a leading `/` is a
/// component of its own, repeated separators and interior `.` segments vanish.
pub open spec fn path_components(s: Seq<char>) -> Seq<Seq<char>> {
    if s.len() > 0 && s[0] == '/' {
        seq![seq!['/']] + segment_components(s.skip(1), false)
    } else {
        segment_components(s, true)
    }
}

/// Whether the components of `base` begin the components of `path`.
pub open spec fn path_starts_with(path: Seq<char>, base: Seq<char>) -> bool {
    let p = path_components(path);
    let b = path_components(base);
    b.len() <= p.len() && p.take(b.len() as int) == b
}

/// Whether some entry of `excludes` begins `path`.
pub open spec fn excluded_by(excludes: Seq<Seq<char>>, path: Seq<char>) -> bool {
    exists|i: int| 0 <= i < excludes.len() && path_starts_with(path, #[trigger] excludes[i])
}

fn segment_components_exec(v: &Vec<char>, from: usize, first: bool, init: Vec<Vec<char>>) -> (cs: Vec<Vec<char>>)
    requires
        from <= v@.len(),
    ensures
        char_views(cs@) == char_views(init@) + segment_components(v@.skip(from as int), first),
{
    let slash = vec!['/'];
    assert(slash@ =~= seq!['/']);
    let n = v.len();
    let mut cs: Vec<Vec<char>> = init;
    let mut start = from;
    let mut is_first = first;
    let mut done = false;
    while !done
        invariant
            slash@ == seq!['/'],
            n == v@.len(),
            from <= start <= v@.len(),
            done ==> char_views(cs@) == char_views(init@) + segment_components(v@.skip(from as int), first),
            !done ==> char_views(init@) + segment_components(v@.skip(from as int), first) == char_views(cs@)
                + segment_components(v@.skip(start as int), is_first),
        decreases v@.len() - start, (if done { 0int } else { 1int }),
    {
        let ghost rest = v@.skip(start as int);
        proof {
            crate::text::lemma_find_from_skip(v@, seq!['/'], start as int, 0);
        }
        match find_chars_from(v, &slash, start) {
            None => {
                let seg = sub_chars(v, start, v.len());
                assert(seg@ =~= rest);
                let ghost before = char_views(cs@);
                if seg.len() > 0 && (is_first || !(seg.len() == 1 && seg[0] == '.')) {
                    assert(keep_segment(seg@, is_first)) by {
                        if !is_first {
                            assert(seg@ != seq!['.']) by {
                                if seg@.len() == 1 {
                                    assert(seg@[0] != '.');
                                }
                            }
                        }
                    }
                    cs.push(seg);
                    assert(char_views(cs@) =~= before + seq![rest]);
                    assert(before + seq![rest] =~= before + segment_components(rest, is_first));
                } else {
                    assert(!keep_segment(seg@, is_first)) by {
                        if seg@.len() > 0 {
                            assert(seg@ =~= seq!['.']);
                        }
                    }
                    assert(before + segment_components(rest, is_first) =~= before);
                }
                done = true;
            },
            Some(i) => {
                proof {
                    crate::text::lemma_find_from_some(v@, seq!['/'], start as int);
                }
                let seg = sub_chars(v, start, i);
                let ghost j = i - start;
                assert(seg@ =~= rest.take(j));
                assert(rest.skip(j + 1) =~= v@.skip(i + 1));
                let ghost before = char_views(cs@);
                if seg.len() > 0 && (is_first || !(seg.len() == 1 && seg[0] == '.')) {
                    assert(keep_segment(seg@, is_first)) by {
                        if !is_first {
                            assert(seg@ != seq!['.']) by {
                                if seg@.len() == 1 {
                                    assert(seg@[0] != '.');
                                }
                            }
                        }
                    }
                    cs.push(seg);
                    assert(char_views(cs@) =~= before + seq![rest.take(j)]);
                    assert(before + (seq![rest.take(j)] + segment_components(rest.skip(j + 1), false))
                        =~= char_views(cs@) + segment_components(rest.skip(j + 1), false));
                } else {
                    assert(!keep_segment(seg@, is_first)) by {
                        if seg@.len() > 0 {
                            assert(seg@ =~= seq!['.']);
                        }
                    }
                    assert(before + (Seq::<Seq<char>>::empty() + segment_components(rest.skip(j + 1), false))
                        =~= before + segment_components(rest.skip(j + 1), false));
                }
                start = i + 1;
                is_first = false;
            },
        }
    }
    cs
}

fn path_components_exec(v: &Vec<char>) -> (cs: Vec<Vec<char>>)
    ensures
        char_views(cs@) == path_components(v@),
{
    if v.len() > 0 && v[0] == '/' {
        let root = vec!['/'];
        assert(root@ =~= seq!['/']);
        let mut init: Vec<Vec<char>> = Vec::new();
        init.push(root);
        assert(char_views(init@) =~= seq![seq!['/']]);
        segment_components_exec(v, 1, false, init)
    } else {
        assert(v@.skip(0) =~= v@);
        let cs = segment_components_exec(v, 0, true, Vec::new());
        assert(char_views(Seq::<Vec<char>>::empty()) =~= Seq::<Seq<char>>::empty());
        assert(Seq::<Seq<char>>::empty() + segment_components(v@, true) =~= segment_components(v@, true));
        cs
    }
}

/// Whether the components of `path` begin with those of `base`.
pub fn starts_with_path(path: &str, base: &str) -> (r: bool)
    ensures
        r == path_starts_with(path@, base@),
{
    let p = path_components_exec(&chars_of(path));
    let b = path_components_exec(&chars_of(base));
    if b.len() > p.len() {
        return false;
    }
    let mut i: usize = 0;
    while i < b.len()
        invariant
            char_views(p@) == path_components(path@),
            char_views(b@) == path_components(base@),
            b@.len() <= p@.len(),
            i <= b@.len(),
            forall|j: int| 0 <= j < i ==> char_views(p@)[j] == char_views(b@)[j],
        decreases b@.len() - i,
    {
        if !chars_equal(&p[i], &b[i]) {
            assert(char_views(p@).take(b@.len() as int)[i as int] != char_views(b@)[i as int]);
            return false;
        }
        i = i + 1;
    }
    assert(char_views(p@).take(b@.len() as int) =~= char_views(b@));
    true
}

fn push_string(v: &mut Vec<String>, s: &str)
    ensures
        string_views(final(v)@) == string_views(old(v)@).push(s@),
{
    let owned = s.to_owned();
    v.push(owned);
    assert(string_views(v@) =~= string_views(old(v)@).push(s@));
}

impl Default for ScanParams {
    fn default() -> (r: Self)
        ensures
            r.includes@.len() == 0,
            r.exclude@.len() == 0,
    {
        ScanParams { includes: Vec::new(), exclude: Vec::new() }
    }
}

impl ScanParams {
    /// Adds a directory or file to scan.
    pub fn include_path(&mut self, path: &str)
        ensures
            string_views(final(self).includes@) == string_views(old(self).includes@).push(path@),
            final(self).exclude@ == old(self).exclude@,
    {
        push_string(&mut self.includes, path);
    }

    /// Adds a directory or file to leave out.
    pub fn exclude(&mut self, path: &str)
        ensures
            string_views(final(self).exclude@) == string_views(old(self).exclude@).push(path@),
            final(self).includes@ == old(self).includes@,
    {
        push_string(&mut self.exclude, path);
    }

    /// These parameters with one more directory or file to scan.
    pub fn with_include(self, path: &str) -> (r: Self)
        ensures
            string_views(r.includes@) == string_views(self.includes@).push(path@),
            r.exclude@ == self.exclude@,
    {
        let mut this = self;
        this.include_path(path);
        this
    }

    /// These parameters with one more directory or file to leave out.
    pub fn with_exclude(self, path: &str) -> (r: Self)
        ensures
            string_views(r.exclude@) == string_views(self.exclude@).push(path@),
            r.includes@ == self.includes@,
    {
        let mut this = self;
        this.exclude(path);
        this
    }

    /// Whether `path` is an excluded entry or lies below one, comparing path
    /// components as given (callers pass resolved paths).
    pub fn should_exclude(&self, path: &str) -> (r: bool)
        ensures
            r == excluded_by(string_views(self.exclude@), path@),
    {
        let mut i: usize = 0;
        while i < self.exclude.len()
            invariant
                i <= self.exclude@.len(),
                forall|j: int| 0 <= j < i ==> !path_starts_with(path@, #[trigger] string_views(self.exclude@)[j]),
            decreases self.exclude@.len() - i,
        {
            if starts_with_path(path, self.exclude[i].as_str()) {
                assert(path_starts_with(path@, string_views(self.exclude@)[i as int]));
                return true;
            }
            i = i + 1;
        }
        false
    }
}

// ---------------------------------------------------------------------------
// File names and extensions.
// ---------------------------------------------------------------------------

/// The final component of a path, unless it is the root, `.` or `..`.
pub open spec fn file_name(s: Seq<char>) -> Option<Seq<char>> {
    let c = path_components(s);
    if c.len() == 0 {
        None
    } else {
        let last = c.last();
        if last == seq!['/'] || last == seq!['.'] || last == seq!['.', '.'] {
            None
        } else {
            Some(last)
        }
    }
}

/// The text after the last `.` of a file name, unless the name has no `.` other
/// than a leading one.
pub open spec fn name_extension(name: Seq<char>) -> Option<Seq<char>> {
    match last_dot(name, name.len() as int) {
        None => None,
        Some(i) => if i == 0 {
            None
        } else {
            Some(name.skip(i + 1))
        },
    }
}

/// The index of the last `.` before index `end`.
pub open spec fn last_dot(s: Seq<char>, end: int) -> Option<int>
    decreases end,
{
    if end <= 0 {
        None
    } else if s[end - 1] == '.' {
        Some(end - 1)
    } else {
        last_dot(s, end - 1)
    }
}

/// The extension of a path's file name.
pub open spec fn path_extension(s: Seq<char>) -> Option<Seq<char>> {
    match file_name(s) {
        None => None,
        Some(n) => name_extension(n),
    }
}

/// The extensions of the audio files a scan reads tags from.
pub open spec fn scannable_extension(e: Seq<char>) -> bool {
    ||| e == seq!['m', 'p', '3']
    ||| e == seq!['w', 'a', 'v']
    ||| e == seq!['f', 'l', 'a', 'c']
    ||| e == seq!['o', 'g', 'g']
    ||| e == seq!['m', '4', 'a']
}

fn last_dot_exec(s: &Vec<char>) -> (r: Option<usize>)
    ensures
        match r {
            Some(i) => last_dot(s@, s@.len() as int) == Some(i as int) && i < s@.len(),
            None => last_dot(s@, s@.len() as int) is None,
        },
{
    let mut end = s.len();
    while end > 0
        invariant
            end <= s@.len(),
            last_dot(s@, s@.len() as int) == last_dot(s@, end as int),
        decreases end,
    {
        if s[end - 1] == '.' {
            return Some(end - 1);
        }
        end = end - 1;
    }
    None
}

pub(crate) fn file_name_exec(v: &Vec<char>) -> (r: Option<Vec<char>>)
    ensures
        match r {
            Some(n) => file_name(v@) == Some(n@),
            None => file_name(v@) is None,
        },
{
    let cs = path_components_exec(v);
    if cs.len() == 0 {
        return None;
    }
    let last = cs[cs.len() - 1].clone();
    assert(last@ == char_views(cs@).last());
    let root = vec!['/'];
    let dot = vec!['.'];
    let dotdot = vec!['.', '.'];
    assert(root@ =~= seq!['/']);
    assert(dot@ =~= seq!['.']);
    assert(dotdot@ =~= seq!['.', '.']);
    if chars_equal(&last, &root) || chars_equal(&last, &dot) || chars_equal(&last, &dotdot) {
        None
    } else {
        Some(last)
    }
}

pub(crate) fn path_extension_chars(path: &str) -> (r: Option<Vec<char>>)
    ensures
        match r {
            Some(e) => path_extension(path@) == Some(e@),
            None => path_extension(path@) is None,
        },
{
    let name = match file_name_exec(&chars_of(path)) {
        Some(n) => n,
        None => return None,
    };
    let nl = name.len();
    match last_dot_exec(&name) {
        None => None,
        Some(i) => if i == 0 {
            None
        } else {
            let e = sub_chars(&name, i + 1, nl);
            assert(e@ =~= name@.skip(i + 1));
            Some(e)
        },
    }
}

/// The extension of a path's file name.
pub fn path_extension_of(path: &str) -> (r: Option<String>)
    ensures
        match r {
            Some(e) => path_extension(path@) == Some(e@),
            None => path_extension(path@) is None,
        },
{
    match path_extension_chars(path) {
        Some(e) => Some(string_from_chars(e.as_slice())),
        None => None,
    }
}

/// Whether a scan reads the tag of the file at `path`, going by its extension.
pub fn has_scannable_extension(path: &str) -> (r: bool)
    ensures
        r == (path_extension(path@) matches Some(e) && scannable_extension(e)),
{
    let e = match path_extension_chars(path) {
        Some(e) => e,
        None => return false,
    };
    let mp3 = vec!['m', 'p', '3'];
    let wav = vec!['w', 'a', 'v'];
    let flac = vec!['f', 'l', 'a', 'c'];
    let ogg = vec!['o', 'g', 'g'];
    let m4a = vec!['m', '4', 'a'];
    assert(mp3@ =~= seq!['m', 'p', '3']);
    assert(wav@ =~= seq!['w', 'a', 'v']);
    assert(flac@ =~= seq!['f', 'l', 'a', 'c']);
    assert(ogg@ =~= seq!['o', 'g', 'g']);
    assert(m4a@ =~= seq!['m', '4', 'a']);
    chars_equal(&e, &mp3) || chars_equal(&e, &wav) || chars_equal(&e, &flac) || chars_equal(&e, &ogg)
        || chars_equal(&e, &m4a)
}

/// Whether the path's extension is `wav`, whose tags sit in a RIFF chunk.
pub fn is_wav_path(path: &str) -> (r: bool)
    ensures
        r == (path_extension(path@) == Some(seq!['w', 'a', 'v'])),
{
    match path_extension_chars(path) {
        Some(e) => {
            let w = vec!['w', 'a', 'v'];
            assert(w@ =~= seq!['w', 'a', 'v']);
            chars_equal(&e, &w)
        },
        None => false,
    }
}

// ---------------------------------------------------------------------------
// The track ID in a tag.
// ---------------------------------------------------------------------------

/// A user-defined text frame of a tag: a description and a value.
#[derive(Debug, Clone)]
pub struct ExtendedText {
    pub description: String,
    pub value: String,
}

/// The description of the text frame that holds a file's Spotify track ID.
pub open spec fn track_id_description() -> Seq<char> {
    seq!['s', 'p', 'o', 't', 'i', 'f', 'y', '_', 't', 'r', 'a', 'c', 'k', '_', 'i', 'd']
}

/// The characters of the first 22 bytes of a frame value.
pub open spec fn value_head(value: Seq<char>) -> Seq<char> {
    decode_utf8(encode_utf8(value).take(22))
}

/// Whether this frame is a track-ID frame whose value is at least 22 bytes long.
pub open spec fn long_id_frame(t: ExtendedText) -> bool {
    t.description@ == track_id_description() && encode_utf8(t.value@).len() >= 22
}

/// Whether this frame yields a track ID: a track-ID frame whose first 22 bytes
/// are a valid ID (a value may carry a trailing NUL after the ID).
pub open spec fn frame_yields_id(t: ExtendedText) -> bool {
    long_id_frame(t) && is_char_boundary(encode_utf8(t.value@), 22) && is_id_text(value_head(t.value@))
}

/// The track ID found in the first frame that yields one.
pub open spec fn tag_track_id(texts: Seq<ExtendedText>) -> Option<SpotifyId>
    decreases texts.len(),
{
    if texts.len() == 0 {
        None
    } else if frame_yields_id(texts[0]) {
        Some(SpotifyId(base62_value(value_head(texts[0].value@)) as u128))
    } else {
        tag_track_id(texts.drop_first())
    }
}

/// Whether the search meets, before any frame that yields an ID, a track-ID frame
/// whose 22nd byte ends inside a multi-byte character (cutting the value there is
/// not possible).
pub open spec fn tag_search_breaks(texts: Seq<ExtendedText>) -> bool
    decreases texts.len(),
{
    if texts.len() == 0 {
        false
    } else if long_id_frame(texts[0]) && !is_char_boundary(encode_utf8(texts[0].value@), 22) {
        true
    } else if frame_yields_id(texts[0]) {
        false
    } else {
        tag_search_breaks(texts.drop_first())
    }
}

fn is_track_id_description(d: &str) -> (r: bool)
    ensures
        r == (d@ == track_id_description()),
{
    let want = vec!['s', 'p', 'o', 't', 'i', 'f', 'y', '_', 't', 'r', 'a', 'c', 'k', '_', 'i', 'd'];
    assert(want@ =~= track_id_description());
    chars_equal(&chars_of(d), &want)
}

/// The Spotify track ID held by a tag's text frames: the first frame described
/// `spotify_track_id` whose value starts with a valid 22-character ID.
pub fn track_id_in_tag(texts: &Vec<ExtendedText>) -> (r: Option<SpotifyId>)
    requires
        !tag_search_breaks(texts@),
    ensures
        r == tag_track_id(texts@),
{
    let mut i: usize = 0;
    while i < texts.len()
        invariant
            i <= texts@.len(),
            tag_track_id(texts@) == tag_track_id(texts@.skip(i as int)),
            !tag_search_breaks(texts@.skip(i as int)),
        decreases texts@.len() - i,
    {
        let ghost rest = texts@.skip(i as int);
        assert(rest[0] == texts@[i as int]);
        assert(rest.drop_first() =~= texts@.skip(i + 1));
        let t = &texts[i];
        proof {
            assert(tag_track_id(rest) == if frame_yields_id(rest[0]) {
                Some(SpotifyId(base62_value(value_head(rest[0].value@)) as u128))
            } else {
                tag_track_id(rest.drop_first())
            });
        }
        let is_id_frame = is_track_id_description(t.description.as_str());
        let byte_len = t.value.as_str().as_bytes().len();
        assert(byte_len == encode_utf8(t.value@).len());
        if !is_id_frame || byte_len < 22 {
            assert(!long_id_frame(rest[0]));
        }
        if is_id_frame && byte_len >= 22 {
            let value = t.value.as_str();
            assert(long_id_frame(*t));
            let (head, _) = value.split_at(22);
            proof {
                vstd::utf8::encode_utf8_decode_utf8(head@);
                assert(head.spec_bytes() == encode_utf8(head@));
                assert(head@ == value_head(t.value@));
            }
            if let Ok(id) = crate::id::parse_id(head) {
                return Some(id);
            }
            assert(!is_id_text(value_head(rest[0].value@)));
        }
        assert(!frame_yields_id(rest[0]));
        i = i + 1;
    }
    assert(texts@.skip(i as int) =~= Seq::<ExtendedText>::empty());
    None
}

} // verus!

verus! {

proof fn lemma_find_from_none_means_absent(s: Seq<char>, pat: Seq<char>, start: int, j: int)
    requires
        0 <= start <= j,
        crate::text::find_from(s, pat, start) is None,
    ensures
        !crate::text::occurs_at(s, pat, j),
    decreases j - start,
{
    if start < j && !(start + pat.len() > s.len()) {
        lemma_find_from_none_means_absent(s, pat, start + 1, j);
    }
}

/// The first `/` of `a/b` is the first `/` of `a`, or the one after `a`.
proof fn lemma_find_slash_concat(a: Seq<char>, b: Seq<char>)
    ensures
        find(a + seq!['/'] + b, seq!['/']) == match find(a, seq!['/']) {
            Some(i) => Some(i),
            None => Some(a.len() as int),
        },
{
    let s = a + seq!['/'] + b;
    let sl = seq!['/'];
    match find(a, sl) {
        Some(i) => {
            crate::text::lemma_find_from_some(a, sl, 0);
            assert(s.subrange(i, i + 1) =~= a.subrange(i, i + 1));
            assert forall|j: int| 0 <= j < i implies !crate::text::occurs_at(s, sl, j) by {
                assert(!crate::text::occurs_at(a, sl, j));
                assert(s.subrange(j, j + 1) =~= a.subrange(j, j + 1));
            }
            crate::text::lemma_find_from_at(s, sl, 0, i);
        },
        None => {
            let n = a.len() as int;
            assert(s.subrange(n, n + 1) =~= sl);
            assert forall|j: int| 0 <= j < n implies !crate::text::occurs_at(s, sl, j) by {
                lemma_find_from_none_means_absent(a, sl, 0, j);
                assert(s.subrange(j, j + 1) =~= a.subrange(j, j + 1));
            }
            crate::text::lemma_find_from_at(s, sl, 0, n);
        },
    }
}

/// The segments of `a/b` are those of `a` followed by those of `b`.
proof fn lemma_segments_concat(a: Seq<char>, b: Seq<char>, first: bool)
    ensures
        segment_components(a + seq!['/'] + b, first) == segment_components(a, first) + segment_components(b, false),
    decreases a.len(),
{
    let s = a + seq!['/'] + b;
    lemma_find_slash_concat(a, b);
    match find(a, seq!['/']) {
        Some(i) => {
            crate::text::lemma_find_from_some(a, seq!['/'], 0);
            let a2 = a.skip(i + 1);
            assert(s.take(i) =~= a.take(i));
            assert(s.skip(i + 1) =~= a2 + seq!['/'] + b);
            lemma_segments_concat(a2, b, false);
            let k: Seq<Seq<char>> = if keep_segment(a.take(i), first) {
                seq![a.take(i)]
            } else {
                seq![]
            };
            assert(segment_components(s, first) == k + segment_components(a2 + seq!['/'] + b, false));
            assert(segment_components(a, first) == k + segment_components(a2, false));
            assert(k + (segment_components(a2, false) + segment_components(b, false)) =~= (k + segment_components(
                a2,
                false,
            )) + segment_components(b, false));
        },
        None => {
            let n = a.len() as int;
            assert(s.take(n) =~= a);
            assert(s.skip(n + 1) =~= b);
        },
    }
}

/// An excluded entry leaves out itself and everything below it: a path equal to
/// an entry of `excludes`, or an entry followed by `/` and more, is excluded,
/// whatever is included.
pub proof fn lemma_excluded_entry_and_below(excludes: Seq<Seq<char>>, k: int, rest: Seq<char>)
    requires
        0 <= k < excludes.len(),
    ensures
        excluded_by(excludes, excludes[k]),
        excluded_by(excludes, excludes[k] + seq!['/'] + rest),
{
    let e = excludes[k];
    let p = e + seq!['/'] + rest;
    assert(path_components(e).take(path_components(e).len() as int) =~= path_components(e));
    assert(path_starts_with(e, e));
    let pc = path_components(p);
    let ec = path_components(e);
    if e.len() > 0 && e[0] == '/' {
        assert(p.skip(1) =~= e.skip(1) + seq!['/'] + rest);
        lemma_segments_concat(e.skip(1), rest, false);
        assert(pc =~= ec + segment_components(rest, false));
    } else if e.len() > 0 {
        lemma_segments_concat(e, rest, true);
        assert(pc =~= ec + segment_components(rest, true && false));
    } else {
        assert(!keep_segment(e, true));
        assert(find(e, seq!['/']) is None);
        assert(ec =~= Seq::<Seq<char>>::empty());
    }
    assert(pc.take(ec.len() as int) =~= ec);
    assert(path_starts_with(p, e));
}

} // verus!
