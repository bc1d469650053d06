//! The post-processing stages of a downloaded track and the paths they write:
//! conversion with ffmpeg, tagging, and filing the track under
//! `<artist>/<album>/[Disc <n>/]<number> - <title>.<ext>`.

use vstd::prelude::*;
use crate::id::{SpotifyId, id_text};
use crate::metadata::{Album, Artist, Track};
use crate::scan::{file_name, path_extension};
use crate::text::{chars_of, concat_chars, decimal, decimal_chars, string_from_chars};

verus! {

broadcast use vstd::seq_lib::group_seq_properties, vstd::string::group_string_axioms;

// ---------------------------------------------------------------------------
// Joining paths.
// ---------------------------------------------------------------------------

/// `base` with `p` appended as `PathBuf::push` does on Unix: an absolute `p`
/// replaces `base`; otherwise a `/` goes between them unless `base` is empty
/// or already ends with one.
pub open spec fn path_push(base: Seq<char>, p: Seq<char>) -> Seq<char> {
    if p.len() > 0 && p[0] == '/' {
        p
    } else if base.len() > 0 && base.last() != '/' {
        base + seq!['/'] + p
    } else {
        base + p
    }
}

/// `.<ext>` for a non-empty extension, nothing otherwise.
pub open spec fn extension_suffix(ext: Option<Seq<char>>) -> Seq<char> {
    match ext {
        Some(e) if e.len() > 0 => seq!['.'] + e,
        _ => seq![],
    }
}

fn push_path_chars(base: &Vec<char>, p: &Vec<char>) -> (r: Vec<char>)
    ensures
        r@ == path_push(base@, p@),
{
    if p.len() > 0 && p[0] == '/' {
        p.clone()
    } else if base.len() > 0 && base[base.len() - 1] != '/' {
        let mut b = base.clone();
        b.push('/');
        concat_chars(&b, p)
    } else {
        concat_chars(base, p)
    }
}

/// `base` joined with `p`, as `Path::join` does on Unix.
pub fn join_path(base: &str, p: &str) -> (r: String)
    ensures
        r@ == path_push(base@, p@),
{
    let joined = push_path_chars(&chars_of(base), &chars_of(p));
    string_from_chars(joined.as_slice())
}

fn with_suffix(v: &Vec<char>, ext: &Option<Vec<char>>) -> (r: Vec<char>)
    ensures
        r@ == v@ + extension_suffix(match ext {
            Some(e) => Some(e@),
            None => None,
        }),
{
    match ext {
        Some(e) => if e.len() > 0 {
            let d = vec!['.'];
            let suffix = concat_chars(&d, e);
            assert(suffix@ =~= seq!['.'] + e@);
            concat_chars(v, &suffix)
        } else {
            assert(v@ + seq![] =~= v@);
            v.clone()
        },
        None => {
            assert(v@ + seq![] =~= v@);
            v.clone()
        },
    }
}

/// Where a file taken over from a source goes in a working directory: under
/// its own file name. `None` when the source path has no file name.
pub fn linked_file_path(work_dir: &str, source_path: &str) -> (r: Option<String>)
    ensures
        match r {
            None => file_name(source_path@) is None,
            Some(p) => file_name(source_path@) matches Some(n) && p@ == path_push(work_dir@, n),
        },
{
    let v = chars_of(source_path);
    match crate::scan::file_name_exec(&v) {
        None => None,
        Some(name) => {
            let joined = push_path_chars(&chars_of(work_dir), &name);
            Some(string_from_chars(joined.as_slice()))
        },
    }
}

// ---------------------------------------------------------------------------
// The ffmpeg stage.
// ---------------------------------------------------------------------------

/// Converts the track to another audio format with ffmpeg, at 320 kbit/s.
#[derive(Debug, Clone)]
pub struct FFmpegStage {
    ffmpeg_path: String,
    format: String,
}

pub open spec fn stage_ffmpeg_name() -> Seq<char> {
    seq!['s', 't', 'a', 'g', 'e', '_', 'f', 'f', 'm', 'p', 'e', 'g']
}

impl FFmpegStage {
    /// A stage that runs the ffmpeg at `ffmpeg_path` to convert to `format`.
    pub fn new(ffmpeg_path: &str, format: &str) -> (r: Self)
        ensures
            r.program()@ == ffmpeg_path@,
            r.format()@ == format@,
    {
        FFmpegStage { ffmpeg_path: ffmpeg_path.to_string(), format: format.to_string() }
    }

    pub closed spec fn program(&self) -> String {
        self.ffmpeg_path
    }

    pub closed spec fn format(&self) -> String {
        self.format
    }

    /// The program to run.
    pub fn program_path(&self) -> (s: String)
        ensures
            s@ == self.program()@,
    {
        self.ffmpeg_path.clone()
    }

    /// The converted file: `stage_ffmpeg` in the working directory, with the
    /// target format as its extension.
    pub fn output_path(&self, work_dir: &str) -> (p: String)
        ensures
            p@ == path_push(work_dir@, stage_ffmpeg_name()) + extension_suffix(Some(self.format()@)),
    {
        let name = vec!['s', 't', 'a', 'g', 'e', '_', 'f', 'f', 'm', 'p', 'e', 'g'];
        assert(name@ =~= stage_ffmpeg_name());
        let joined = push_path_chars(&chars_of(work_dir), &name);
        let out = with_suffix(&joined, &Some(chars_of(self.format.as_str())));
        string_from_chars(out.as_slice())
    }

    /// The ffmpeg arguments that convert `input` into `output`, overwriting it.
    pub fn arguments(&self, input: &str, output: &str) -> (args: Vec<String>)
        ensures
            args@.len() == 6,
            args@[0]@ == seq!['-', 'i'],
            args@[1]@ == input@,
            args@[2]@ == seq!['-', 'b', ':', 'a'],
            args@[3]@ == seq!['3', '2', '0', 'k'],
            args@[4]@ == seq!['-', 'y'],
            args@[5]@ == output@,
    {
        let i = vec!['-', 'i'];
        let b = vec!['-', 'b', ':', 'a'];
        let rate = vec!['3', '2', '0', 'k'];
        let y = vec!['-', 'y'];
        let mut args: Vec<String> = Vec::new();
        args.push(string_from_chars(i.as_slice()));
        args.push(input.to_string());
        args.push(string_from_chars(b.as_slice()));
        args.push(string_from_chars(rate.as_slice()));
        args.push(string_from_chars(y.as_slice()));
        args.push(output.to_string());
        assert(args@[0]@ =~= seq!['-', 'i']);
        assert(args@[2]@ =~= seq!['-', 'b', ':', 'a']);
        assert(args@[3]@ =~= seq!['3', '2', '0', 'k']);
        assert(args@[4]@ =~= seq!['-', 'y']);
        args
    }
}

// ---------------------------------------------------------------------------
// The tag stage.
// ---------------------------------------------------------------------------

/// Writes the track's metadata into its tag, unless the file already has a tag.
#[derive(Debug, Clone, Copy, Default)]
pub struct TagStage;

impl TagStage {
    pub fn new() -> (r: Self) {
        TagStage
    }
}

// ---------------------------------------------------------------------------
// The organize stage.
// ---------------------------------------------------------------------------

/// Moves the track into the output directory, under its artist and album.
#[derive(Debug, Clone)]
pub struct OrganizeStage {
    output_dir: String,
}

/// A track title as a file name: each `/` becomes `-` and each `.` is dropped.
pub open spec fn clean_title(s: Seq<char>) -> Seq<char>
    decreases s.len(),
{
    if s.len() == 0 {
        seq![]
    } else {
        clean_title(s.drop_last()) + (if s.last() == '.' {
            seq![]
        } else if s.last() == '/' {
            seq!['-']
        } else {
            seq![s.last()]
        })
    }
}

/// The directory a track is filed in: artist, then album, then `Disc <n>` when
/// the album has more than one disc.
pub open spec fn target_dir_spec(out: Seq<char>, artist_name: Seq<char>, album: Album, track: Track) -> Seq<char> {
    let d = path_push(path_push(out, artist_name), album.name@);
    if album.discs@.len() > 1 {
        path_push(d, seq!['D', 'i', 's', 'c', ' '] + decimal(track.disc_number as nat))
    } else {
        d
    }
}

/// The file name a track is filed under, before its extension:
/// `<number> - <title>`, or `<number> - <title> - <id>` when that name is taken.
pub open spec fn target_stem(track: Track, taken: bool) -> Seq<char> {
    let base = decimal(track.track_number as nat) + seq![' ', '-', ' '] + clean_title(track.name@);
    if taken {
        base + seq![' ', '-', ' '] + id_text(track.rid.id.0)
    } else {
        base
    }
}

fn clean_title_exec(s: &str) -> (r: Vec<char>)
    ensures
        r@ == clean_title(s@),
{
    let v = chars_of(s);
    let mut r: Vec<char> = Vec::new();
    let mut i: usize = 0;
    assert(v@.take(0) =~= Seq::<char>::empty());
    while i < v.len()
        invariant
            i <= v@.len(),
            r@ == clean_title(v@.take(i as int)),
        decreases v@.len() - i,
    {
        let c = v[i];
        let ghost before = r@;
        if c == '/' {
            r.push('-');
        } else if c != '.' {
            r.push(c);
        }
        let ghost t = v@.take(i + 1);
        assert(t.drop_last() =~= v@.take(i as int));
        assert(t.last() == c);
        assert(r@ =~= clean_title(t.drop_last()) + (if c == '.' {
            seq![]
        } else if c == '/' {
            seq!['-']
        } else {
            seq![c]
        }));
        i = i + 1;
    }
    assert(v@.take(v@.len() as int) =~= v@);
    r
}

impl OrganizeStage {
    /// A stage that files tracks under `output_dir`.
    pub fn new(output_dir: &str) -> (r: Self)
        ensures
            r.output_dir()@ == output_dir@,
    {
        OrganizeStage { output_dir: output_dir.to_string() }
    }

    pub closed spec fn output_dir(&self) -> String {
        self.output_dir
    }

    /// The directory `track` is filed in, given the name of its first artist and
    /// its album.
    pub fn target_dir(&self, artist: &Artist, album: &Album, track: &Track) -> (d: String)
        ensures
            d@ == target_dir_spec(self.output_dir()@, artist.name@, *album, *track),
    {
        let d1 = push_path_chars(&chars_of(self.output_dir.as_str()), &chars_of(artist.name.as_str()));
        let d2 = push_path_chars(&d1, &chars_of(album.name.as_str()));
        if album.discs.len() > 1 {
            let prefix = vec!['D', 'i', 's', 'c', ' '];
            let disc = concat_chars(&prefix, &decimal_chars(track.disc_number as u64));
            assert(prefix@ =~= seq!['D', 'i', 's', 'c', ' ']);
            let d3 = push_path_chars(&d2, &disc);
            string_from_chars(d3.as_slice())
        } else {
            string_from_chars(d2.as_slice())
        }
    }

    /// The path `track` is filed under in `dir`, keeping the extension of the
    /// file it comes from; `taken` says whether the plain name is already in use.
    pub fn target_path(&self, dir: &str, track: &Track, source_path: &str, taken: bool) -> (p: String)
        ensures
            p@ == path_push(dir@, target_stem(*track, taken)) + extension_suffix(path_extension(source_path@)),
    {
        let number = decimal_chars(track.track_number as u64);
        let sep = vec![' ', '-', ' '];
        assert(sep@ =~= seq![' ', '-', ' ']);
        let title = clean_title_exec(track.name.as_str());
        let mut stem = concat_chars(&concat_chars(&number, &sep), &title);
        if taken {
            let id = chars_of(track.rid.id.to_string().as_str());
            stem = concat_chars(&concat_chars(&stem, &sep), &id);
        }
        assert(stem@ =~= target_stem(*track, taken));
        let joined = push_path_chars(&chars_of(dir), &stem);
        let ext = crate::scan::path_extension_chars(source_path);
        let out = with_suffix(&joined, &ext);
        string_from_chars(out.as_slice())
    }
}

// ---------------------------------------------------------------------------
// Stage names.
// ---------------------------------------------------------------------------

/// A post-processing stage, known by the name its progress is reported under.
pub trait PipelineStage {
    fn name(&self) -> &'static str;
}

impl PipelineStage for FFmpegStage {
    fn name(&self) -> (s: &'static str)
        ensures
            s@ == seq!['f', 'f', 'm', 'p', 'e', 'g'],
    {
        proof {
            reveal_strlit("ffmpeg");
        }
        "ffmpeg"
    }
}

impl PipelineStage for TagStage {
    fn name(&self) -> (s: &'static str)
        ensures
            s@ == seq!['t', 'a', 'g'],
    {
        proof {
            reveal_strlit("tag");
        }
        "tag"
    }
}

impl PipelineStage for OrganizeStage {
    fn name(&self) -> (s: &'static str)
        ensures
            s@ == seq!['o', 'r', 'g', 'a', 'n', 'i', 'z', 'e'],
    {
        proof {
            reveal_strlit("organize");
        }
        "organize"
    }
}

// ---------------------------------------------------------------------------
// The stages of a download.
// ---------------------------------------------------------------------------

/// One post-processing stage.
#[derive(Debug, Clone)]
pub enum Stage {
    Tag(TagStage),
    FFmpeg(FFmpegStage),
    Organize(OrganizeStage),
}

/// The stages a download runs, in order: tagging, the optional conversion, and
/// filing under `output_dir`.
pub fn download_stages(ffmpeg: Option<FFmpegStage>, output_dir: &str) -> (stages: Vec<Stage>)
    ensures
        stages@.len() == (if ffmpeg is Some { 3int } else { 2int }),
        stages@[0] is Tag,
        ffmpeg matches Some(f) ==> stages@[1] == Stage::FFmpeg(f),
        stages@.last() matches Stage::Organize(o) && o.output_dir()@ == output_dir@,
{
    let mut stages: Vec<Stage> = Vec::new();
    stages.push(Stage::Tag(TagStage::new()));
    match ffmpeg {
        Some(f) => stages.push(Stage::FFmpeg(f)),
        None => {},
    }
    stages.push(Stage::Organize(OrganizeStage::new(output_dir)));
    stages
}

impl PipelineStage for Stage {
    /// The name of the stage it holds.
    fn name(&self) -> (s: &'static str)
        ensures
            s@ == match self {
                Stage::Tag(_) => seq!['t', 'a', 'g'],
                Stage::FFmpeg(_) => seq!['f', 'f', 'm', 'p', 'e', 'g'],
                Stage::Organize(_) => seq!['o', 'r', 'g', 'a', 'n', 'i', 'z', 'e'],
            },
    {
        match self {
            Stage::Tag(t) => t.name(),
            Stage::FFmpeg(f) => f.name(),
            Stage::Organize(o) => o.name(),
        }
    }
}

} // verus!

verus! {

/// Pushing a relative path keeps the base as a prefix.
proof fn lemma_push_keeps_prefix(base: Seq<char>, p: Seq<char>)
    requires
        !(p.len() > 0 && p[0] == '/'),
    ensures
        base.is_prefix_of(path_push(base, p)),
{
    let r = path_push(base, p);
    assert(r.subrange(0, base.len() as int) =~= base);
}

/// A cleaned title holds neither `/` nor `.`, so it is a single path component
/// that no extension can be read from.
pub proof fn lemma_clean_title_chars(s: Seq<char>)
    ensures
        forall|k: int| 0 <= k < clean_title(s).len() ==> clean_title(s)[k] != '/' && clean_title(s)[k] != '.',
    decreases s.len(),
{
    if s.len() > 0 {
        let prev = clean_title(s.drop_last());
        lemma_clean_title_chars(s.drop_last());
        let tail: Seq<char> = if s.last() == '.' {
            seq![]
        } else if s.last() == '/' {
            seq!['-']
        } else {
            seq![s.last()]
        };
        assert(clean_title(s) == prev + tail);
        assert forall|k: int| 0 <= k < clean_title(s).len() implies clean_title(s)[k] != '/' && clean_title(s)[k]
            != '.' by {
            if k < prev.len() {
                assert(clean_title(s)[k] == prev[k]);
            } else {
                assert(clean_title(s)[k] == tail[k - prev.len()]);
            }
        }
    }
}

proof fn lemma_decimal_starts_with_digit(n: nat)
    ensures
        decimal(n).len() > 0,
        '0' <= decimal(n)[0] <= '9',
    decreases n,
{
    if n >= 10 {
        lemma_decimal_starts_with_digit(n / 10);
    }
}

/// Pushing a relative path and then appending anything keeps the base as a prefix.
proof fn lemma_push_then_append_keeps_prefix(base: Seq<char>, p: Seq<char>, tail: Seq<char>)
    requires
        !(p.len() > 0 && p[0] == '/'),
    ensures
        base.is_prefix_of(path_push(base, p) + tail),
{
    lemma_push_keeps_prefix(base, p);
    let pushed = path_push(base, p);
    assert((pushed + tail).subrange(0, base.len() as int) =~= pushed.subrange(0, base.len() as int));
}

/// The directory of a track starts with the output directory when neither name
/// is absolute.
proof fn lemma_target_dir_under_output(out: Seq<char>, artist_name: Seq<char>, album: Album, track: Track)
    requires
        !(artist_name.len() > 0 && artist_name[0] == '/'),
        !(album.name@.len() > 0 && album.name@[0] == '/'),
    ensures
        out.is_prefix_of(target_dir_spec(out, artist_name, album, track)),
{
    let d1 = path_push(out, artist_name);
    let d2 = path_push(d1, album.name@);
    lemma_push_keeps_prefix(out, artist_name);
    lemma_push_keeps_prefix(d1, album.name@);
    assert(out.is_prefix_of(d2)) by {
        assert(d2.subrange(0, out.len() as int) =~= d2.subrange(0, d1.len() as int).subrange(0, out.len() as int));
    }
    if album.discs@.len() > 1 {
        let disc = seq!['D', 'i', 's', 'c', ' '] + decimal(track.disc_number as nat);
        lemma_push_keeps_prefix(d2, disc);
        let d3 = path_push(d2, disc);
        assert(d3.subrange(0, out.len() as int) =~= d3.subrange(0, d2.len() as int).subrange(0, out.len() as int));
    }
}

/// Filing keeps a track inside the output directory: when neither the artist's
/// nor the album's name is an absolute path, the target path starts with the
/// output directory and, after it, with the target directory.
pub proof fn lemma_filed_under_output_dir(
    out: Seq<char>,
    artist_name: Seq<char>,
    album: Album,
    track: Track,
    source_path: Seq<char>,
    taken: bool,
)
    requires
        !(artist_name.len() > 0 && artist_name[0] == '/'),
        !(album.name@.len() > 0 && album.name@[0] == '/'),
    ensures
        ({
            let dir = target_dir_spec(out, artist_name, album, track);
            let path = path_push(dir, target_stem(track, taken)) + extension_suffix(path_extension(source_path));
            &&& out.is_prefix_of(dir)
            &&& dir.is_prefix_of(path)
        }),
{
    lemma_target_dir_under_output(out, artist_name, album, track);
    let dir = target_dir_spec(out, artist_name, album, track);
    let stem = target_stem(track, taken);
    lemma_decimal_starts_with_digit(track.track_number as nat);
    assert(stem[0] == decimal(track.track_number as nat)[0]);
    lemma_push_then_append_keeps_prefix(dir, stem, extension_suffix(path_extension(source_path)));
}


/// Cleaning a title changes nothing but `/` (to `-`) and `.` (dropped): every
/// other character, spaces included, is kept as it is and in order.
pub proof fn lemma_clean_title_keeps_other_chars(s: Seq<char>)
    ensures
        clean_title(s) == s.filter(|c: char| c != '.').map_values(|c: char| if c == '/' { '-' } else { c }),
    decreases s.len(),
{
    if s.len() > 0 {
        let init = s.drop_last();
        let c = s.last();
        let pred = |c: char| c != '.';
        let f = |c: char| if c == '/' { '-' } else { c };
        lemma_clean_title_keeps_other_chars(init);
        assert(s =~= init.push(c));
        init.lemma_filter_push(c, pred);
        if c == '.' {
            assert(s.filter(pred) == init.filter(pred));
            assert(clean_title(s) =~= clean_title(init));
        } else {
            assert(s.filter(pred) == init.filter(pred).push(c));
            assert(init.filter(pred).push(c).map_values(f) =~= init.filter(pred).map_values(f).push(f(c)));
            if c == '/' {
                assert(clean_title(s) =~= clean_title(init).push('-'));
            } else {
                assert(clean_title(s) =~= clean_title(init).push(c));
            }
        }
    } else {
        assert(s.filter(|c: char| c != '.').map_values(|c: char| if c == '/' { '-' } else { c }) =~= Seq::<char>::empty());
    }
}

/// A track's file name (before its extension) is its number, ` - `, and its
/// title with `.` dropped and `/` turned into `-`, every other character of
/// the title kept in order; ` - ` and its ID follow when the plain name is taken.
pub proof fn lemma_target_stem_keeps_title(track: Track, taken: bool)
    ensures
        target_stem(track, false) == decimal(track.track_number as nat) + seq![' ', '-', ' '] + track.name@.filter(
            |c: char| c != '.',
        ).map_values(|c: char| if c == '/' { '-' } else { c }),
        target_stem(track, true) == target_stem(track, false) + seq![' ', '-', ' '] + id_text(track.rid.id.0),
{
    lemma_clean_title_keeps_other_chars(track.name@);
}

/// The decimal text of a number has at least one digit.
proof fn lemma_decimal_nonempty(n: nat)
    ensures
        decimal(n).len() >= 1,
        n >= 10 ==> decimal(n).len() >= 2,
    decreases n,
{
    if n >= 10 {
        lemma_decimal_nonempty(n / 10);
    }
}

/// Different numbers have different decimal texts.
pub proof fn lemma_decimal_injective(a: nat, b: nat)
    requires
        decimal(a) == decimal(b),
    ensures
        a == b,
    decreases a,
{
    lemma_decimal_nonempty(a);
    lemma_decimal_nonempty(b);
    let ca = ((a % 10) + '0' as nat) as char;
    let cb = ((b % 10) + '0' as nat) as char;
    assert(ca as int == (a % 10) + 48);
    assert(cb as int == (b % 10) + 48);
    if a < 10 && b < 10 {
        assert(decimal(a)[0] == decimal(b)[0]);
        assert(decimal(a)[0] == ca);
        assert(decimal(b)[0] == cb);
    } else if a >= 10 && b >= 10 {
        assert(decimal(a).last() == decimal(b).last());
        assert(decimal(a).last() == ca);
        assert(decimal(b).last() == cb);
        assert(decimal(a).drop_last() == decimal(b).drop_last());
        assert(decimal(a / 10) =~= decimal(a).drop_last());
        assert(decimal(b / 10) =~= decimal(b).drop_last());
        lemma_decimal_injective(a / 10, b / 10);
        assert(a % 10 == b % 10);
    } else {
        assert(decimal(a).len() == decimal(b).len());
    }
}

/// The directory of the album, under the output directory and the artist.
pub open spec fn album_dir(out: Seq<char>, artist_name: Seq<char>, album: Album) -> Seq<char> {
    path_push(path_push(out, artist_name), album.name@)
}

/// A track of an album with more than one disc is filed one level below the
/// album's directory, in `Disc <n>` for its own disc number `n`; a track of an
/// album with one disc (or none) is filed in the album's directory itself.
pub proof fn lemma_target_dir_follows_disc(out: Seq<char>, artist_name: Seq<char>, album: Album, track: Track)
    ensures
        album.discs@.len() > 1 ==> target_dir_spec(out, artist_name, album, track) == path_push(
            album_dir(out, artist_name, album),
            seq!['D', 'i', 's', 'c', ' '] + decimal(track.disc_number as nat),
        ),
        album.discs@.len() <= 1 ==> target_dir_spec(out, artist_name, album, track) == album_dir(
            out,
            artist_name,
            album,
        ),
{
}

/// Tracks of one album on different discs land in different directories when
/// the album has more than one disc.
pub proof fn lemma_discs_get_their_own_dirs(
    out: Seq<char>,
    artist_name: Seq<char>,
    album: Album,
    t1: Track,
    t2: Track,
)
    requires
        album.discs@.len() > 1,
        t1.disc_number != t2.disc_number,
    ensures
        target_dir_spec(out, artist_name, album, t1) != target_dir_spec(out, artist_name, album, t2),
{
    let d = album_dir(out, artist_name, album);
    let p1 = seq!['D', 'i', 's', 'c', ' '] + decimal(t1.disc_number as nat);
    let p2 = seq!['D', 'i', 's', 'c', ' '] + decimal(t2.disc_number as nat);
    if target_dir_spec(out, artist_name, album, t1) == target_dir_spec(out, artist_name, album, t2) {
        assert(p1[0] == 'D' && p2[0] == 'D');
        let r1 = path_push(d, p1);
        let r2 = path_push(d, p2);
        assert(r1 == r2);
        if d.len() > 0 && d.last() != '/' {
            assert(p1 =~= r1.skip(d.len() as int + 1));
            assert(p2 =~= r2.skip(d.len() as int + 1));
        } else {
            assert(p1 =~= r1.skip(d.len() as int));
            assert(p2 =~= r2.skip(d.len() as int));
        }
        assert(decimal(t1.disc_number as nat) =~= p1.skip(5));
        assert(decimal(t2.disc_number as nat) =~= p2.skip(5));
        lemma_decimal_injective(t1.disc_number as nat, t2.disc_number as nat);
    }
}

} // verus!
