//! The `.pkg` archive: a header (version string and file count), a file
//! table (path, offset, size per entry) and the data blob the offsets
//! point into. Also the choice of what an extractor does with each file.
use vstd::prelude::*;
use vstd::slice::{slice_subrange, slice_to_vec};
use vstd::utf8::{valid_utf8, decode_utf8};
use crate::pkg_parser::wire::{le_u32, fits, u32_at, has_room, lemma_bytes_deep_view};
use crate::pkg_parser::text::{string_from_utf8, str_eq, spec_frame_file_name};
use vstd::set_lib::{set_int_range, lemma_int_range, lemma_len_subset};
use crate::pkg_parser::paths::{
    lower_extension, in_directory_of, lemma_renames_stay_in_directory, lemma_name_bounds,
    file_name_span, path_stem, path_with_extension, path_with_file_name, extension_is, file_stem,
    with_extension, with_file_name,
};
use crate::pkg_parser::tex_parser::{
    Tex, spec_parse_tex, spec_parse_tex_container, spec_parse_to_image, spec_match_signature,
};
use crate::pkg_parser::video_parser::{
    Video, VideoFormatModel, spec_detect_format, save_gif_frames, spec_save_gif_frames,
};
use crate::pkg_parser::mdl_parser::{MdlFile, spec_parse_mdl};

verus! {

broadcast use lemma_bytes_deep_view;

/// Package file header containing metadata.
#[derive(Debug, Clone)]
pub struct Header {
    /// Version string of the package.
    pub version: String,
    /// Number of files in the package.
    pub file_count: u32,
}

/// One file table entry.
#[derive(Debug, Clone)]
pub struct Entry {
    pub path: String,
    pub offset: u32,
    pub size: u32,
}

/// A parsed package: its header and each file's contents by path. Every
/// path occurs once.
#[derive(Debug, Clone)]
pub struct Pkg {
    pub header: Header,
    pub files: Vec<(String, Vec<u8>)>,
}

/// The mathematical content of a [`Header`].
pub struct HeaderModel {
    pub version: Seq<char>,
    pub file_count: u32,
}

/// The mathematical content of an [`Entry`].
pub struct EntryModel {
    pub path: Seq<char>,
    pub offset: u32,
    pub size: u32,
}

impl DeepView for Header {
    type V = HeaderModel;

    open spec fn deep_view(&self) -> HeaderModel {
        HeaderModel { version: self.version@, file_count: self.file_count }
    }
}

impl DeepView for Entry {
    type V = EntryModel;

    open spec fn deep_view(&self) -> EntryModel {
        EntryModel { path: self.path@, offset: self.offset, size: self.size }
    }
}

/// The header at the start of the archive: a `u32` length, that many bytes
/// of UTF-8 version string, and the `u32` file count. Yields the header and
/// the position of the file table.
pub open spec fn spec_read_header(s: Seq<u8>) -> Option<(HeaderModel, int)> {
    if !fits(s, 0, 4) {
        None
    } else {
        let vl = le_u32(s, 0) as int;
        if !fits(s, 4, vl + 4) || !valid_utf8(s.subrange(4, 4 + vl)) {
            None
        } else {
            Some(
                (
                    HeaderModel {
                        version: decode_utf8(s.subrange(4, 4 + vl)),
                        file_count: le_u32(s, 4 + vl),
                    },
                    8 + vl,
                ),
            )
        }
    }
}

/// A file table entry at `p`: a `u32` length, that many bytes of UTF-8
/// path, then the `u32` offset and `u32` size. Yields the entry and the
/// position after it.
pub open spec fn spec_entry_at(s: Seq<u8>, p: int) -> Option<(EntryModel, int)> {
    if !fits(s, p, 4) {
        None
    } else {
        let pl = le_u32(s, p) as int;
        if !fits(s, p + 4, pl + 8) || !valid_utf8(s.subrange(p + 4, p + 4 + pl)) {
            None
        } else {
            Some(
                (
                    EntryModel {
                        path: decode_utf8(s.subrange(p + 4, p + 4 + pl)),
                        offset: le_u32(s, p + 4 + pl),
                        size: le_u32(s, p + 8 + pl),
                    },
                    p + 12 + pl,
                ),
            )
        }
    }
}

/// The first `k` file table entries from `p0`, and the position after them.
pub open spec fn entries_upto(s: Seq<u8>, p0: int, k: nat) -> Option<(Seq<EntryModel>, int)>
    decreases k,
{
    if k == 0 {
        Some((seq![], p0))
    } else {
        match entries_upto(s, p0, (k - 1) as nat) {
            None => None,
            Some((es, p)) => match spec_entry_at(s, p) {
                None => None,
                Some((e, next)) => Some((es.push(e), next)),
            },
        }
    }
}

/// The header, the file table, and where the data blob starts.
pub open spec fn spec_pkg_layout(s: Seq<u8>) -> Option<(HeaderModel, Seq<EntryModel>, int)> {
    match spec_read_header(s) {
        None => None,
        Some((h, p)) => match entries_upto(s, p, h.file_count as nat) {
            None => None,
            Some((es, data_start)) => Some((h, es, data_start)),
        },
    }
}

/// The bytes of entry `e` within the data blob that starts at `data_start`.
pub open spec fn entry_data(s: Seq<u8>, data_start: int, e: EntryModel) -> Seq<u8> {
    s.subrange(data_start + e.offset, data_start + e.offset + e.size)
}

/// Entry `e` lies within the archive.
pub open spec fn entry_in_range(s: Seq<u8>, data_start: int, e: EntryModel) -> bool {
    data_start + e.offset + e.size <= s.len()
}

/// Every entry lies within the archive.
pub open spec fn all_in_range(s: Seq<u8>, data_start: int, es: Seq<EntryModel>) -> bool {
    forall|j: int| 0 <= j < es.len() ==> #[trigger] entry_in_range(s, data_start, es[j])
}

/// Among the first `k` entries, the one whose data a path ends up with:
/// files are read in increasing offset order (ties in table order) and a
/// later read replaces an earlier one, so this is the entry with that path
/// of greatest offset, the last one among equals.
pub open spec fn winner(es: Seq<EntryModel>, k: nat, path: Seq<char>) -> Option<int>
    decreases k,
{
    if k == 0 {
        None
    } else {
        let prev = winner(es, (k - 1) as nat, path);
        let e = es[k - 1];
        if e.path == path && (prev is None || e.offset >= es[prev->0].offset) {
            Some(k - 1)
        } else {
            prev
        }
    }
}

/// `files` maps each path of the first `k` entries, once, to the data of
/// its winning entry.
pub open spec fn files_match(
    files: Seq<(Seq<char>, Seq<u8>)>,
    s: Seq<u8>,
    data_start: int,
    es: Seq<EntryModel>,
    k: nat,
) -> bool {
    &&& forall|i: int, j: int| 0 <= i < j < files.len() ==> files[i].0 != files[j].0
    &&& forall|i: int|
        0 <= i < files.len() ==> (#[trigger] winner(es, k, files[i].0) matches Some(w) && 0 <= w
            < k && files[i].1 == entry_data(s, data_start, es[w]))
    &&& forall|j: int| 0 <= j < k ==> #[trigger] path_listed(files, es[j].path)
}

/// `path` is one of the paths in `files`.
pub open spec fn path_listed(files: Seq<(Seq<char>, Seq<u8>)>, path: Seq<char>) -> bool {
    exists|i: int| 0 <= i < files.len() && #[trigger] files[i].0 == path
}

/// A whole archive: its header, and each path of the file table mapped to
/// the data of its winning entry; `None` when the header or the table does
/// not parse or any entry's data lies beyond the end.
pub open spec fn pkg_parse_ok(s: Seq<u8>, r: Option<Pkg>) -> bool {
    match spec_pkg_layout(s) {
        None => r is None,
        Some((h, es, ds)) => if all_in_range(s, ds, es) {
            r matches Some(pkg) && pkg.header.deep_view() == h && files_match(
                pkg.files.deep_view(),
                s,
                ds,
                es,
                es.len(),
            )
        } else {
            r is None
        },
    }
}

proof fn lemma_winner_bounds(es: Seq<EntryModel>, k: nat, path: Seq<char>)
    requires
        k <= es.len(),
    ensures
        winner(es, k, path) matches Some(w) ==> 0 <= w < k && es[w].path == path,
        winner(es, k, path) is None ==> forall|j: int| 0 <= j < k ==> es[j].path != path,
    decreases k,
{
    if k > 0 {
        lemma_winner_bounds(es, (k - 1) as nat, path);
    }
}

proof fn lemma_entries_upto_stays_none(s: Seq<u8>, p0: int, k: nat, n: nat)
    requires
        k <= n,
        entries_upto(s, p0, k) is None,
    ensures
        entries_upto(s, p0, n) is None,
    decreases n - k,
{
    if k < n {
        lemma_entries_upto_stays_none(s, p0, k + 1, n);
    }
}

fn read_utf8(bytes: &[u8], pos: usize, len: usize) -> (r: Option<String>)
    requires
        pos + len <= bytes.len(),
    ensures
        r is Some <==> valid_utf8(bytes@.subrange(pos as int, pos + len)),
        r matches Some(st) ==> st@ == decode_utf8(bytes@.subrange(pos as int, pos + len)),
{
    let v = slice_to_vec(slice_subrange(bytes, pos, pos + len));
    string_from_utf8(v)
}

impl Pkg {
    /// Reads the header at the start of the archive; yields it and the
    /// position of the file table.
    pub fn read_header(bytes: &[u8]) -> (r: Option<(Header, usize)>)
        ensures
            match spec_read_header(bytes@) {
                None => r is None,
                Some((h, p)) => r matches Some((hd, q)) && hd.deep_view() == h && q == p,
            },
    {
        if !has_room(bytes, 0, 4) {
            return None;
        }
        let vl = u32_at(bytes, 0) as usize;
        if !has_room(bytes, 4, vl) || bytes.len() - 4 - vl < 4 {
            return None;
        }
        let version = read_utf8(bytes, 4, vl)?;
        let file_count = u32_at(bytes, 4 + vl);
        Some((Header { version, file_count }, 8 + vl))
    }

    fn read_entry(bytes: &[u8], p: usize) -> (r: Option<(Entry, usize)>)
        ensures
            match spec_entry_at(bytes@, p as int) {
                None => r is None,
                Some((e, next)) => r matches Some((en, q)) && en.deep_view() == e && q == next,
            },
    {
        if !has_room(bytes, p, 4) {
            return None;
        }
        let pl = u32_at(bytes, p) as usize;
        if !has_room(bytes, p + 4, pl) || bytes.len() - (p + 4 + pl) < 8 {
            return None;
        }
        let path = read_utf8(bytes, p + 4, pl)?;
        let offset = u32_at(bytes, p + 4 + pl);
        let size = u32_at(bytes, p + 8 + pl);
        Some((Entry { path, offset, size }, p + 12 + pl))
    }

    /// Reads `entry_count` file table entries from `pos`; yields them and
    /// the position where the data blob starts.
    pub fn read_entries(bytes: &[u8], pos: usize, entry_count: u32) -> (r: Option<
        (Vec<Entry>, usize),
    >)
        ensures
            match entries_upto(bytes@, pos as int, entry_count as nat) {
                None => r is None,
                Some((es, next)) => r matches Some((v, q)) && v.deep_view() == es && q == next,
            },
    {
        let ghost s = bytes@;
        let mut entries: Vec<Entry> = Vec::new();
        let mut p = pos;
        let mut k: u32 = 0;
        while k < entry_count
            invariant
                s == bytes@,
                k <= entry_count,
                entries_upto(s, pos as int, k as nat) == Some((entries.deep_view(), p as int)),
            decreases entry_count - k,
        {
            match Pkg::read_entry(bytes, p) {
                Some((e, next)) => {
                    entries.push(e);
                    p = next;
                },
                None => {
                    proof {
                        lemma_entries_upto_stays_none(s, pos as int, (k + 1) as nat, entry_count as nat);
                    }
                    return None;
                },
            }
            k += 1;
        }
        Some((entries, p))
    }

    /// Reads every entry's data from the blob at `data_start`, in the
    /// manner of reading in increasing offset order into a map: each path
    /// ends up with the data of its winning entry. Fails when any entry's
    /// data lies beyond the end.
    pub fn read_files(bytes: &[u8], data_start: usize, entries: &Vec<Entry>) -> (r: Option<
        Vec<(String, Vec<u8>)>,
    >)
        ensures
            ({
                let es = entries.deep_view();
                if all_in_range(bytes@, data_start as int, es) {
                    r matches Some(f) && files_match(f.deep_view(), bytes@, data_start as int, es, es.len())
                } else {
                    r is None
                }
            }),
    {
        let ghost s = bytes@;
        let ghost es = entries.deep_view();
        let ghost ds = data_start as int;
        let len = bytes.len();
        let mut files: Vec<(String, Vec<u8>)> = Vec::new();
        let mut offs: Vec<u32> = Vec::new();
        let mut k: usize = 0;
        while k < entries.len()
            invariant
                s == bytes@,
                len == s.len(),
                es == entries.deep_view(),
                ds == data_start,
                k <= es.len(),
                files@.len() == offs@.len(),
                files_match(files.deep_view(), s, ds, es, k as nat),
                forall|i: int|
                    0 <= i < files@.len() ==> (#[trigger] winner(es, k as nat, files.deep_view()[i].0) matches Some(w)
                        && offs@[i] == es[w].offset),
                forall|j: int| 0 <= j < k ==> #[trigger] entry_in_range(s, ds, es[j]),
            decreases es.len() - k,
        {
            let e = &entries[k];
            let ghost em = es[k as int];
            let off = e.offset as usize;
            let size = e.size as usize;
            if !(data_start <= len && off <= len - data_start && size <= len - data_start - off) {
                assert(!entry_in_range(s, ds, es[k as int]));
                return None;
            }
            let start = data_start + off;
            let data = slice_to_vec(slice_subrange(bytes, start, start + size));
            let ghost fv = files.deep_view();
            let ghost ov = offs@;
            let ghost k1 = (k + 1) as nat;
            let mut i: usize = 0;
            let mut found = false;
            while i < files.len() && !found
                invariant
                    fv == files.deep_view(),
                    em.path == e.path@,
                    i <= fv.len(),
                    found ==> i < fv.len() && fv[i as int].0 == em.path,
                    !found ==> forall|q: int| 0 <= q < i ==> fv[q].0 != em.path,
                decreases fv.len() - i + (if found { 0int } else { 1int }),
            {
                let fp: &String = &files[i].0;
                if str_eq(fp.as_str(), e.path.as_str()) {
                    found = true;
                } else {
                    i += 1;
                }
            }
            proof {
                lemma_winner_bounds(es, k as nat, em.path);
                // Paths other than this entry's keep their winner.
                assert forall|q: Seq<char>| q != em.path implies winner(es, k1, q) == winner(
                    es,
                    k as nat,
                    q,
                ) by {}
                // Paths listed other than at `i` differ from this entry's.
                assert forall|a: int| 0 <= a < fv.len() && a != i implies fv[a].0 != em.path by {
                    if found {
                    }
                }
            }
            if found {
                proof {
                    let w = winner(es, k as nat, em.path)->0;
                    assert(winner(es, k as nat, fv[i as int].0) matches Some(x) && ov[i as int]
                        == es[x].offset);
                }
                if e.offset >= offs[i] {
                    let path = e.path.clone();
                    files[i] = (path, data);
                    offs[i] = e.offset;
                    proof {
                        let nv = files.deep_view();
                        assert(nv =~= fv.update(i as int, (em.path, data@)));
                        assert forall|a: int| 0 <= a < nv.len() implies (#[trigger] winner(
                            es,
                            k1,
                            nv[a].0,
                        ) matches Some(w) && 0 <= w < k1 && nv[a].1 == entry_data(s, ds, es[w])
                            && offs@[a] == es[w].offset) by {
                            if a != i {
                                assert(winner(es, k as nat, fv[a].0) matches Some(w) && 0 <= w < k
                                    && fv[a].1 == entry_data(s, ds, es[w]));
                            }
                        }
                    }
                } else {
                    proof {
                        let nv = files.deep_view();
                        assert forall|a: int| 0 <= a < nv.len() implies (#[trigger] winner(
                            es,
                            k1,
                            nv[a].0,
                        ) matches Some(w) && 0 <= w < k1 && nv[a].1 == entry_data(s, ds, es[w])
                            && offs@[a] == es[w].offset) by {
                            assert(winner(es, k as nat, fv[a].0) matches Some(w) && 0 <= w < k
                                && fv[a].1 == entry_data(s, ds, es[w]));
                        }
                    }
                }
            } else {
                proof {
                    if winner(es, k as nat, em.path) is Some {
                        let w = winner(es, k as nat, em.path)->0;
                        assert(path_listed(fv, es[w].path));
                    }
                }
                let path = e.path.clone();
                files.push((path, data));
                offs.push(e.offset);
                proof {
                    let nv = files.deep_view();
                    assert(nv =~= fv.push((em.path, data@)));
                    assert forall|a: int| 0 <= a < nv.len() implies (#[trigger] winner(
                        es,
                        k1,
                        nv[a].0,
                    ) matches Some(w) && 0 <= w < k1 && nv[a].1 == entry_data(s, ds, es[w])
                        && offs@[a] == es[w].offset) by {
                        if a < fv.len() {
                            assert(winner(es, k as nat, fv[a].0) matches Some(w) && 0 <= w < k
                                && fv[a].1 == entry_data(s, ds, es[w]));
                        }
                    }
                }
            }
            proof {
                let nv = files.deep_view();
                assert forall|j: int| 0 <= j < k1 implies #[trigger] path_listed(nv, es[j].path) by {
                    if j < k {
                        assert(path_listed(fv, es[j].path));
                        let a = choose|a: int| 0 <= a < fv.len() && #[trigger] fv[a].0 == es[j].path;
                        if a == i {
                            assert(nv[i as int].0 == em.path);
                        } else {
                            assert(nv[a].0 == es[j].path);
                        }
                    } else {
                        assert(nv[i as int].0 == es[j].path);
                    }
                }
            }
            k += 1;
        }
        Some(files)
    }

    /// Parses a whole archive from its bytes.
    pub fn parse(bytes: &[u8]) -> (r: Option<Pkg>)
        ensures
            pkg_parse_ok(bytes@, r),
    {
        let (header, pos) = Pkg::read_header(bytes)?;
        let (entries, data_start) = Pkg::read_entries(bytes, pos, header.file_count)?;
        assert(spec_pkg_layout(bytes@) == Some(
            (header.deep_view(), entries.deep_view(), data_start as int),
        ));
        let files = Pkg::read_files(bytes, data_start, &entries)?;
        Some(Pkg { header, files })
    }
}

// ── What extraction does with each file ───────────────────────────────────

/// How an extractor handles one archived file.
#[derive(Debug, Clone, Copy, PartialEq, Eq)]
pub enum FileKind {
    /// Decode the texture and write it as an image.
    Texture,
    /// Check the video/GIF, write it, and for a GIF also its frames.
    Video,
    /// Parse the puppet model, write it and its JSON rendering.
    Model,
    /// Write the file as it is.
    Plain,
}

/// The kind of handling for a file with (lower-cased) extension `ext`:
/// `tex` files when textures are parsed, `mp4`/`webm`/`gif` when videos are
/// parsed, `mdl` when models are parsed, and everything else as it is.
pub open spec fn spec_file_kind(ext: Seq<char>, parse_tex: bool, parse_video: bool, parse_mdl: bool) -> FileKind {
    if parse_tex && ext == "tex"@ {
        FileKind::Texture
    } else if parse_video && (ext == "mp4"@ || ext == "webm"@ || ext == "gif"@) {
        FileKind::Video
    } else if parse_mdl && ext == "mdl"@ {
        FileKind::Model
    } else {
        FileKind::Plain
    }
}

/// Chooses how to handle a file from its lower-cased extension and the
/// extraction options.
pub fn file_kind(ext: &str, parse_tex: bool, parse_video: bool, parse_mdl: bool) -> (r: FileKind)
    ensures
        r == spec_file_kind(ext@, parse_tex, parse_video, parse_mdl),
{
    if parse_tex && str_eq(ext, "tex") {
        FileKind::Texture
    } else if parse_video && (str_eq(ext, "mp4") || str_eq(ext, "webm") || str_eq(ext, "gif")) {
        FileKind::Video
    } else if parse_mdl && str_eq(ext, "mdl") {
        FileKind::Model
    } else {
        FileKind::Plain
    }
}

/// A texture file whose format id is a BCn one (4, 6 or 7) has a
/// width × height small enough that its RGBA pixels (4 bytes each) fit in
/// memory's address range.
pub open spec fn tex_dims_fit(s: Seq<u8>) -> bool {
    s.len() >= 34 && (le_u32(s, 18) == 4 || le_u32(s, 18) == 6 || le_u32(s, 18) == 7) ==> 4
        * le_u32(s, 26) * le_u32(s, 30) <= usize::MAX
}

proof fn lemma_tex_dims_fit(s: Seq<u8>)
    requires
        tex_dims_fit(s),
    ensures
        spec_parse_tex(s) matches Some(t) ==> (t.extension == "dxt1"@ || t.extension == "dxt5"@
            ==> 4 * t.width * t.height <= usize::MAX),
{
    reveal_strlit("dxt1");
    reveal_strlit("dxt5");
    reveal_strlit("rg88");
    reveal_strlit("r8");
    reveal_strlit("tex");
    reveal_strlit("png");
    reveal_strlit("jpg");
    reveal_strlit("mp4");
    reveal_strlit("gif");
    if let Some(c) = spec_parse_tex_container(s) {
        let payload = c.payload;
        let format = le_u32(s, 18);
        assert("rg88"@[0] != "dxt1"@[0] && "rg88"@[0] != "dxt5"@[0]);
        assert("dxt1"@[3] != "dxt5"@[3]);
        assert(spec_match_signature(payload).len() == 3);
        if c.extension == "dxt1"@ || c.extension == "dxt5"@ {
            assert(format == 4 || format == 6 || format == 7);
        }
    }
}

/// The frames of a GIF at `path`, each as `(file, png)` beside it in the
/// same directory, named after the GIF's stem; none when the frames cannot
/// all be decoded and encoded.
pub open spec fn gif_frame_writes(path: Seq<char>, bytes: Seq<u8>) -> Seq<(Seq<char>, Seq<u8>)> {
    match spec_save_gif_frames(bytes, path_stem(path)) {
        Some(frames) => Seq::new(
            frames.len(),
            |i: int| (path_with_file_name(path, frames[i].1), frames[i].0),
        ),
        None => seq![],
    }
}

/// What extracting the archived file `path` with contents `bytes` writes,
/// as `(relative path, contents)` in order: a texture becomes one image
/// named with the image's extension (nothing when it cannot be decoded); a
/// recognised video or GIF is written as it is, a GIF followed by its
/// frames (nothing when the format is not recognised); a model, and any
/// other file, is written as it is.
pub open spec fn spec_extraction_writes(
    path: Seq<char>,
    bytes: Seq<u8>,
    parse_tex: bool,
    parse_video: bool,
    parse_mdl: bool,
) -> Seq<(Seq<char>, Seq<u8>)> {
    match spec_file_kind(lower_extension(path), parse_tex, parse_video, parse_mdl) {
        FileKind::Texture => match spec_parse_tex(bytes) {
            None => seq![],
            Some(t) => match spec_parse_to_image(t) {
                None => seq![],
                Some((img, ext)) => seq![(path_with_extension(path, ext), img)],
            },
        },
        FileKind::Video => match spec_detect_format(bytes) {
            None => seq![],
            Some(format) => seq![(path, bytes)] + if format is Gif {
                gif_frame_writes(path, bytes)
            } else {
                seq![]
            },
        },
        _ => seq![(path, bytes)],
    }
}

/// Where the JSON rendering of a model goes: beside it, with the extension
/// `mdl.json`, when models are parsed and this one parses.
pub open spec fn spec_model_json_path(path: Seq<char>, bytes: Seq<u8>, parse_mdl: bool) -> Option<
    Seq<char>,
> {
    if parse_mdl && lower_extension(path) == "mdl"@ && spec_parse_mdl(bytes) is Some {
        Some(path_with_extension(path, "mdl.json"@))
    } else {
        None
    }
}

/// Decides what extracting one archived file writes: the files, as
/// `(path relative to the output directory, contents)` in order, and where
/// the model's JSON rendering goes when there is one.
pub fn extraction_writes(
    path: &str,
    bytes: &[u8],
    parse_tex: bool,
    parse_video: bool,
    parse_mdl: bool,
) -> (r: (Vec<(String, Vec<u8>)>, Option<String>))
    requires
        parse_tex && lower_extension(path@) == "tex"@ ==> tex_dims_fit(bytes@),
    ensures
        r.0.deep_view() == spec_extraction_writes(path@, bytes@, parse_tex, parse_video, parse_mdl),
        r.1.deep_view() == spec_model_json_path(path@, bytes@, parse_mdl),
{
    proof {
        reveal_strlit("tex");
        reveal_strlit("mp4");
        reveal_strlit("webm");
        reveal_strlit("gif");
        reveal_strlit("mdl");
        assert("tex"@[0] != "mdl"@[0]);
        assert("mp4"@[1] != "mdl"@[1]);
        assert("gif"@[0] != "mdl"@[0]);
    }
    let mut writes: Vec<(String, Vec<u8>)> = Vec::new();
    let is_tex = extension_is(path, "tex");
    let is_mp4 = extension_is(path, "mp4");
    let is_webm = extension_is(path, "webm");
    let is_gif = extension_is(path, "gif");
    let is_mdl = extension_is(path, "mdl");
    if parse_tex && is_tex {
        proof {
            lemma_tex_dims_fit(bytes@);
        }
        if let Some(tex) = Tex::new(bytes) {
            if let Some((img, ext)) = tex.parse_to_image() {
                writes.push((with_extension(path, ext.as_str()), img));
            }
        }
        return (writes, None);
    }
    if parse_video && (is_mp4 || is_webm || is_gif) {
        if let Some(video) = Video::new(bytes) {
            writes.push((String::from_str(path), slice_to_vec(bytes)));
            if video.is_gif() {
                let stem = file_stem(path);
                if let Some(frames) = save_gif_frames(bytes, stem) {
                    let ghost head = writes.deep_view();
                    let ghost fs = frames.deep_view();
                    let mut i: usize = 0;
                    while i < frames.len()
                        invariant
                            i <= frames@.len(),
                            fs == frames.deep_view(),
                            writes.deep_view() =~= head + Seq::new(
                                i as nat,
                                |k: int| (path_with_file_name(path@, fs[k].1), fs[k].0),
                            ),
                        decreases frames@.len() - i,
                    {
                        let ghost before = writes.deep_view();
                        let file = with_file_name(path, frames[i].1.as_str());
                        let png = slice_to_vec(frames[i].0.as_slice());
                        writes.push((file, png));
                        assert(writes.deep_view() =~= before.push(
                            (path_with_file_name(path@, fs[i as int].1), fs[i as int].0),
                        ));
                        i += 1;
                    }
                }
            }
        }
        return (writes, None);
    }
    writes.push((String::from_str(path), slice_to_vec(bytes)));
    if parse_mdl && is_mdl {
        if let Some(_) = MdlFile::new(bytes) {
            proof {
                reveal_strlit("mdl.json");
            }
            let json = with_extension(path, "mdl.json");
            return (writes, Some(json));
        }
    }
    (writes, None)
}

// ── Laws ──────────────────────────────────────────────────────────────────

proof fn lemma_frame_names_relative(path: Seq<char>, i: nat)
    ensures
        spec_frame_file_name(path_stem(path), i)[0] != '/',
{
    lemma_name_bounds(path);
    reveal_strlit("_frame_");
    let stem = path_stem(path);
    let name = spec_frame_file_name(stem, i);
    if let Some((s, e)) = file_name_span(path) {
        if stem.len() > 0 {
            assert(name[0] == stem[0]);
            assert(stem[0] == path[s]);
        } else {
            assert(name[0] == '_');
        }
    } else {
        assert(name[0] == '_');
    }
}

/// An archived texture (a `.tex` file, the extension matched without
/// regard to ASCII case, with textures parsed) is written as exactly one
/// file when it converts to an image `(img, ext)`: the image bytes, at the
/// archive path with its extension replaced by `ext`, whatever `ext` is;
/// when it does not convert, nothing is written. No JSON goes with it.
pub proof fn law_texture_written_under_image_extension(
    path: Seq<char>,
    bytes: Seq<u8>,
    parse_video: bool,
    parse_mdl: bool,
)
    requires
        lower_extension(path) == "tex"@,
    ensures
        ({
            let writes = spec_extraction_writes(path, bytes, true, parse_video, parse_mdl);
            &&& match spec_parse_tex(bytes) {
                Some(t) => match spec_parse_to_image(t) {
                    Some((img, ext)) => writes.len() == 1 && writes[0].0 == path_with_extension(
                        path,
                        ext,
                    ) && writes[0].1 == img,
                    None => writes.len() == 0,
                },
                None => writes.len() == 0,
            }
            &&& spec_model_json_path(path, bytes, parse_mdl) is None
        }),
{
    reveal_strlit("tex");
    reveal_strlit("mdl");
    assert("tex"@[0] != "mdl"@[0]);
}

/// Extraction preserves the archive's directory structure: every file
/// written for an archived path, and the model's JSON rendering, lies in
/// that path's directory.
pub proof fn law_extraction_keeps_directory(
    path: Seq<char>,
    bytes: Seq<u8>,
    parse_tex: bool,
    parse_video: bool,
    parse_mdl: bool,
)
    ensures
        forall|k: int|
            0 <= k < spec_extraction_writes(path, bytes, parse_tex, parse_video, parse_mdl).len()
                ==> in_directory_of(
                #[trigger] spec_extraction_writes(path, bytes, parse_tex, parse_video, parse_mdl)[k].0,
                path,
            ),
        spec_model_json_path(path, bytes, parse_mdl) matches Some(p) ==> in_directory_of(p, path),
{
    let w = spec_extraction_writes(path, bytes, parse_tex, parse_video, parse_mdl);
    lemma_renames_stay_in_directory(path, "mdl.json"@, seq![]);
    if let Some(t) = spec_parse_tex(bytes) {
        if let Some((img, ext)) = spec_parse_to_image(t) {
            lemma_renames_stay_in_directory(path, ext, seq![]);
        }
    }
    assert forall|k: int| 0 <= k < w.len() implies in_directory_of(#[trigger] w[k].0, path) by {
        if let Some(frames) = spec_save_gif_frames(bytes, path_stem(path)) {
            if 0 <= k - 1 < frames.len() {
                lemma_frame_names_relative(path, (k - 1) as nat);
                lemma_renames_stay_in_directory(path, seq![], frames[k - 1].1);
            }
        }
    }
}

/// A parsed archive holds at most as many files as its header announces:
/// one per distinct path of the file table.
pub proof fn law_files_bounded_by_file_count(s: Seq<u8>, pkg: Pkg)
    requires
        pkg_parse_ok(s, Some(pkg)),
    ensures
        pkg.files@.len() <= pkg.header.file_count,
{
    let (h, es, ds) = spec_pkg_layout(s)->0;
    let files = pkg.files.deep_view();
    let n = es.len();
    let (hh, p0) = spec_read_header(s)->0;
    lemma_entries_upto_len(s, p0, hh.file_count as nat);
    let ws = Seq::new(files.len(), |i: int| winner(es, n, files[i].0)->0);
    assert forall|i: int, j: int| 0 <= i < ws.len() && 0 <= j < ws.len() && i != j implies ws[i]
        != ws[j] by {
        lemma_winner_bounds(es, n, files[i].0);
        lemma_winner_bounds(es, n, files[j].0);
        if i < j {
        } else {
        }
    }
    ws.unique_seq_to_set();
    lemma_int_range(0, n as int);
    assert forall|x: int| ws.to_set().contains(x) implies set_int_range(0, n as int).contains(x) by {
        let i = choose|i: int| 0 <= i < ws.len() && ws[i] == x;
    }
    lemma_len_subset(ws.to_set(), set_int_range(0, n as int));
}

proof fn lemma_entries_upto_len(s: Seq<u8>, p0: int, k: nat)
    ensures
        entries_upto(s, p0, k) matches Some((es, _)) ==> es.len() == k,
    decreases k,
{
    if k > 0 {
        lemma_entries_upto_len(s, p0, (k - 1) as nat);
    }
}

} // verus!
