//! Export of a branch of the tree as a DAT: which files the filters let
//! through, the entries written for files, games and directories, archives
//! and sets flattened into lists of entries, directories left empty removed,
//! and the `|`-separated category lists of game metadata.

use vstd::prelude::*;
use vstd::utf8::*;
use vstd::string::StringExecFns;
use crate::compare::{opt_seq, FileHashes, HashesView};
use crate::dat_update::{opt_text, DatHeader};
use crate::enums::{DatStatus, FileType, RepStatus};
use crate::patterns::str_eq;
use crate::relative_path::piece;
use crate::rv_dat::{dat_meta_lookup, DatData, RvDat};
use crate::rv_game::{game_meta_lookup, GameData, RvGame};
use crate::text::{lemma_encode_concat, str_bytes, str_trim, strip_suffix_ci, strip_suffix_ci_str, trim_chars};

verus! {

/// What an export of the tree as a DAT includes.
pub struct ExternalDatConverterTo {
    /// Include the DAT header.
    pub use_header: bool,
    /// Include files that are present.
    pub filter_got: bool,
    /// Include files that are missing.
    pub filter_missing: bool,
    /// Include files that can be fixed.
    pub filter_fixable: bool,
    /// Include files missing in action.
    pub filter_mia: bool,
    /// Include merged files.
    pub filter_merged: bool,
    /// Include loose files.
    pub filter_files: bool,
    /// Include archives.
    pub filter_zips: bool,
}

/// The pieces of `b` separated by `|`, the current unfinished one being `cur`.
pub open spec fn split_bar_from(b: Seq<u8>, cur: Seq<u8>) -> Seq<Seq<u8>>
    decreases b.len(),
{
    if b.len() == 0 {
        seq![cur]
    } else if b[0] == 0x7Cu8 {
        seq![cur] + split_bar_from(b.drop_first(), Seq::empty())
    } else {
        split_bar_from(b.drop_first(), cur.push(b[0]))
    }
}

/// The pieces of `b` separated by `|` (empty pieces included).
pub open spec fn split_bar(b: Seq<u8>) -> Seq<Seq<u8>> {
    split_bar_from(b, Seq::empty())
}

/// The categories of a `|`-separated list: `None` for a blank list, else
/// every piece, trimmed.
pub open spec fn category_list_spec(instr: Seq<char>) -> Option<Seq<Seq<char>>> {
    if trim_chars(instr).len() == 0 {
        None
    } else {
        let pieces = split_bar(encode_utf8(instr));
        Some(Seq::new(pieces.len(), |i: int| trim_chars(decode_utf8(pieces[i]))))
    }
}

/// The strings of a list, as character sequences.
pub open spec fn strings_view(v: Seq<String>) -> Seq<Seq<char>> {
    Seq::new(v.len(), |i: int| v[i]@)
}

fn bar_ranges(b: &[u8]) -> (r: Vec<(usize, usize)>)
    ensures
        Seq::new(r@.len(), |k: int| b@.subrange(r@[k].0 as int, r@[k].1 as int)) == split_bar(b@),
        forall|k: int|
            0 <= k < r@.len() ==> {
                &&& #[trigger] r@[k].0 <= r@[k].1 <= b@.len()
                &&& r@[k].0 == 0 || b@[r@[k].0 - 1] < 0x80
                &&& r@[k].1 == b@.len() || b@[r@[k].1 as int] < 0x80
            },
{
    let n = b.len();
    let mut r: Vec<(usize, usize)> = Vec::new();
    let mut cur_start: usize = 0;
    let mut i: usize = 0;
    assert(b@.subrange(0, 0) =~= Seq::<u8>::empty());
    assert(b@.subrange(0, n as int) =~= b@);
    assert(Seq::new(r@.len(), |k: int| b@.subrange(r@[k].0 as int, r@[k].1 as int)) + split_bar(b@)
        =~= split_bar(b@));
    while i < n
        invariant
            n == b@.len(),
            cur_start <= i <= n,
            cur_start == 0 || b@[cur_start - 1] < 0x80,
            forall|k: int|
                0 <= k < r@.len() ==> {
                    &&& #[trigger] r@[k].0 <= r@[k].1 <= b@.len()
                    &&& r@[k].0 == 0 || b@[r@[k].0 - 1] < 0x80
                    &&& r@[k].1 == b@.len() || b@[r@[k].1 as int] < 0x80
                },
            Seq::new(r@.len(), |k: int| b@.subrange(r@[k].0 as int, r@[k].1 as int))
                + split_bar_from(b@.subrange(i as int, n as int), b@.subrange(cur_start as int, i as int))
                == split_bar(b@),
        decreases n - i,
    {
        let ghost rest = b@.subrange(i as int, n as int);
        let ghost cur = b@.subrange(cur_start as int, i as int);
        let ghost old_r = r@;
        assert(rest.drop_first() =~= b@.subrange(i + 1, n as int));
        if b[i] == 0x7C {
            r.push((cur_start, i));
            assert(Seq::new(r@.len(), |k: int| b@.subrange(r@[k].0 as int, r@[k].1 as int)) =~= Seq::new(
                old_r.len(),
                |k: int| b@.subrange(old_r[k].0 as int, old_r[k].1 as int),
            ) + seq![cur]);
            assert(b@.subrange(i + 1, i + 1) =~= Seq::<u8>::empty());
            cur_start = i + 1;
        } else {
            assert(cur.push(b@[i as int]) =~= b@.subrange(cur_start as int, i + 1));
        }
        i = i + 1;
    }
    let ghost cur = b@.subrange(cur_start as int, n as int);
    let ghost old_r = r@;
    r.push((cur_start, n));
    assert(Seq::new(r@.len(), |k: int| b@.subrange(r@[k].0 as int, r@[k].1 as int)) =~= Seq::new(
        old_r.len(),
        |k: int| b@.subrange(old_r[k].0 as int, old_r[k].1 as int),
    ) + seq![cur]);
    assert(b@.subrange(n as int, n as int) =~= Seq::<u8>::empty());
    r
}

/// A node of the tree as the export reads it.
pub struct ExportSource {
    pub name: String,
    pub file_type: FileType,
    pub rep_status: RepStatus,
    pub dat_status: DatStatus,
    /// The node's header type (the "required" bit taken off) is CHD.
    pub header_is_chd: bool,
    pub hashes: FileHashes,
    pub merge: String,
    pub status: Option<String>,
    pub game: Option<RvGame>,
    pub dir_dats: Vec<RvDat>,
    pub dat: Option<RvDat>,
    pub children: Vec<ExportSource>,
}

/// A file of the exported DAT.
pub struct ExportFile {
    pub size: Option<u64>,
    pub crc: Option<Vec<u8>>,
    pub sha1: Option<Vec<u8>>,
    pub md5: Option<Vec<u8>>,
    pub merge: Option<String>,
    pub status: Option<String>,
    pub mia: Option<String>,
    pub is_disk: bool,
}

/// The game of an exported directory.
pub struct ExportGame {
    pub description: Option<String>,
    pub category: Vec<String>,
    pub rom_of: Option<String>,
    pub is_bios: Option<String>,
    pub source_file: Option<String>,
    pub clone_of: Option<String>,
    pub sample_of: Option<String>,
    pub board: Option<String>,
    pub year: Option<String>,
    pub manufacturer: Option<String>,
}

/// A node of the exported DAT: a file when `file` is set, else a directory
/// with its game (if any) and children.
pub struct ExportNode {
    pub name: String,
    pub file: Option<ExportFile>,
    pub game: Option<ExportGame>,
    pub children: Vec<ExportNode>,
}

/// What an exported file holds; texts that may be cut are held as bytes.
pub struct ExportFileView {
    pub size: Option<u64>,
    pub crc: Option<Seq<u8>>,
    pub sha1: Option<Seq<u8>>,
    pub md5: Option<Seq<u8>>,
    pub merge: Option<Seq<u8>>,
    pub status: Option<Seq<char>>,
    pub mia: Option<Seq<char>>,
    pub is_disk: bool,
}

/// What an exported game holds.
pub struct ExportGameView {
    pub description: Option<Seq<u8>>,
    pub category: Seq<Seq<char>>,
    pub rom_of: Option<Seq<char>>,
    pub is_bios: Option<Seq<char>>,
    pub source_file: Option<Seq<char>>,
    pub clone_of: Option<Seq<char>>,
    pub sample_of: Option<Seq<char>>,
    pub board: Option<Seq<char>>,
    pub year: Option<Seq<char>>,
    pub manufacturer: Option<Seq<char>>,
}

/// What an exported node holds, its name as UTF-8 bytes.
pub struct ExportNodeView {
    pub name: Seq<u8>,
    pub file: Option<ExportFileView>,
    pub game: Option<ExportGameView>,
    pub children: Seq<ExportNodeView>,
}

/// The UTF-8 bytes of an optional text.
pub open spec fn opt_utf8(o: Option<String>) -> Option<Seq<u8>> {
    match o {
        Some(s) => Some(encode_utf8(s@)),
        None => None,
    }
}

/// `f` holds what `v` says.
pub open spec fn file_is(f: ExportFile, v: ExportFileView) -> bool {
    &&& f.size == v.size
    &&& opt_seq(f.crc) == v.crc
    &&& opt_seq(f.sha1) == v.sha1
    &&& opt_seq(f.md5) == v.md5
    &&& opt_utf8(f.merge) == v.merge
    &&& opt_text(f.status) == v.status
    &&& opt_text(f.mia) == v.mia
    &&& f.is_disk == v.is_disk
}

/// `g` holds what `v` says.
pub open spec fn game_is(g: ExportGame, v: ExportGameView) -> bool {
    &&& opt_utf8(g.description) == v.description
    &&& strings_view(g.category@) == v.category
    &&& opt_text(g.rom_of) == v.rom_of
    &&& opt_text(g.is_bios) == v.is_bios
    &&& opt_text(g.source_file) == v.source_file
    &&& opt_text(g.clone_of) == v.clone_of
    &&& opt_text(g.sample_of) == v.sample_of
    &&& opt_text(g.board) == v.board
    &&& opt_text(g.year) == v.year
    &&& opt_text(g.manufacturer) == v.manufacturer
}

/// `n` holds what `v` says, its children recursively.
pub open spec fn node_is(n: ExportNode, v: ExportNodeView) -> bool
    decreases n,
{
    &&& encode_utf8(n.name@) == v.name
    &&& match (n.file, v.file) {
        (Some(f), Some(fv)) => file_is(f, fv),
        (None, None) => true,
        _ => false,
    }
    &&& match (n.game, v.game) {
        (Some(g), Some(gv)) => game_is(g, gv),
        (None, None) => true,
        _ => false,
    }
    &&& kids_are(n.children@, v.children)
}

/// `node_is` child by child.
pub open spec fn kids_are(ns: Seq<ExportNode>, vs: Seq<ExportNodeView>) -> bool
    decreases ns,
{
    &&& ns.len() == vs.len()
    &&& (ns.len() > 0 ==> {
        &&& node_is(ns[ns.len() - 1], vs[vs.len() - 1])
        &&& kids_are(ns.subrange(0, ns.len() - 1), vs.subrange(0, vs.len() - 1))
    })
}

/// Zip and 7z archives.
pub open spec fn is_archive(t: FileType) -> bool {
    t == FileType::Zip || t == FileType::SevenZip
}

/// The export includes a file with this repair status, a member of an
/// archive when `in_archive`, else a loose file.
pub open spec fn includes_file(c: ExternalDatConverterTo, in_archive: bool, rep: RepStatus) -> bool {
    &&& if in_archive {
        c.filter_zips
    } else {
        c.filter_files
    }
    &&& match rep {
        RepStatus::Correct | RepStatus::CorrectMIA | RepStatus::Unknown | RepStatus::UnScanned => c.filter_got,
        RepStatus::Missing | RepStatus::Corrupt | RepStatus::Incomplete => c.filter_missing,
        RepStatus::MissingMIA => c.filter_mia,
        RepStatus::NotCollected => c.filter_merged,
        RepStatus::UnNeeded => c.filter_merged || c.filter_fixable,
        RepStatus::CanBeFixed | RepStatus::CanBeFixedMIA | RepStatus::CorruptCanBeFixed
        | RepStatus::IncompleteRemove | RepStatus::InToSort | RepStatus::MoveToSort
        | RepStatus::MoveToCorrupt | RepStatus::Delete | RepStatus::Deleted | RepStatus::NeededForFix
        | RepStatus::Rename => c.filter_fixable,
        _ => true,
    }
}

/// `.chd`
pub open spec fn chd_suffix() -> Seq<u8> {
    seq![0x2eu8, 0x63u8, 0x68u8, 0x64u8]
}

/// `.zip`
pub open spec fn zip_suffix() -> Seq<u8> {
    seq![0x2eu8, 0x7au8, 0x69u8, 0x70u8]
}

/// `.7z`
pub open spec fn seven_zip_suffix() -> Seq<u8> {
    seq![0x2eu8, 0x37u8, 0x7au8]
}

/// A disk image whose headerless hashes are known is exported by them.
pub open spec fn exports_alt_hashes(src: ExportSource) -> bool {
    src.header_is_chd && (src.hashes.alt_md5 is Some || src.hashes.alt_sha1 is Some)
}

/// The name of an exported file: a disk image loses its `.chd`.
pub open spec fn file_name_view(src: ExportSource) -> Seq<u8> {
    if src.header_is_chd {
        strip_suffix_ci(encode_utf8(src.name@), chd_suffix())
    } else {
        encode_utf8(src.name@)
    }
}

/// What the export writes for a file.
pub open spec fn file_view(src: ExportSource) -> ExportFileView {
    let h: HashesView = src.hashes@;
    let alt = exports_alt_hashes(src);
    ExportFileView {
        size: if alt { h.alt_size } else { h.size },
        crc: if alt { h.alt_crc } else { h.crc },
        sha1: if alt { h.alt_sha1 } else { h.sha1 },
        md5: if alt { h.alt_md5 } else { h.md5 },
        merge: Some(if src.header_is_chd {
            strip_suffix_ci(encode_utf8(src.merge@), chd_suffix())
        } else {
            encode_utf8(src.merge@)
        }),
        status: opt_text(src.status),
        mia: if src.dat_status == DatStatus::InDatMIA {
            Some(seq!['y', 'e', 's'])
        } else {
            None
        },
        is_disk: src.header_is_chd,
    }
}

/// The name of an exported directory: an archive loses its extension.
pub open spec fn game_name(src: ExportSource) -> Seq<u8> {
    let b = encode_utf8(src.name@);
    if src.file_type == FileType::Zip {
        strip_suffix_ci(b, zip_suffix())
    } else if src.file_type == FileType::SevenZip {
        strip_suffix_ci(b, seven_zip_suffix())
    } else {
        b
    }
}

/// A game with nothing set.
pub open spec fn empty_game_view() -> ExportGameView {
    ExportGameView {
        description: None,
        category: Seq::empty(),
        rom_of: None,
        is_bios: None,
        source_file: None,
        clone_of: None,
        sample_of: None,
        board: None,
        year: None,
        manufacturer: None,
    }
}

/// What the export writes for the game of a directory: its metadata (a
/// description of `¤` standing for the directory's name), an empty game
/// for a zip archive without one, else none.
pub open spec fn game_view(src: ExportSource, name: Seq<u8>) -> Option<ExportGameView> {
    match src.game {
        Some(g) => {
            let m = g.game_meta_data@;
            Some(ExportGameView {
                description: match game_meta_lookup(m, GameData::Description) {
                    Some(d) => if d == seq!['\u{a4}'] {
                        Some(name)
                    } else {
                        Some(encode_utf8(d))
                    },
                    None => None,
                },
                category: match game_meta_lookup(m, GameData::Category) {
                    Some(c) => match category_list_spec(c) {
                        Some(l) => l,
                        None => Seq::empty(),
                    },
                    None => Seq::empty(),
                },
                rom_of: game_meta_lookup(m, GameData::RomOf),
                is_bios: game_meta_lookup(m, GameData::IsBios),
                source_file: game_meta_lookup(m, GameData::Sourcefile),
                clone_of: game_meta_lookup(m, GameData::CloneOf),
                sample_of: game_meta_lookup(m, GameData::SampleOf),
                board: game_meta_lookup(m, GameData::Board),
                year: game_meta_lookup(m, GameData::Year),
                manufacturer: game_meta_lookup(m, GameData::Manufacturer),
            })
        },
        None => if src.file_type == FileType::Zip {
            Some(empty_game_view())
        } else {
            None
        },
    }
}

/// What the export adds to the parent of `src` (some ancestor of which is
/// an archive when `within_archive`): a file that passes the filters, a
/// directory with its exported children unless it is an archive and
/// archives are left out, or nothing.
pub open spec fn export_of(c: ExternalDatConverterTo, src: ExportSource, within_archive: bool) -> Option<
    ExportNodeView,
>
    decreases src,
{
    if src.file_type == FileType::File {
        if includes_file(c, within_archive, src.rep_status) {
            Some(
                ExportNodeView {
                    name: file_name_view(src),
                    file: Some(file_view(src)),
                    game: None,
                    children: Seq::empty(),
                },
            )
        } else {
            None
        }
    } else if is_archive(src.file_type) && !c.filter_zips {
        None
    } else {
        Some(
            ExportNodeView {
                name: game_name(src),
                file: None,
                game: game_view(src, game_name(src)),
                children: kids_export(c, src.children@, within_archive || is_archive(src.file_type)),
            },
        )
    }
}

/// What the export adds for each of `srcs`, in order.
pub open spec fn kids_export(c: ExternalDatConverterTo, srcs: Seq<ExportSource>, within_archive: bool) -> Seq<
    ExportNodeView,
>
    decreases srcs,
{
    if srcs.len() == 0 {
        Seq::empty()
    } else {
        let prev = kids_export(c, srcs.subrange(0, srcs.len() - 1), within_archive);
        match export_of(c, srcs[srcs.len() - 1], within_archive) {
            Some(v) => prev.push(v),
            None => prev,
        }
    }
}

/// An exported DAT: its header and its top directory.
pub struct ExportDat {
    pub header: DatHeader,
    pub base_dir: ExportNode,
}

/// The DAT whose header an export copies: the node's own, else its only
/// directory DAT.
pub open spec fn header_dat(root: ExportSource) -> Option<RvDat> {
    if root.dat is Some {
        root.dat
    } else if root.dir_dats@.len() == 1 {
        Some(root.dir_dats@[0])
    } else {
        None
    }
}

/// `h` is the header the export writes for `root`: the header fields of its
/// DAT when there is one and headers are wanted, else just the node's name.
pub open spec fn header_is(c: ExternalDatConverterTo, root: ExportSource, h: DatHeader) -> bool {
    if c.use_header && header_dat(root) is Some {
        let m = header_dat(root).unwrap().game_meta_data@;
        &&& opt_text(h.id) == dat_meta_lookup(m, DatData::Id)
        &&& opt_text(h.name) == dat_meta_lookup(m, DatData::DatName)
        &&& opt_text(h.root_dir) == dat_meta_lookup(m, DatData::RootDir)
        &&& opt_text(h.description) == dat_meta_lookup(m, DatData::Description)
        &&& opt_text(h.category) == dat_meta_lookup(m, DatData::Category)
        &&& opt_text(h.version) == dat_meta_lookup(m, DatData::Version)
        &&& opt_text(h.date) == dat_meta_lookup(m, DatData::Date)
        &&& opt_text(h.author) == dat_meta_lookup(m, DatData::Author)
        &&& opt_text(h.email) == dat_meta_lookup(m, DatData::Email)
        &&& opt_text(h.homepage) == dat_meta_lookup(m, DatData::HomePage)
        &&& opt_text(h.url) == dat_meta_lookup(m, DatData::Url)
        &&& opt_text(h.dir) == dat_meta_lookup(m, DatData::DirSetup)
        &&& opt_text(h.header) == dat_meta_lookup(m, DatData::Header)
        &&& opt_text(h.compression) == dat_meta_lookup(m, DatData::Compression)
        &&& opt_text(h.merge_type) == dat_meta_lookup(m, DatData::MergeType)
    } else {
        &&& opt_text(h.name) == Some(root.name@)
        &&& h.id is None && h.root_dir is None && h.description is None && h.category is None
        &&& h.version is None && h.date is None && h.author is None && h.email is None
        &&& h.homepage is None && h.url is None && h.dir is None && h.header is None
        &&& h.compression is None && h.merge_type is None
    }
}

/// The top directory of the export of `root` (some ancestor of which is an
/// archive when `within_archive`): its exported children, archives and sets
/// flattened, then directories left empty removed.
pub open spec fn export_base(c: ExternalDatConverterTo, root: ExportSource, within_archive: bool) -> ExportNodeView {
    let top = ExportNodeView {
        name: Seq::empty(),
        file: None,
        game: None,
        children: kids_export(c, root.children@, within_archive || is_archive(root.file_type)),
    };
    pruned(flattened(top))
}

/// `name` under `sub`: `sub/name`, or `name` at the top.
pub open spec fn sub_name(sub: Seq<u8>, name: Seq<u8>) -> Seq<u8> {
    if sub.len() == 0 {
        name
    } else {
        sub + seq![0x2fu8] + name
    }
}

/// The entry that stands for directory `name` in a flattened archive: an
/// empty file named `name/`.
pub open spec fn dir_marker(name: Seq<u8>) -> ExportNodeView {
    ExportNodeView {
        name: name.push(0x2fu8),
        file: Some(
            ExportFileView {
                size: Some(0),
                crc: Some(seq![0u8, 0u8, 0u8, 0u8]),
                sha1: None,
                md5: None,
                merge: None,
                status: None,
                mia: None,
                is_disk: false,
            },
        ),
        game: None,
        children: Seq::empty(),
    }
}

/// `n` renamed.
pub open spec fn renamed(n: ExportNodeView, name: Seq<u8>) -> ExportNodeView {
    ExportNodeView { name, file: n.file, game: n.game, children: n.children }
}

/// `n` with other children.
pub open spec fn with_children(n: ExportNodeView, children: Seq<ExportNodeView>) -> ExportNodeView {
    ExportNodeView { name: n.name, file: n.file, game: n.game, children }
}

/// The entries of `children` with every directory flattened into a marker
/// followed by its own entries, names given under `sub`.
pub open spec fn flat_list(children: Seq<ExportNodeView>, sub: Seq<u8>) -> Seq<ExportNodeView>
    decreases children,
{
    if children.len() == 0 {
        Seq::empty()
    } else {
        let prev = flat_list(children.subrange(0, children.len() - 1), sub);
        let n = children[children.len() - 1];
        let this_name = sub_name(sub, n.name);
        if n.file is Some {
            prev.push(renamed(n, this_name))
        } else {
            prev.push(dir_marker(this_name)) + flat_list(n.children, this_name)
        }
    }
}

/// Directories with a game (archives, sets) flattened: their whole subtree
/// becomes one list of entries.
pub open spec fn flattened(d: ExportNodeView) -> ExportNodeView
    decreases d,
{
    if d.game is Some {
        with_children(d, flat_list(d.children, Seq::empty()))
    } else {
        with_children(d, kids_flattened(d.children))
    }
}

/// `flattened` for each directory of `s`.
pub open spec fn kids_flattened(s: Seq<ExportNodeView>) -> Seq<ExportNodeView>
    decreases s,
{
    if s.len() == 0 {
        Seq::empty()
    } else {
        let n = s[s.len() - 1];
        kids_flattened(s.subrange(0, s.len() - 1)).push(
            if n.file is None {
                flattened(n)
            } else {
                n
            },
        )
    }
}

/// Directories left without entries removed, bottom up.
pub open spec fn pruned(d: ExportNodeView) -> ExportNodeView
    decreases d,
{
    with_children(d, kids_pruned(d.children))
}

/// `pruned` for each directory of `s`, dropping those left empty.
pub open spec fn kids_pruned(s: Seq<ExportNodeView>) -> Seq<ExportNodeView>
    decreases s,
{
    if s.len() == 0 {
        Seq::empty()
    } else {
        let prev = kids_pruned(s.subrange(0, s.len() - 1));
        let n = s[s.len() - 1];
        if n.file is None {
            if pruned(n).children.len() > 0 {
                prev.push(pruned(n))
            } else {
                prev
            }
        } else {
            prev.push(n)
        }
    }
}

/// No directory below `v` is left without entries.
pub open spec fn no_empty_dirs(v: ExportNodeView) -> bool
    decreases v,
{
    kids_no_empty_dirs(v.children)
}

/// Each directory of `s` has entries, and none below it is empty.
pub open spec fn kids_no_empty_dirs(s: Seq<ExportNodeView>) -> bool
    decreases s,
{
    s.len() > 0 ==> {
        let n = s[s.len() - 1];
        &&& (n.file is None ==> n.children.len() > 0 && no_empty_dirs(n))
        &&& kids_no_empty_dirs(s.subrange(0, s.len() - 1))
    }
}

proof fn lemma_pruned_no_empty(v: ExportNodeView)
    ensures
        no_empty_dirs(pruned(v)),
    decreases v,
{
    lemma_kids_pruned_no_empty(v.children);
}

proof fn lemma_kids_pruned_no_empty(s: Seq<ExportNodeView>)
    ensures
        kids_no_empty_dirs(kids_pruned(s)),
    decreases s,
{
    if s.len() > 0 {
        let p = s.subrange(0, s.len() - 1);
        let n = s[s.len() - 1];
        lemma_kids_pruned_no_empty(p);
        if n.file is None {
            lemma_pruned_no_empty(n);
            if pruned(n).children.len() > 0 {
                let r = kids_pruned(p).push(pruned(n));
                assert(r.subrange(0, r.len() - 1) =~= kids_pruned(p));
            }
        } else {
            let r = kids_pruned(p).push(n);
            assert(r.subrange(0, r.len() - 1) =~= kids_pruned(p));
        }
    }
}

/// An exported DAT holds no directory without entries, at any depth.
pub proof fn law_export_leaves_no_empty_directory(c: ExternalDatConverterTo, root: ExportSource, within_archive: bool)
    ensures
        no_empty_dirs(export_base(c, root, within_archive)),
{
    let top = ExportNodeView {
        name: Seq::empty(),
        file: None,
        game: None,
        children: kids_export(c, root.children@, within_archive || is_archive(root.file_type)),
    };
    lemma_pruned_no_empty(flattened(top));
}

proof fn lemma_kids_are_index(ns: Seq<ExportNode>, vs: Seq<ExportNodeView>, j: int)
    requires
        kids_are(ns, vs),
        0 <= j < ns.len(),
    ensures
        node_is(ns[j], vs[j]),
    decreases ns.len(),
{
    if j < ns.len() - 1 {
        lemma_kids_are_index(ns.subrange(0, ns.len() - 1), vs.subrange(0, vs.len() - 1), j);
    }
}

proof fn lemma_kids_are_concat(a: Seq<ExportNode>, av: Seq<ExportNodeView>, b: Seq<ExportNode>, bv: Seq<ExportNodeView>)
    requires
        kids_are(a, av),
        kids_are(b, bv),
    ensures
        kids_are(a + b, av + bv),
    decreases b.len(),
{
    if b.len() == 0 {
        assert(a + b =~= a);
        assert(av + bv =~= av);
    } else {
        let bp = b.subrange(0, b.len() - 1);
        let bvp = bv.subrange(0, bv.len() - 1);
        lemma_kids_are_concat(a, av, bp, bvp);
        assert((a + b).subrange(0, (a + b).len() - 1) =~= a + bp);
        assert((av + bv).subrange(0, (av + bv).len() - 1) =~= av + bvp);
    }
}

proof fn lemma_kids_are_push(ns: Seq<ExportNode>, vs: Seq<ExportNodeView>, n: ExportNode, v: ExportNodeView)
    requires
        kids_are(ns, vs),
        node_is(n, v),
    ensures
        kids_are(ns.push(n), vs.push(v)),
{
    assert(ns.push(n).subrange(0, ns.len() as int) =~= ns);
    assert(vs.push(v).subrange(0, vs.len() as int) =~= vs);
}

proof fn lemma_encode_slash()
    ensures
        encode_utf8("/"@) == seq![0x2fu8],
{
    reveal_strlit("/");
    assert("/"@ == seq!['/']);
    assert(seq!['/'].drop_first() =~= Seq::<char>::empty());
    assert(encode_utf8(Seq::<char>::empty()) =~= Seq::<u8>::empty());
    assert(('/' as u32) == 0x2fu32);
    assert(((0x2fu32 & 0x7fu32) as u8) == 0x2fu8) by (bit_vector);
    assert(encode_scalar('/' as u32) =~= seq![0x2fu8]);
    assert(encode_utf8(seq!['/']) =~= seq![0x2fu8]);
}

fn empty_node() -> (r: ExportNode)
    ensures
        r.name@.len() == 0,
        r.file is None,
        r.game is None,
        r.children@.len() == 0,
{
    ExportNode { name: String::new(), file: None, game: None, children: Vec::new() }
}

/// `name` under `sub` (see [`sub_name`]).
fn under(sub: &String, name: &String) -> (r: String)
    ensures
        encode_utf8(r@) == sub_name(encode_utf8(sub@), encode_utf8(name@)),
{
    if str_bytes(sub.as_str()).len() == 0 {
        name.clone()
    } else {
        let mut t = sub.clone();
        t.append("/");
        t.append(name.as_str());
        proof {
            lemma_encode_slash();
            lemma_encode_concat(sub@, "/"@);
            lemma_encode_concat(sub@ + "/"@, name@);
            assert(t@ == sub@ + "/"@ + name@);
        }
        t
    }
}

/// The marker entry of directory `name` (see [`dir_marker`]).
fn dir_marker_node(name: &String) -> (r: ExportNode)
    ensures
        node_is(r, dir_marker(encode_utf8(name@))),
{
    let mut t = name.clone();
    t.append("/");
    proof {
        lemma_encode_slash();
        lemma_encode_concat(name@, "/"@);
        assert(encode_utf8(t@) =~= encode_utf8(name@).push(0x2fu8));
    }
    let crc: Vec<u8> = vec![0u8, 0u8, 0u8, 0u8];
    let f = ExportFile {
        size: Some(0),
        crc: Some(crc),
        sha1: None,
        md5: None,
        merge: None,
        status: None,
        mia: None,
        is_disk: false,
    };
    let r = ExportNode { name: t, file: Some(f), game: None, children: Vec::new() };
    proof {
        assert(r.children@ =~= Seq::<ExportNode>::empty());
        assert(crc@ =~= seq![0u8, 0u8, 0u8, 0u8]);
    }
    r
}

/// Appends to `new_dir` the entries of `children` flattened under `sub_dir`
/// (see [`flat_list`]); the children are consumed.
fn archive_flat(
    children: Vec<ExportNode>,
    new_dir: &mut Vec<ExportNode>,
    sub_dir: &String,
    Ghost(vs): Ghost<Seq<ExportNodeView>>,
    Ghost(out): Ghost<Seq<ExportNodeView>>,
)
    requires
        kids_are(children@, vs),
        kids_are(old(new_dir)@, out),
    ensures
        kids_are(final(new_dir)@, out + flat_list(vs, encode_utf8(sub_dir@))),
    decreases vs,
{
    let ghost sub = encode_utf8(sub_dir@);
    let mut children = children;
    let ghost kids = children@;
    let mut i: usize = 0;
    proof {
        assert(vs.subrange(0, 0) =~= Seq::<ExportNodeView>::empty());
        assert(out + flat_list(vs.subrange(0, 0), sub) =~= out);
    }
    while i < children.len()
        invariant
            sub == encode_utf8(sub_dir@),
            children@.len() == kids.len(),
            kids_are(kids, vs),
            forall|j: int| i <= j < kids.len() ==> #[trigger] children@[j] == kids[j],
            i <= kids.len(),
            kids_are(new_dir@, out + flat_list(vs.subrange(0, i as int), sub)),
        decreases kids.len() - i,
    {
        let mut n = empty_node();
        children.set_and_swap(i, &mut n);
        let ghost v = vs[i as int];
        let ghost before = new_dir@;
        let ghost prefix = out + flat_list(vs.subrange(0, i as int), sub);
        proof {
            lemma_kids_are_index(kids, vs, i as int);
            let s = vs.subrange(0, i + 1);
            assert(s.subrange(0, s.len() - 1) =~= vs.subrange(0, i as int));
            assert(s[s.len() - 1] == v);
        }
        let this_name = under(sub_dir, &n.name);
        if n.file.is_some() {
            n.name = this_name;
            proof {
                assert(node_is(n, renamed(v, sub_name(sub, v.name))));
                lemma_kids_are_push(before, prefix, n, renamed(v, sub_name(sub, v.name)));
                assert(prefix.push(renamed(v, sub_name(sub, v.name))) =~= out + flat_list(vs.subrange(0, i + 1), sub));
            }
            new_dir.push(n);
        } else {
            let marker = dir_marker_node(&this_name);
            proof {
                lemma_kids_are_push(before, prefix, marker, dir_marker(sub_name(sub, v.name)));
            }
            new_dir.push(marker);
            let grand = n.children;
            proof {
                assert(decreases_to!(vs => vs[i as int]));
                assert(decreases_to!(v => v.children));
            }
            archive_flat(grand, new_dir, &this_name, Ghost(v.children), Ghost(prefix.push(dir_marker(sub_name(sub, v.name)))));
            proof {
                assert(prefix.push(dir_marker(sub_name(sub, v.name))) + flat_list(v.children, sub_name(sub, v.name))
                    =~= out + flat_list(vs.subrange(0, i + 1), sub));
            }
        }
        i = i + 1;
    }
    proof {
        assert(vs.subrange(0, kids.len() as int) =~= vs);
    }
}

/// Flattens, below (and at) `d`, every directory with a game into one list
/// of entries (see [`flattened`]).
fn archive_directory_flatten(d: &mut ExportNode, Ghost(v): Ghost<ExportNodeView>)
    requires
        node_is(*old(d), v),
    ensures
        node_is(*final(d), flattened(v)),
    decreases *old(d),
{
    if d.game.is_some() {
        let mut taken: Vec<ExportNode> = Vec::new();
        std::mem::swap(&mut taken, &mut d.children);
        let mut list: Vec<ExportNode> = Vec::new();
        let root = String::new();
        proof {
            assert(kids_are(list@, Seq::<ExportNodeView>::empty()));
            assert(encode_utf8(root@) =~= Seq::<u8>::empty());
        }
        archive_flat(taken, &mut list, &root, Ghost(v.children), Ghost(Seq::empty()));
        proof {
            assert(Seq::<ExportNodeView>::empty() + flat_list(v.children, Seq::empty()) =~= flat_list(
                v.children,
                Seq::empty(),
            ));
        }
        d.children = list;
        return;
    }
    let ghost o = *d;
    let ghost kids = o.children@;
    let ghost kv = v.children;
    proof {
        assert(kids.subrange(0, 0) =~= Seq::<ExportNode>::empty());
        assert(kv.subrange(0, 0) =~= Seq::<ExportNodeView>::empty());
    }
    let mut i: usize = 0;
    while i < d.children.len()
        invariant
            o == *old(d),
            node_is(o, v),
            v.game is None,
            kids == o.children@,
            kv == v.children,
            kids_are(kids, kv),
            d.name == o.name,
            d.file == o.file,
            d.game == o.game,
            d.children@.len() == kids.len(),
            i <= kids.len(),
            forall|j: int| i <= j < kids.len() ==> #[trigger] d.children@[j] == kids[j],
            kids_are(d.children@.subrange(0, i as int), kids_flattened(kv.subrange(0, i as int))),
        decreases kids.len() - i,
    {
        let ghost done = d.children@;
        let mut child = empty_node();
        d.children.set_and_swap(i, &mut child);
        let ghost cv = kv[i as int];
        proof {
            lemma_kids_are_index(kids, kv, i as int);
            assert(child == kids[i as int]);
            let s = kv.subrange(0, i + 1);
            assert(s.subrange(0, s.len() - 1) =~= kv.subrange(0, i as int));
            assert(s[s.len() - 1] == cv);
        }
        if child.file.is_none() {
            proof {
                assert(decreases_to!(o => o.children));
                assert(decreases_to!(o.children => o.children@));
                assert(decreases_to!(o.children@ => o.children@[i as int]));
                assert(decreases_to!(*old(d) => child));
            }
            archive_directory_flatten(&mut child, Ghost(cv));
        }
        let ghost c1 = child;
        d.children.set_and_swap(i, &mut child);
        proof {
            let x = if cv.file is None {
                flattened(cv)
            } else {
                cv
            };
            assert(node_is(c1, x));
            lemma_kids_are_push(done.subrange(0, i as int), kids_flattened(kv.subrange(0, i as int)), c1, x);
            assert(d.children@.subrange(0, i + 1) =~= done.subrange(0, i as int).push(c1));
            assert(kids_flattened(kv.subrange(0, i + 1)) == kids_flattened(kv.subrange(0, i as int)).push(x));
        }
        i = i + 1;
    }
    proof {
        assert(d.children@.subrange(0, kids.len() as int) =~= d.children@);
        assert(kv.subrange(0, kids.len() as int) =~= kv);
    }
}

/// Removes, below `d`, every directory left without entries, bottom up
/// (see [`pruned`]).
fn remove_unneeded_directories(d: &mut ExportNode, Ghost(v): Ghost<ExportNodeView>)
    requires
        node_is(*old(d), v),
    ensures
        node_is(*final(d), pruned(v)),
    decreases *old(d),
{
    let ghost o = *d;
    let mut taken: Vec<ExportNode> = Vec::new();
    std::mem::swap(&mut taken, &mut d.children);
    let ghost kids = taken@;
    let ghost kv = v.children;
    let mut kept: Vec<ExportNode> = Vec::new();
    proof {
        assert(kv.subrange(0, 0) =~= Seq::<ExportNodeView>::empty());
    }
    let mut i: usize = 0;
    while i < taken.len()
        invariant
            o == *old(d),
            node_is(o, v),
            kids == o.children@,
            kv == v.children,
            kids_are(kids, kv),
            taken@.len() == kids.len(),
            i <= kids.len(),
            forall|j: int| i <= j < kids.len() ==> #[trigger] taken@[j] == kids[j],
            kids_are(kept@, kids_pruned(kv.subrange(0, i as int))),
        decreases kids.len() - i,
    {
        let mut child = empty_node();
        taken.set_and_swap(i, &mut child);
        let ghost cv = kv[i as int];
        let ghost before = kept@;
        proof {
            lemma_kids_are_index(kids, kv, i as int);
            assert(child == kids[i as int]);
            let s = kv.subrange(0, i + 1);
            assert(s.subrange(0, s.len() - 1) =~= kv.subrange(0, i as int));
            assert(s[s.len() - 1] == cv);
        }
        if child.file.is_none() {
            proof {
                assert(decreases_to!(o => o.children));
                assert(decreases_to!(o.children => o.children@));
                assert(decreases_to!(o.children@ => o.children@[i as int]));
                assert(decreases_to!(*old(d) => child));
            }
            remove_unneeded_directories(&mut child, Ghost(cv));
            if child.children.len() > 0 {
                proof {
                    lemma_kids_are_push(before, kids_pruned(kv.subrange(0, i as int)), child, pruned(cv));
                }
                kept.push(child);
            }
        } else {
            proof {
                lemma_kids_are_push(before, kids_pruned(kv.subrange(0, i as int)), child, cv);
            }
            kept.push(child);
        }
        i = i + 1;
    }
    proof {
        assert(kv.subrange(0, kids.len() as int) =~= kv);
    }
    d.children = kept;
}

fn clone_bytes(o: &Option<Vec<u8>>) -> (r: Option<Vec<u8>>)
    ensures
        opt_seq(r) == opt_seq(*o),
{
    match o {
        Some(v) => Some(v.clone()),
        None => None,
    }
}

fn clone_text(o: &Option<String>) -> (r: Option<String>)
    ensures
        opt_text(r) == opt_text(*o),
{
    match o {
        Some(v) => Some(v.clone()),
        None => None,
    }
}

impl ExternalDatConverterTo {
    /// Export settings that include everything but merged files.
    pub fn new() -> (r: Self)
        ensures
            r.use_header && r.filter_got && r.filter_missing && r.filter_fixable && r.filter_mia
                && !r.filter_merged && r.filter_files && r.filter_zips,
    {
        ExternalDatConverterTo {
            use_header: true,
            filter_got: true,
            filter_missing: true,
            filter_fixable: true,
            filter_mia: true,
            filter_merged: false,
            filter_files: true,
            filter_zips: true,
        }
    }

    /// The categories of a `|`-separated list, each trimmed; `None` for a
    /// blank list.
    pub fn category_list(instr: &str) -> (r: Option<Vec<String>>)
        ensures
            match r {
                None => category_list_spec(instr@) is None,
                Some(v) => category_list_spec(instr@) == Some(strings_view(v@)),
            },
    {
        if str_bytes(str_trim(instr)).len() == 0 {
            proof {
                let t = trim_chars(instr@);
                encode_utf8_decode_utf8(t);
                assert(encode_utf8(t) =~= Seq::<u8>::empty());
                assert(decode_utf8(Seq::<u8>::empty()) =~= Seq::<char>::empty());
            }
            return None;
        }
        proof {
            let t = trim_chars(instr@);
            if t.len() == 0 {
                assert(t =~= Seq::<char>::empty());
                assert(encode_utf8(Seq::<char>::empty()) =~= Seq::<u8>::empty());
            }
        }
        let b = str_bytes(instr);
        let ranges = bar_ranges(b);
        let ghost pieces = split_bar(b@);
        let mut out: Vec<String> = Vec::new();
        let mut k: usize = 0;
        while k < ranges.len()
            invariant
                b@ == encode_utf8(instr@),
                pieces == split_bar(b@),
                Seq::new(ranges@.len(), |j: int| b@.subrange(ranges@[j].0 as int, ranges@[j].1 as int))
                    == pieces,
                forall|j: int|
                    0 <= j < ranges@.len() ==> {
                        &&& #[trigger] ranges@[j].0 <= ranges@[j].1 <= b@.len()
                        &&& ranges@[j].0 == 0 || b@[ranges@[j].0 - 1] < 0x80
                        &&& ranges@[j].1 == b@.len() || b@[ranges@[j].1 as int] < 0x80
                    },
                k <= ranges@.len(),
                out@.len() == k,
                forall|j: int| 0 <= j < k ==> #[trigger] out@[j]@ == trim_chars(decode_utf8(pieces[j])),
            decreases ranges@.len() - k,
        {
            let (s, e) = ranges[k];
            let p = piece(instr, s, e);
            proof {
                encode_utf8_decode_utf8(p@);
                assert(pieces[k as int] == b@.subrange(s as int, e as int));
            }
            out.push(str_trim(p).to_string());
            k = k + 1;
        }
        assert(strings_view(out@) =~= Seq::new(pieces.len(), |i: int| trim_chars(decode_utf8(pieces[i]))));
        Some(out)
    }

    /// The export includes a file with this repair status, a member of an
    /// archive when `in_archive`, else a loose file.
    pub fn includes_file(&self, in_archive: bool, rep_status: RepStatus) -> (r: bool)
        ensures
            r == includes_file(*self, in_archive, rep_status),
    {
        let kind_ok = if in_archive {
            self.filter_zips
        } else {
            self.filter_files
        };
        if !kind_ok {
            return false;
        }
        match rep_status {
            RepStatus::Correct | RepStatus::CorrectMIA | RepStatus::Unknown | RepStatus::UnScanned => self.filter_got,
            RepStatus::Missing | RepStatus::Corrupt | RepStatus::Incomplete => self.filter_missing,
            RepStatus::MissingMIA => self.filter_mia,
            RepStatus::NotCollected => self.filter_merged,
            RepStatus::UnNeeded => self.filter_merged || self.filter_fixable,
            RepStatus::CanBeFixed | RepStatus::CanBeFixedMIA | RepStatus::CorruptCanBeFixed
            | RepStatus::IncompleteRemove | RepStatus::InToSort | RepStatus::MoveToSort
            | RepStatus::MoveToCorrupt | RepStatus::Delete | RepStatus::Deleted
            | RepStatus::NeededForFix | RepStatus::Rename => self.filter_fixable,
            _ => true,
        }
    }

    fn export_file(rv_file: &ExportSource) -> (r: ExportNode)
        ensures
            encode_utf8(r.name@) == file_name_view(*rv_file),
            r.file matches Some(f) && file_is(f, file_view(*rv_file)),
            r.game is None,
            r.children@.len() == 0,
    {
        let chd: Vec<u8> = vec![0x2eu8, 0x63u8, 0x68u8, 0x64u8];
        assert(chd@ == chd_suffix());
        let h = &rv_file.hashes;
        let alt = rv_file.header_is_chd && (h.alt_md5.is_some() || h.alt_sha1.is_some());
        let (size, crc, sha1, md5) = if alt {
            (h.alt_size, clone_bytes(&h.alt_crc), clone_bytes(&h.alt_sha1), clone_bytes(&h.alt_md5))
        } else {
            (h.size, clone_bytes(&h.crc), clone_bytes(&h.sha1), clone_bytes(&h.md5))
        };
        let merge = if rv_file.header_is_chd {
            strip_suffix_ci_str(rv_file.merge.as_str(), chd.as_slice())
        } else {
            rv_file.merge.clone()
        };
        let mia = match rv_file.dat_status {
            DatStatus::InDatMIA => {
                let y = "yes".to_string();
                proof {
                    reveal_strlit("yes");
                }
                Some(y)
            },
            _ => None,
        };
        let name = if rv_file.header_is_chd {
            strip_suffix_ci_str(rv_file.name.as_str(), chd.as_slice())
        } else {
            rv_file.name.clone()
        };
        let f = ExportFile {
            size,
            crc,
            sha1,
            md5,
            merge: Some(merge),
            status: clone_text(&rv_file.status),
            mia,
            is_disk: rv_file.header_is_chd,
        };
        proof {
            let v = file_view(*rv_file);
            assert(f.size == v.size);
            assert(opt_seq(f.crc) == v.crc);
            assert(opt_seq(f.md5) == v.md5);
            assert(opt_utf8(f.merge) == v.merge);
            assert(opt_text(f.status) == v.status);
            assert(opt_text(f.mia) == v.mia);
        }
        ExportNode { name, file: Some(f), game: None, children: Vec::new() }
    }

    fn export_game(rv_file: &ExportSource, game_name: &String) -> (r: Option<ExportGame>)
        ensures
            match (r, game_view(*rv_file, encode_utf8(game_name@))) {
                (Some(g), Some(v)) => game_is(g, v),
                (None, None) => true,
                _ => false,
            },
    {
        match &rv_file.game {
            Some(g) => {
                let description = match g.get_data(GameData::Description) {
                    Some(d) => {
                        proof {
                            reveal_strlit("\u{a4}");
                            assert("\u{a4}"@ == seq!['\u{a4}']);
                        }
                        if str_eq(d.as_str(), "\u{a4}") {
                            let n = game_name.clone();
                            assert(d@ == seq!['\u{a4}']);
                            assert(n@ == game_name@);
                            Some(n)
                        } else {
                            assert(d@ != seq!['\u{a4}']);
                            Some(d)
                        }
                    },
                    None => None,
                };
                let category = match g.get_data(GameData::Category) {
                    Some(c) => match Self::category_list(c.as_str()) {
                        Some(l) => l,
                        None => Vec::new(),
                    },
                    None => Vec::new(),
                };
                assert(category@.len() == 0 ==> strings_view(category@) =~= Seq::<Seq<char>>::empty());
                let r = ExportGame {
                    description,
                    category,
                    rom_of: g.get_data(GameData::RomOf),
                    is_bios: g.get_data(GameData::IsBios),
                    source_file: g.get_data(GameData::Sourcefile),
                    clone_of: g.get_data(GameData::CloneOf),
                    sample_of: g.get_data(GameData::SampleOf),
                    board: g.get_data(GameData::Board),
                    year: g.get_data(GameData::Year),
                    manufacturer: g.get_data(GameData::Manufacturer),
                };
                proof {
                    let v = game_view(*rv_file, encode_utf8(game_name@)).unwrap();
                    assert(opt_utf8(r.description) == v.description);
                    assert(strings_view(r.category@) == v.category);
                    assert(opt_text(r.rom_of) == v.rom_of);
                }
                Some(r)
            },
            None => {
                if rv_file.file_type == FileType::Zip {
                    let r = ExportGame {
                        description: None,
                        category: Vec::new(),
                        rom_of: None,
                        is_bios: None,
                        source_file: None,
                        clone_of: None,
                        sample_of: None,
                        board: None,
                        year: None,
                        manufacturer: None,
                    };
                    assert(strings_view(r.category@) =~= Seq::<Seq<char>>::empty());
                    Some(r)
                } else {
                    None
                }
            },
        }
    }

    /// The node the export adds for `rv_file` (some ancestor of which is an
    /// archive when `within_archive`), if any: see [`export_of`].
    fn child_add(&self, rv_file: &ExportSource, within_archive: bool) -> (r: Option<ExportNode>)
        ensures
            match (r, export_of(*self, *rv_file, within_archive)) {
                (Some(n), Some(v)) => node_is(n, v),
                (None, None) => true,
                _ => false,
            },
        decreases *rv_file,
    {
        if rv_file.file_type == FileType::File {
            if !self.includes_file(within_archive, rv_file.rep_status) {
                return None;
            }
            let n = Self::export_file(rv_file);
            proof {
                assert(n.children@ =~= Seq::<ExportNode>::empty());
            }
            return Some(n);
        }
        let archive = rv_file.file_type == FileType::Zip || rv_file.file_type == FileType::SevenZip;
        if archive && !self.filter_zips {
            return None;
        }
        let game_name = if rv_file.file_type == FileType::Zip {
            let zip: Vec<u8> = vec![0x2eu8, 0x7au8, 0x69u8, 0x70u8];
            assert(zip@ == zip_suffix());
            strip_suffix_ci_str(rv_file.name.as_str(), zip.as_slice())
        } else if rv_file.file_type == FileType::SevenZip {
            let sz: Vec<u8> = vec![0x2eu8, 0x37u8, 0x7au8];
            assert(sz@ == seven_zip_suffix());
            strip_suffix_ci_str(rv_file.name.as_str(), sz.as_slice())
        } else {
            rv_file.name.clone()
        };
        let game = Self::export_game(rv_file, &game_name);
        let inner = within_archive || archive;
        let ghost kids = rv_file.children@;
        let mut children: Vec<ExportNode> = Vec::new();
        let mut i: usize = 0;
        proof {
            assert(kids.subrange(0, 0) =~= Seq::<ExportSource>::empty());
        }
        while i < rv_file.children.len()
            invariant
                kids == rv_file.children@,
                i <= kids.len(),
                kids_are(children@, kids_export(*self, kids.subrange(0, i as int), inner)),
            decreases kids.len() - i,
        {
            proof {
                assert(decreases_to!(*rv_file => rv_file.children));
                assert(decreases_to!(rv_file.children => rv_file.children@));
                assert(decreases_to!(rv_file.children@ => rv_file.children@[i as int]));
            }
            let added = self.child_add(&rv_file.children[i], inner);
            let ghost prev = children@;
            proof {
                let s = kids.subrange(0, i + 1);
                assert(s.subrange(0, s.len() - 1) =~= kids.subrange(0, i as int));
                assert(s[s.len() - 1] == kids[i as int]);
            }
            match added {
                Some(n) => {
                    proof {
                        let v = export_of(*self, kids[i as int], inner).unwrap();
                        lemma_kids_are_push(prev, kids_export(*self, kids.subrange(0, i as int), inner), n, v);
                    }
                    children.push(n);
                },
                None => {},
            }
            i = i + 1;
        }
        proof {
            assert(kids.subrange(0, kids.len() as int) =~= kids);
        }
        Some(ExportNode { name: game_name, file: None, game, children })
    }

    /// The export of the branch at `rv_file` (some ancestor of which is an
    /// archive when `within_archive`) as a DAT: none for a file; else the
    /// header (see [`header_is`]) and the top directory (see
    /// [`export_base`]).
    pub fn convert_to_external_dat(&self, rv_file: &ExportSource, within_archive: bool) -> (r: Option<ExportDat>)
        ensures
            r is None <==> rv_file.file_type == FileType::File,
            r matches Some(x) ==> header_is(*self, *rv_file, x.header) && node_is(
                x.base_dir,
                export_base(*self, *rv_file, within_archive),
            ),
    {
        if rv_file.file_type == FileType::File {
            return None;
        }
        let header = if self.use_header && (rv_file.dat.is_some() || rv_file.dir_dats.len() == 1) {
            let d = match &rv_file.dat {
                Some(d) => d,
                None => &rv_file.dir_dats[0],
            };
            DatHeader {
                id: d.get_data(DatData::Id),
                name: d.get_data(DatData::DatName),
                root_dir: d.get_data(DatData::RootDir),
                description: d.get_data(DatData::Description),
                category: d.get_data(DatData::Category),
                version: d.get_data(DatData::Version),
                date: d.get_data(DatData::Date),
                author: d.get_data(DatData::Author),
                email: d.get_data(DatData::Email),
                homepage: d.get_data(DatData::HomePage),
                url: d.get_data(DatData::Url),
                header: d.get_data(DatData::Header),
                compression: d.get_data(DatData::Compression),
                merge_type: d.get_data(DatData::MergeType),
                dir: d.get_data(DatData::DirSetup),
            }
        } else {
            DatHeader {
                id: None,
                name: Some(rv_file.name.clone()),
                root_dir: None,
                description: None,
                category: None,
                version: None,
                date: None,
                author: None,
                email: None,
                homepage: None,
                url: None,
                header: None,
                compression: None,
                merge_type: None,
                dir: None,
            }
        };
        let inner = within_archive || rv_file.file_type == FileType::Zip || rv_file.file_type == FileType::SevenZip;
        let ghost kids = rv_file.children@;
        let mut children: Vec<ExportNode> = Vec::new();
        let mut i: usize = 0;
        proof {
            assert(kids.subrange(0, 0) =~= Seq::<ExportSource>::empty());
        }
        while i < rv_file.children.len()
            invariant
                kids == rv_file.children@,
                i <= kids.len(),
                kids_are(children@, kids_export(*self, kids.subrange(0, i as int), inner)),
            decreases kids.len() - i,
        {
            let added = self.child_add(&rv_file.children[i], inner);
            let ghost prev = children@;
            proof {
                let s = kids.subrange(0, i + 1);
                assert(s.subrange(0, s.len() - 1) =~= kids.subrange(0, i as int));
                assert(s[s.len() - 1] == kids[i as int]);
            }
            match added {
                Some(n) => {
                    proof {
                        let v = export_of(*self, kids[i as int], inner).unwrap();
                        lemma_kids_are_push(prev, kids_export(*self, kids.subrange(0, i as int), inner), n, v);
                    }
                    children.push(n);
                },
                None => {},
            }
            i = i + 1;
        }
        proof {
            assert(kids.subrange(0, kids.len() as int) =~= kids);
        }
        let mut base_dir = ExportNode { name: String::new(), file: None, game: None, children };
        let ghost top = ExportNodeView {
            name: Seq::empty(),
            file: None,
            game: None,
            children: kids_export(*self, kids, inner),
        };
        proof {
            assert(encode_utf8(base_dir.name@) =~= Seq::<u8>::empty());
            assert(node_is(base_dir, top));
        }
        archive_directory_flatten(&mut base_dir, Ghost(top));
        remove_unneeded_directories(&mut base_dir, Ghost(flattened(top)));
        Some(ExportDat { header, base_dir })
    }
}

} // verus!
