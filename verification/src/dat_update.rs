//! Reading DATs into the tree: the header fields copied onto a stored DAT,
//! what a node replaced by a DAT update keeps of the file it stood for, the
//! existing child a new node takes the place of, and the check that marks
//! for re-reading every DAT whose full name under the DAT root begins with a
//! given path (its time stamp set to the largest value).

use vstd::prelude::*;
use vstd::utf8::{encode_utf8, is_char_boundary};
use crate::compare::{opt_seq, or_alt, FileHashes, HashesView};
use crate::enums::{FileType, GotStatus, ZipStructure};
use crate::patterns::str_eq;
use crate::rv_file_ordering::ChildKey;
use crate::repair_status::is_dir_type;
use crate::rv_dat::{dat_meta_lookup, is_blank, DatData, RvDat};
use crate::text::str_bytes;

verus! {

/// A node of the tree as the DAT check reads it.
pub struct DatTreeNode {
    pub file_type: FileType,
    /// The DATs found in this directory.
    pub dir_dats: Vec<RvDat>,
    /// The DAT this directory was made from, if any.
    pub dat: Option<RvDat>,
    pub children: Vec<DatTreeNode>,
}

/// The DAT reading rules.
pub struct DatUpdate;

/// The header fields of a parsed DAT that are copied onto the stored DAT.
#[derive(Debug, Clone, Default)]
pub struct DatHeader {
    pub id: Option<String>,
    pub name: Option<String>,
    pub root_dir: Option<String>,
    pub description: Option<String>,
    pub category: Option<String>,
    pub version: Option<String>,
    pub date: Option<String>,
    pub author: Option<String>,
    pub email: Option<String>,
    pub homepage: Option<String>,
    pub url: Option<String>,
    pub header: Option<String>,
    pub compression: Option<String>,
    pub merge_type: Option<String>,
    pub dir: Option<String>,
}

/// The physical facts of a node that a DAT update carries over from the node
/// it replaces.
pub struct PhysicalState {
    pub got_status: GotStatus,
    pub file_mod_time_stamp: i64,
    pub local_header_offset: Option<u64>,
    pub hashes: FileHashes,
    pub chd_version: Option<u32>,
    pub zip_struct: ZipStructure,
    /// The node's status bits.
    pub file_status: u32,
    /// Header type with the "required" bit taken off.
    pub header_type: u8,
    /// A header of `header_type` must be present.
    pub header_required: bool,
}

/// The status bits that record which hashes (and the header type) were read
/// from the file itself.
pub const PRESERVED_PHYSICAL_FLAGS: u32 = 0x400FF;

/// The header type was read from the file's own header.
pub const HEADER_FILE_TYPE_FROM_HEADER: u32 = 0x40000;

/// Mathematical value of [`PhysicalState`].
pub struct PhysicalStateView {
    pub got_status: GotStatus,
    pub file_mod_time_stamp: i64,
    pub local_header_offset: Option<u64>,
    pub hashes: HashesView,
    pub chd_version: Option<u32>,
    pub zip_struct: ZipStructure,
    pub file_status: u32,
    pub header_type: u8,
    pub header_required: bool,
}

impl View for PhysicalState {
    type V = PhysicalStateView;

    open spec fn view(&self) -> PhysicalStateView {
        PhysicalStateView {
            got_status: self.got_status,
            file_mod_time_stamp: self.file_mod_time_stamp,
            local_header_offset: self.local_header_offset,
            hashes: self.hashes@,
            chd_version: self.chd_version,
            zip_struct: self.zip_struct,
            file_status: self.file_status,
            header_type: self.header_type,
            header_required: self.header_required,
        }
    }
}

/// `n` after taking over what `e` knows of the file: nothing when the file
/// was not there; else each timestamp, offset, hash, CHD version and archive
/// structure that `e` has, the status bits of `PRESERVED_PHYSICAL_FLAGS`,
/// and the header type when `e` read it from the file.
pub open spec fn preserved_state(n: PhysicalStateView, e: PhysicalStateView) -> PhysicalStateView {
    if e.got_status == GotStatus::NotGot {
        n
    } else {
        let nh = n.hashes;
        let eh = e.hashes;
        PhysicalStateView {
            got_status: n.got_status,
            file_mod_time_stamp: if e.file_mod_time_stamp != i64::MIN {
                e.file_mod_time_stamp
            } else {
                n.file_mod_time_stamp
            },
            local_header_offset: or_alt(e.local_header_offset, n.local_header_offset),
            hashes: HashesView {
                size: or_alt(eh.size, nh.size),
                crc: or_alt(eh.crc, nh.crc),
                sha1: or_alt(eh.sha1, nh.sha1),
                md5: or_alt(eh.md5, nh.md5),
                alt_size: or_alt(eh.alt_size, nh.alt_size),
                alt_crc: or_alt(eh.alt_crc, nh.alt_crc),
                alt_sha1: or_alt(eh.alt_sha1, nh.alt_sha1),
                alt_md5: or_alt(eh.alt_md5, nh.alt_md5),
            },
            chd_version: or_alt(e.chd_version, n.chd_version),
            zip_struct: if e.zip_struct != ZipStructure::NoStructure {
                e.zip_struct
            } else {
                n.zip_struct
            },
            file_status: (n.file_status & !PRESERVED_PHYSICAL_FLAGS) | (e.file_status & PRESERVED_PHYSICAL_FLAGS),
            header_type: if e.file_status & HEADER_FILE_TYPE_FROM_HEADER != 0 {
                e.header_type
            } else {
                n.header_type
            },
            header_required: n.header_required,
        }
    }
}

/// The text of an optional value.
pub open spec fn opt_text(o: Option<String>) -> Option<Seq<char>> {
    match o {
        Some(s) => Some(s@),
        None => None,
    }
}

/// What the header gives for field `id` of a DAT read from `path`.
pub open spec fn header_value(h: DatHeader, path: Seq<char>, id: DatData) -> Option<Seq<char>> {
    match id {
        DatData::Id => opt_text(h.id),
        DatData::DatName => opt_text(h.name),
        DatData::DatRootFullName => Some(path),
        DatData::RootDir => opt_text(h.root_dir),
        DatData::Description => opt_text(h.description),
        DatData::Category => opt_text(h.category),
        DatData::Version => opt_text(h.version),
        DatData::Date => opt_text(h.date),
        DatData::Author => opt_text(h.author),
        DatData::Email => opt_text(h.email),
        DatData::HomePage => opt_text(h.homepage),
        DatData::Url => opt_text(h.url),
        DatData::Header => opt_text(h.header),
        DatData::Compression => opt_text(h.compression),
        DatData::MergeType => opt_text(h.merge_type),
        DatData::DirSetup => opt_text(h.dir),
        _ => None,
    }
}

/// A value is stored only when it is not blank.
pub open spec fn stored(v: Option<Seq<char>>) -> Option<Seq<char>> {
    match v {
        Some(s) => if is_blank(s) {
            None
        } else {
            Some(s)
        },
        None => None,
    }
}

/// The DAT's full name under the DAT root; empty when it has none.
pub open spec fn dat_full_name(d: RvDat) -> Seq<char> {
    match dat_meta_lookup(d.game_meta_data@, DatData::DatRootFullName) {
        Some(s) => s,
        None => Seq::empty(),
    }
}

/// `name` begins with `path`, byte for byte.
pub open spec fn name_has_prefix(name: Seq<char>, path: Seq<char>) -> bool {
    let n = encode_utf8(name);
    let p = encode_utf8(path);
    p.len() <= n.len() && n.subrange(0, p.len() as int) == p
}

/// Cutting `name` at the byte length of `path` falls between two characters
/// (where `path` is no longer than `name`).
pub open spec fn cut_at_boundary(name: Seq<char>, path: Seq<char>) -> bool {
    encode_utf8(path).len() <= encode_utf8(name).len() ==> is_char_boundary(
        encode_utf8(name),
        encode_utf8(path).len() as int,
    )
}

/// The DAT after the check: marked when its name begins with `path`.
pub open spec fn checked_dat(d: RvDat, path: Seq<char>) -> RvDat {
    if name_has_prefix(dat_full_name(d), path) {
        RvDat {
            game_meta_data: d.game_meta_data,
            dat_index: d.dat_index,
            status: d.status,
            time_stamp: i64::MAX,
            dat_flags: d.dat_flags,
        }
    } else {
        d
    }
}

/// Every DAT name the check reads below (and at) `t` can be cut at the
/// length of `path`.
pub open spec fn names_cut_at_boundary(t: DatTreeNode, path: Seq<char>) -> bool
    decreases t,
{
    is_dir_type(t.file_type) ==> {
        &&& forall|i: int|
            0 <= i < t.dir_dats@.len() ==> cut_at_boundary(dat_full_name(#[trigger] t.dir_dats@[i]), path)
        &&& (t.dat matches Some(d) ==> cut_at_boundary(dat_full_name(d), path))
        &&& kids_cut_at_boundary(t.children@, path)
    }
}

/// `names_cut_at_boundary` for each of `ks`.
pub open spec fn kids_cut_at_boundary(ks: Seq<DatTreeNode>, path: Seq<char>) -> bool
    decreases ks,
{
    ks.len() > 0 ==> {
        &&& names_cut_at_boundary(ks[ks.len() - 1], path)
        &&& kids_cut_at_boundary(ks.subrange(0, ks.len() - 1), path)
    }
}

/// `n` is `o` after the check with `path`: below (and at) every directory
/// each DAT is `checked_dat` of what it was; nothing else changes.
pub open spec fn dats_checked(o: DatTreeNode, n: DatTreeNode, path: Seq<char>) -> bool
    decreases o,
{
    if is_dir_type(o.file_type) {
        &&& n.file_type == o.file_type
        &&& n.dir_dats@.len() == o.dir_dats@.len()
        &&& forall|i: int|
            0 <= i < o.dir_dats@.len() ==> #[trigger] n.dir_dats@[i] == checked_dat(o.dir_dats@[i], path)
        &&& n.dat == match o.dat {
            Some(d) => Some(checked_dat(d, path)),
            None => None,
        }
        &&& kids_checked(o.children@, n.children@, path)
    } else {
        n == o
    }
}

/// `dats_checked` child by child.
pub open spec fn kids_checked(os: Seq<DatTreeNode>, ns: Seq<DatTreeNode>, path: Seq<char>) -> bool
    decreases os,
{
    &&& os.len() == ns.len()
    &&& (os.len() > 0 ==> {
        &&& dats_checked(os[os.len() - 1], ns[ns.len() - 1], path)
        &&& kids_checked(os.subrange(0, os.len() - 1), ns.subrange(0, ns.len() - 1), path)
    })
}

proof fn lemma_kids_cut_index(ks: Seq<DatTreeNode>, path: Seq<char>, j: int)
    requires
        kids_cut_at_boundary(ks, path),
        0 <= j < ks.len(),
    ensures
        names_cut_at_boundary(ks[j], path),
    decreases ks.len(),
{
    if j < ks.len() - 1 {
        lemma_kids_cut_index(ks.subrange(0, ks.len() - 1), path, j);
    }
}

/// Marks one DAT when its name begins with `dat_path`.
fn check_dat(d: &mut RvDat, dat_path: &str)
    requires
        cut_at_boundary(dat_full_name(*old(d)), dat_path@),
    ensures
        *final(d) == checked_dat(*old(d), dat_path@),
{
    let name = match d.get_data(DatData::DatRootFullName) {
        Some(s) => s,
        None => String::new(),
    };
    if DatUpdate::dat_path_matches_filter(name.as_str(), dat_path) {
        d.time_stamp = i64::MAX;
    }
}

/// The order in which the header fields are stored.
pub open spec fn field_rank(id: DatData) -> int {
    match id {
        DatData::Id => 0,
        DatData::DatName => 1,
        DatData::DatRootFullName => 2,
        DatData::RootDir => 3,
        DatData::Description => 4,
        DatData::Category => 5,
        DatData::Version => 6,
        DatData::Date => 7,
        DatData::Author => 8,
        DatData::Email => 9,
        DatData::HomePage => 10,
        DatData::Url => 11,
        DatData::Header => 12,
        DatData::Compression => 13,
        DatData::MergeType => 14,
        DatData::DirSetup => 15,
        _ => 16,
    }
}

/// The stored fields once the first `k` have been copied.
pub open spec fn filled(h: DatHeader, path: Seq<char>, k: int, id: DatData) -> Option<Seq<char>> {
    if field_rank(id) < k {
        stored(header_value(h, path, id))
    } else {
        None
    }
}

fn put_field(rv_dat: &mut RvDat, id: DatData, value: Option<String>, Ghost(h): Ghost<DatHeader>, Ghost(path): Ghost<Seq<char>>)
    requires
        field_rank(id) < 16,
        opt_text(value) == header_value(h, path, id),
        forall|x: DatData| #[trigger] dat_meta_lookup(old(rv_dat).game_meta_data@, x) == filled(h, path, field_rank(id), x),
    ensures
        forall|x: DatData| #[trigger] dat_meta_lookup(final(rv_dat).game_meta_data@, x) == filled(h, path, field_rank(id) + 1, x),
        final(rv_dat).time_stamp == old(rv_dat).time_stamp,
        final(rv_dat).dat_index == old(rv_dat).dat_index,
        final(rv_dat).status == old(rv_dat).status,
        final(rv_dat).dat_flags == old(rv_dat).dat_flags,
{
    let ghost before = rv_dat.game_meta_data@;
    rv_dat.set_data(id, value);
    assert forall|x: DatData| #[trigger] dat_meta_lookup(rv_dat.game_meta_data@, x) == filled(h, path, field_rank(id) + 1, x) by {
        assert(dat_meta_lookup(before, x) == filled(h, path, field_rank(id), x));
        if x == id {
        } else {
            assert(field_rank(x) != field_rank(id));
        }
    }
}

fn take_bytes_if_set(e: &Option<Vec<u8>>, n: &mut Option<Vec<u8>>)
    ensures
        opt_seq(*final(n)) == or_alt(opt_seq(*e), opt_seq(*old(n))),
{
    match e {
        Some(v) => {
            *n = Some(v.clone());
        },
        None => {},
    }
}

/// The child has this name and type.
pub open spec fn child_is(c: ChildKey, name: Seq<char>, file_type: FileType) -> bool {
    c.name@ == name && c.file_type == file_type
}

/// The position of the first child, from `i` on, with this name and type.
pub open spec fn first_match(cs: Seq<ChildKey>, name: Seq<char>, file_type: FileType, i: int) -> Option<int>
    decreases cs.len() - i,
{
    if i < 0 || i >= cs.len() {
        None
    } else if child_is(cs[i], name, file_type) {
        Some(i)
    } else {
        first_match(cs, name, file_type, i + 1)
    }
}

impl DatUpdate {
    /// Removes from `existing_children` the first child with this name and
    /// type, and hands it back.
    pub fn take_matching_existing_child(existing_children: &mut Vec<ChildKey>, name: &str, file_type: FileType) -> (r:
        Option<ChildKey>)
        ensures
            match first_match(old(existing_children)@, name@, file_type, 0) {
                Some(k) => r == Some(old(existing_children)@[k]) && final(existing_children)@ == old(
                    existing_children,
                )@.remove(k),
                None => r is None && final(existing_children)@ == old(existing_children)@,
            },
    {
        let ghost cs = existing_children@;
        let mut i: usize = 0;
        while i < existing_children.len()
            invariant
                existing_children@ == cs,
                cs == old(existing_children)@,
                i <= cs.len(),
                first_match(cs, name@, file_type, 0) == first_match(cs, name@, file_type, i as int),
            decreases cs.len() - i,
        {
            if str_eq(existing_children[i].name.as_str(), name) && existing_children[i].file_type == file_type {
                return Some(existing_children.remove(i));
            }
            i = i + 1;
        }
        None
    }

    /// Carries over to `new_rv` what `existing`, the node it replaces, knows
    /// of the file (see [`preserved_state`]).
    pub fn preserve_existing_physical_state(new_rv: &mut PhysicalState, existing: &PhysicalState)
        ensures
            final(new_rv)@ == preserved_state(old(new_rv)@, existing@),
    {
        if existing.got_status == GotStatus::NotGot {
            return;
        }
        if existing.file_mod_time_stamp != i64::MIN {
            new_rv.file_mod_time_stamp = existing.file_mod_time_stamp;
        }
        if existing.local_header_offset.is_some() {
            new_rv.local_header_offset = existing.local_header_offset;
        }
        if existing.hashes.size.is_some() {
            new_rv.hashes.size = existing.hashes.size;
        }
        take_bytes_if_set(&existing.hashes.crc, &mut new_rv.hashes.crc);
        take_bytes_if_set(&existing.hashes.sha1, &mut new_rv.hashes.sha1);
        take_bytes_if_set(&existing.hashes.md5, &mut new_rv.hashes.md5);
        if existing.hashes.alt_size.is_some() {
            new_rv.hashes.alt_size = existing.hashes.alt_size;
        }
        take_bytes_if_set(&existing.hashes.alt_crc, &mut new_rv.hashes.alt_crc);
        take_bytes_if_set(&existing.hashes.alt_sha1, &mut new_rv.hashes.alt_sha1);
        take_bytes_if_set(&existing.hashes.alt_md5, &mut new_rv.hashes.alt_md5);
        if existing.chd_version.is_some() {
            new_rv.chd_version = existing.chd_version;
        }
        if existing.zip_struct != ZipStructure::NoStructure {
            new_rv.zip_struct = existing.zip_struct;
        }
        new_rv.file_status = (new_rv.file_status & !PRESERVED_PHYSICAL_FLAGS) | (existing.file_status
            & PRESERVED_PHYSICAL_FLAGS);
        if existing.file_status & HEADER_FILE_TYPE_FROM_HEADER != 0 {
            new_rv.header_type = existing.header_type;
        }
    }

    /// Replaces the DAT's header fields by those of the parsed header and of
    /// the path it was read from (blank values are not stored), and takes
    /// `modified_secs`, the DAT file's modification time, as its time stamp.
    pub fn populate_rv_dat_from_header(rv_dat: &mut RvDat, dat_header: &DatHeader, dat_path: &str, modified_secs: i64)
        ensures
            forall|id: DatData| #[trigger] dat_meta_lookup(final(rv_dat).game_meta_data@, id) == stored(
                header_value(*dat_header, dat_path@, id),
            ),
            final(rv_dat).time_stamp == modified_secs,
            final(rv_dat).dat_index == old(rv_dat).dat_index,
            final(rv_dat).status == old(rv_dat).status,
            final(rv_dat).dat_flags == old(rv_dat).dat_flags,
    {
        rv_dat.game_meta_data.clear();
        let h = dat_header;
        let ghost g = *dat_header;
        let ghost p = dat_path@;
        put_field(rv_dat, DatData::Id, h.id.clone(), Ghost(g), Ghost(p));
        put_field(rv_dat, DatData::DatName, h.name.clone(), Ghost(g), Ghost(p));
        put_field(rv_dat, DatData::DatRootFullName, Some(dat_path.to_string()), Ghost(g), Ghost(p));
        put_field(rv_dat, DatData::RootDir, h.root_dir.clone(), Ghost(g), Ghost(p));
        put_field(rv_dat, DatData::Description, h.description.clone(), Ghost(g), Ghost(p));
        put_field(rv_dat, DatData::Category, h.category.clone(), Ghost(g), Ghost(p));
        put_field(rv_dat, DatData::Version, h.version.clone(), Ghost(g), Ghost(p));
        put_field(rv_dat, DatData::Date, h.date.clone(), Ghost(g), Ghost(p));
        put_field(rv_dat, DatData::Author, h.author.clone(), Ghost(g), Ghost(p));
        put_field(rv_dat, DatData::Email, h.email.clone(), Ghost(g), Ghost(p));
        put_field(rv_dat, DatData::HomePage, h.homepage.clone(), Ghost(g), Ghost(p));
        put_field(rv_dat, DatData::Url, h.url.clone(), Ghost(g), Ghost(p));
        put_field(rv_dat, DatData::Header, h.header.clone(), Ghost(g), Ghost(p));
        put_field(rv_dat, DatData::Compression, h.compression.clone(), Ghost(g), Ghost(p));
        put_field(rv_dat, DatData::MergeType, h.merge_type.clone(), Ghost(g), Ghost(p));
        put_field(rv_dat, DatData::DirSetup, h.dir.clone(), Ghost(g), Ghost(p));
        assert forall|id: DatData| #[trigger] dat_meta_lookup(rv_dat.game_meta_data@, id) == stored(
            header_value(g, p, id),
        ) by {
            assert(filled(g, p, 16, id) == dat_meta_lookup(rv_dat.game_meta_data@, id));
        }
        rv_dat.time_stamp = modified_secs;
    }

    /// The DAT's full name begins with `dat_path`. Names are cut at the
    /// byte length of `dat_path`, which must fall between two characters.
    pub fn dat_path_matches_filter(dat_full_name: &str, dat_path: &str) -> (r: bool)
        requires
            cut_at_boundary(dat_full_name@, dat_path@),
        ensures
            r == name_has_prefix(dat_full_name@, dat_path@),
    {
        let f = str_bytes(dat_full_name);
        let p = str_bytes(dat_path);
        if p.len() > f.len() {
            return false;
        }
        let mut i: usize = 0;
        while i < p.len()
            invariant
                i <= p@.len(),
                p@.len() <= f@.len(),
                f@ == encode_utf8(dat_full_name@),
                p@ == encode_utf8(dat_path@),
                forall|j: int| 0 <= j < i ==> f@[j] == p@[j],
            decreases p@.len() - i,
        {
            if f[i] != p[i] {
                assert(f@.subrange(0, p@.len() as int)[i as int] != p@[i as int]);
                return false;
            }
            i = i + 1;
        }
        assert(f@.subrange(0, p@.len() as int) =~= p@);
        true
    }

    /// Marks, below (and at) `db_file`, every DAT whose full name begins
    /// with `dat_path`; only directories are looked into.
    pub fn check_all_dats(db_file: &mut DatTreeNode, dat_path: &str)
        requires
            names_cut_at_boundary(*old(db_file), dat_path@),
        ensures
            dats_checked(*old(db_file), *final(db_file), dat_path@),
        decreases *old(db_file),
    {
        if !(db_file.file_type == FileType::Dir || db_file.file_type == FileType::Zip
            || db_file.file_type == FileType::SevenZip) {
            return;
        }
        let ghost o = *db_file;
        let mut i: usize = 0;
        while i < db_file.dir_dats.len()
            invariant
                o == *old(db_file),
                is_dir_type(o.file_type),
                names_cut_at_boundary(o, dat_path@),
                db_file.file_type == o.file_type,
                db_file.dat == o.dat,
                db_file.children == o.children,
                db_file.dir_dats@.len() == o.dir_dats@.len(),
                i <= o.dir_dats@.len(),
                forall|j: int| 0 <= j < i ==> #[trigger] db_file.dir_dats@[j] == checked_dat(o.dir_dats@[j], dat_path@),
                forall|j: int| i <= j < o.dir_dats@.len() ==> #[trigger] db_file.dir_dats@[j] == o.dir_dats@[j],
            decreases o.dir_dats@.len() - i,
        {
            let mut d = RvDat::new();
            db_file.dir_dats.set_and_swap(i, &mut d);
            proof {
                assert(d == o.dir_dats@[i as int]);
            }
            check_dat(&mut d, dat_path);
            db_file.dir_dats.set_and_swap(i, &mut d);
            i = i + 1;
        }
        match &mut db_file.dat {
            Some(d) => check_dat(d, dat_path),
            None => {},
        }
        let ghost kids = o.children@;
        let ghost top = *db_file;
        assert(kids.subrange(0, 0) =~= Seq::<DatTreeNode>::empty());
        assert(db_file.children@.subrange(0, 0) =~= Seq::<DatTreeNode>::empty());
        let mut k: usize = 0;
        while k < db_file.children.len()
            invariant
                o == *old(db_file),
                is_dir_type(o.file_type),
                names_cut_at_boundary(o, dat_path@),
                kids == o.children@,
                db_file.file_type == top.file_type,
                db_file.dir_dats == top.dir_dats,
                db_file.dat == top.dat,
                db_file.children@.len() == kids.len(),
                k <= kids.len(),
                forall|j: int| k <= j < kids.len() ==> #[trigger] db_file.children@[j] == kids[j],
                kids_checked(kids.subrange(0, k as int), db_file.children@.subrange(0, k as int), dat_path@),
            decreases kids.len() - k,
        {
            let ghost done = db_file.children@;
            let mut child = DatTreeNode {
                file_type: FileType::File,
                dir_dats: Vec::new(),
                dat: None,
                children: Vec::new(),
            };
            db_file.children.set_and_swap(k, &mut child);
            let ghost c0 = child;
            proof {
                assert(c0 == kids[k as int]);
                lemma_kids_cut_index(kids, dat_path@, k as int);
                assert(decreases_to!(o => o.children));
                assert(decreases_to!(o.children => o.children@));
                assert(decreases_to!(o.children@ => o.children@[k as int]));
                assert(decreases_to!(*old(db_file) => child));
            }
            Self::check_all_dats(&mut child, dat_path);
            let ghost c1 = child;
            db_file.children.set_and_swap(k, &mut child);
            proof {
                let os = kids.subrange(0, k + 1);
                let ns = db_file.children@.subrange(0, k + 1);
                assert(os.subrange(0, os.len() - 1) =~= kids.subrange(0, k as int));
                assert(ns.subrange(0, ns.len() - 1) =~= done.subrange(0, k as int));
                assert(ns[ns.len() - 1] == c1);
                assert(os[os.len() - 1] == c0);
            }
            k = k + 1;
        }
        proof {
            assert(kids.subrange(0, kids.len() as int) =~= kids);
            assert(db_file.children@.subrange(0, kids.len() as int) =~= db_file.children@);
        }
    }
}

} // verus!
