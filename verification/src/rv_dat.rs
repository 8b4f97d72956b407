//! A DAT bound to a directory: its header metadata, index, update status,
//! time stamp and flags.

use vstd::prelude::*;
use vstd::utf8::encode_utf8;
use crate::text::{str_bytes, str_trim, trim_chars};

verus! {

/// Whether a DAT is kept or removed on the next update.
#[derive(Debug, Clone, Copy, PartialEq, Eq, Structural)]
pub enum DatUpdateStatus {
    Delete,
    Correct,
}

/// Flags of a DAT, as a set of bits: 1 auto-added directory, 2 multi-DAT
/// override, 4 multiple DATs in the directory, 8 use description as directory
/// name, 16 single archive, 32 use id for name.
#[derive(Debug, Clone, Copy, PartialEq, Eq, Structural, PartialOrd, Ord, Hash)]
pub struct DatFlags {
    pub bits: u8,
}

impl DatFlags {
    /// No flag set.
    pub fn empty() -> (r: Self)
        ensures
            r.bits == 0,
    {
        DatFlags { bits: 0 }
    }

    /// The flags with exactly these bits.
    pub fn from_bits_retain(bits: u8) -> (r: Self)
        ensures
            r.bits == bits,
    {
        DatFlags { bits }
    }

    /// True when every bit of `other` is set.
    pub fn contains(&self, other: DatFlags) -> (res: bool)
        ensures
            res == (self.bits & other.bits == other.bits),
    {
        self.bits & other.bits == other.bits
    }
}

/// Header fields of a DAT.
#[derive(Debug, Clone, Copy, PartialEq, Eq, Structural, Hash)]
pub enum DatData {
    Id,
    DatName,
    DatRootFullName,
    RootDir,
    Description,
    Category,
    Version,
    Date,
    Author,
    Email,
    HomePage,
    Url,
    FileType,
    MergeType,
    SuperDat,
    DirSetup,
    Header,
    SubDirType,
    Compression,
}

/// One header field and its value.
#[derive(Debug, Clone)]
pub struct DatMetaData {
    pub id: DatData,
    pub value: String,
}

/// A DAT as stored in the tree.
#[derive(Debug, Clone)]
pub struct RvDat {
    pub game_meta_data: Vec<DatMetaData>,
    pub dat_index: i32,
    pub status: DatUpdateStatus,
    pub time_stamp: i64,
    pub dat_flags: DatFlags,
}

/// Value of the first entry for `id`, if any.
pub open spec fn dat_meta_lookup(s: Seq<DatMetaData>, id: DatData) -> Option<Seq<char>>
    decreases s.len(),
{
    if s.len() == 0 {
        None
    } else if s[0].id == id {
        Some(s[0].value@)
    } else {
        dat_meta_lookup(s.drop_first(), id)
    }
}

/// True when the text is empty or only white space.
pub open spec fn is_blank(s: Seq<char>) -> bool {
    trim_chars(s).len() == 0
}

proof fn lemma_dat_lookup_prefix(s: Seq<DatMetaData>, id: DatData, i: int)
    requires
        0 <= i <= s.len(),
        forall|j: int| 0 <= j < i ==> (#[trigger] s[j]).id != id,
    ensures
        dat_meta_lookup(s, id) == dat_meta_lookup(s.skip(i), id),
    decreases i,
{
    if i > 0 {
        lemma_dat_lookup_prefix(s.drop_first(), id, i - 1);
        assert(s.drop_first().skip(i - 1) =~= s.skip(i));
    } else {
        assert(s.skip(0) =~= s);
    }
}

proof fn lemma_dat_lookup_update(s: Seq<DatMetaData>, id: DatData, i: int, m: DatMetaData)
    requires
        0 <= i < s.len(),
        forall|j: int| 0 <= j < i ==> (#[trigger] s[j]).id != id,
        s[i].id == id,
        m.id == id,
    ensures
        forall|id2: DatData| #[trigger] dat_meta_lookup(s.update(i, m), id2) == (if id2 == id {
            Some(m.value@)
        } else {
            dat_meta_lookup(s, id2)
        }),
    decreases i,
{
    let n = s.update(i, m);
    if i > 0 {
        lemma_dat_lookup_update(s.drop_first(), id, i - 1, m);
        assert(n.drop_first() =~= s.drop_first().update(i - 1, m));
        assert(n[0] == s[0]);
        assert(s[0].id != id);
    } else {
        assert(n.drop_first() =~= s.drop_first());
        assert(n[0] == m);
    }
    assert forall|id2: DatData| #[trigger] dat_meta_lookup(n, id2) == (if id2 == id {
        Some(m.value@)
    } else {
        dat_meta_lookup(s, id2)
    }) by {
        if i > 0 {
            assert(dat_meta_lookup(s.drop_first().update(i - 1, m), id2) == (if id2 == id {
                Some(m.value@)
            } else {
                dat_meta_lookup(s.drop_first(), id2)
            }));
        }
    }
}

proof fn lemma_dat_lookup_push(s: Seq<DatMetaData>, m: DatMetaData)
    requires
        dat_meta_lookup(s, m.id) is None,
    ensures
        forall|id2: DatData| #[trigger] dat_meta_lookup(s.push(m), id2) == (if id2 == m.id {
            Some(m.value@)
        } else {
            dat_meta_lookup(s, id2)
        }),
    decreases s.len(),
{
    let n = s.push(m);
    if s.len() > 0 {
        lemma_dat_lookup_push(s.drop_first(), m);
        assert(n.drop_first() =~= s.drop_first().push(m));
        assert(n[0] == s[0]);
    } else {
        assert(n.drop_first() =~= s);
        assert(n[0] == m);
    }
    assert forall|id2: DatData| #[trigger] dat_meta_lookup(n, id2) == (if id2 == m.id {
        Some(m.value@)
    } else {
        dat_meta_lookup(s, id2)
    }) by {
        if s.len() > 0 {
            assert(dat_meta_lookup(s.drop_first().push(m), id2) == (if id2 == m.id {
                Some(m.value@)
            } else {
                dat_meta_lookup(s.drop_first(), id2)
            }));
        }
    }
}

/// The entries as (field, text) pairs.
pub open spec fn dat_meta_view(s: Seq<DatMetaData>) -> Seq<(DatData, Seq<char>)> {
    s.map_values(|m: DatMetaData| (m.id, m.value@))
}

/// The position of the first entry, from `i` on, for field `id`.
pub open spec fn first_dat_meta(s: Seq<DatMetaData>, id: DatData, i: int) -> Option<int>
    decreases s.len() - i,
{
    if i < 0 || i >= s.len() {
        None
    } else if s[i].id == id {
        Some(i)
    } else {
        first_dat_meta(s, id, i + 1)
    }
}

/// The entries after field `id` is set to `v`: the first entry for it
/// replaced in place, or a new entry appended last.
pub open spec fn dat_meta_set(s: Seq<DatMetaData>, id: DatData, v: Seq<char>) -> Seq<(DatData, Seq<char>)> {
    match first_dat_meta(s, id, 0) {
        Some(k) => dat_meta_view(s).update(k, (id, v)),
        None => dat_meta_view(s).push((id, v)),
    }
}

fn find_dat_meta(s: &Vec<DatMetaData>, id: DatData) -> (res: Option<usize>)
    ensures
        match res {
            Some(i) => first_dat_meta(s@, id, 0) == Some(i as int),
            None => first_dat_meta(s@, id, 0) is None,
        },
        res is None ==> dat_meta_lookup(s@, id) is None,
        res matches Some(i) ==> i < s@.len() && s@[i as int].id == id && (forall|j: int|
            0 <= j < i ==> (#[trigger] s@[j]).id != id) && dat_meta_lookup(s@, id) == Some(
            s@[i as int].value@,
        ),
{
    let mut i: usize = 0;
    while i < s.len()
        invariant
            i <= s@.len(),
            first_dat_meta(s@, id, 0) == first_dat_meta(s@, id, i as int),
            forall|j: int| 0 <= j < i ==> (#[trigger] s@[j]).id != id,
        decreases s@.len() - i,
    {
        if s[i].id == id {
            proof {
                lemma_dat_lookup_prefix(s@, id, i as int);
            }
            return Some(i);
        }
        i = i + 1;
    }
    proof {
        lemma_dat_lookup_prefix(s@, id, i as int);
    }
    None
}

fn is_blank_str(s: &str) -> (res: bool)
    ensures
        res == is_blank(s@),
{
    str_bytes(str_trim(s)).len() == 0
}

impl RvDat {
    /// An empty DAT: no metadata, index -1, status `Correct`, time stamp 0, no flags.
    pub fn new() -> (r: Self)
        ensures
            r.game_meta_data@.len() == 0,
            r.dat_index == -1,
            r.status == DatUpdateStatus::Correct,
            r.time_stamp == 0,
            r.dat_flags.bits == 0,
    {
        RvDat {
            game_meta_data: Vec::new(),
            dat_index: -1,
            status: DatUpdateStatus::Correct,
            time_stamp: 0,
            dat_flags: DatFlags::empty(),
        }
    }

    /// Sets the value of header field `id`; a missing or blank value changes nothing.
    pub fn set_data(&mut self, id: DatData, value: Option<String>)
        ensures
            final(self).dat_index == old(self).dat_index,
            final(self).status == old(self).status,
            final(self).time_stamp == old(self).time_stamp,
            final(self).dat_flags == old(self).dat_flags,
            (value is None || is_blank(value.unwrap()@)) ==> final(self).game_meta_data@ == old(
                self,
            ).game_meta_data@,
            value is Some && !is_blank(value.unwrap()@) ==> {
                &&& forall|id2: DatData| #[trigger] dat_meta_lookup(final(self).game_meta_data@, id2) == (
                if id2 == id {
                    Some(value.unwrap()@)
                } else {
                    dat_meta_lookup(old(self).game_meta_data@, id2)
                })
                &&& final(self).game_meta_data@.len() == old(self).game_meta_data@.len() + (
                if dat_meta_lookup(old(self).game_meta_data@, id) is Some {
                    0int
                } else {
                    1int
                })
                &&& dat_meta_view(final(self).game_meta_data@) == dat_meta_set(
                    old(self).game_meta_data@,
                    id,
                    value.unwrap()@,
                )
            },
    {
        if let Some(val) = value {
            if is_blank_str(val.as_str()) {
                return;
            }
            let ghost vv = val@;
            let ghost old_s = self.game_meta_data@;
            match find_dat_meta(&self.game_meta_data, id) {
                Some(i) => {
                    let mut entry = DatMetaData { id, value: val };
                    self.game_meta_data.set_and_swap(i, &mut entry);
                    proof {
                        lemma_dat_lookup_update(old_s, id, i as int, self.game_meta_data@[i as int]);
                        assert(dat_meta_view(self.game_meta_data@) =~= dat_meta_view(old_s).update(i as int, (id, vv)));
                    }
                },
                None => {
                    self.game_meta_data.push(DatMetaData { id, value: val });
                    proof {
                        lemma_dat_lookup_push(old_s, self.game_meta_data@.last());
                        assert(dat_meta_view(self.game_meta_data@) =~= dat_meta_view(old_s).push((id, vv)));
                    }
                },
            }
        }
    }

    /// Value of header field `id`, if set.
    pub fn get_data(&self, id: DatData) -> (res: Option<String>)
        ensures
            match res {
                Some(v) => dat_meta_lookup(self.game_meta_data@, id) == Some(v@),
                None => dat_meta_lookup(self.game_meta_data@, id) is None,
            },
    {
        match find_dat_meta(&self.game_meta_data, id) {
            Some(i) => Some(self.game_meta_data[i].value.clone()),
            None => None,
        }
    }

    /// True when every bit of `flag` is set on this DAT.
    pub fn flag(&self, flag: DatFlags) -> (res: bool)
        ensures
            res == (self.dat_flags.bits & flag.bits == flag.bits),
    {
        self.dat_flags.contains(flag)
    }
}

/// After a non-blank value is set for a header field, reading that field gives
/// it back, and reading any other field gives what it gave before.
pub proof fn law_dat_set_then_get(before: RvDat, after: RvDat, id: DatData, v: Seq<char>, other: DatData)
    requires
        !is_blank(v),
        other != id,
        forall|id2: DatData| #[trigger] dat_meta_lookup(after.game_meta_data@, id2) == (if id2 == id {
            Some(v)
        } else {
            dat_meta_lookup(before.game_meta_data@, id2)
        }),
    ensures
        dat_meta_lookup(after.game_meta_data@, id) == Some(v),
        dat_meta_lookup(after.game_meta_data@, other) == dat_meta_lookup(before.game_meta_data@, other),
{
}

} // verus!
