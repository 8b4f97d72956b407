//! Whether a node is to be stored as plain files rather than in archives: the
//! global setting, the rule for its path, or the compression named by the
//! nearest DAT above it.

use vstd::prelude::*;
use vstd::utf8::encode_utf8;
use crate::enums::FileType;
use crate::text::{ascii_ci_eq, eq_ignore_ascii_case, str_bytes};

verus! {

/// The DAT information of one node on the way from a node up to the root:
/// the compression named by the node's own DAT, when it has one (`Some(None)`
/// for a DAT that names none), and the compressions named by the DATs of
/// the directory.
#[derive(Debug)]
pub struct AncestorDats {
    pub dat_compression: Option<Option<String>>,
    pub dir_dat_compressions: Vec<Option<String>>,
}

/// The bytes of "fileonly".
pub open spec fn fileonly_bytes() -> Seq<u8> {
    seq![0x66u8, 0x69u8, 0x6cu8, 0x65u8, 0x6fu8, 0x6eu8, 0x6cu8, 0x79u8]
}

/// The text is "fileonly", up to ASCII case.
pub open spec fn names_fileonly(v: Seq<char>) -> bool {
    ascii_ci_eq(encode_utf8(v), fileonly_bytes())
}

/// Some directory DAT names the "fileonly" compression.
pub open spec fn dir_dats_name_fileonly(ds: Seq<Option<String>>) -> bool {
    exists|i: int| 0 <= i < ds.len() && #[trigger] ds[i] is Some && names_fileonly(ds[i]->0@)
}

/// The verdict of the nearest node (from the start of `chain`) that has a
/// DAT, or whose directory DATs name "fileonly": the DAT's compression is
/// "fileonly", or the directory DATs name it; no such node gives false.
pub open spec fn chain_file_only(chain: Seq<AncestorDats>) -> bool
    decreases chain.len(),
{
    if chain.len() == 0 {
        false
    } else {
        match chain[0].dat_compression {
            Some(c) => match c {
                Some(v) => names_fileonly(v@),
                None => false,
            },
            None => if dir_dats_name_fileonly(chain[0].dir_dat_compressions@) {
                true
            } else {
                chain_file_only(chain.drop_first())
            },
        }
    }
}

fn is_fileonly_name(v: &str) -> (r: bool)
    ensures
        r == names_fileonly(v@),
{
    let target: [u8; 8] = [0x66, 0x69, 0x6c, 0x65, 0x6f, 0x6e, 0x6c, 0x79];
    assert(target@ =~= fileonly_bytes());
    eq_ignore_ascii_case(str_bytes(v), &target)
}

/// Whether a node is stored as plain files: when the global setting says
/// so, when the rule for its path has the `FileOnly` compression, or when
/// the nearest DAT on the way up from it (`chain` starts at the node) names
/// the "fileonly" compression.
pub fn is_file_only(files_only: bool, rule_compression: FileType, chain: &[AncestorDats]) -> (r: bool)
    ensures
        r == (files_only || rule_compression == FileType::FileOnly || chain_file_only(chain@)),
{
    if files_only {
        return true;
    }
    if rule_compression == FileType::FileOnly {
        return true;
    }
    let mut i: usize = 0;
    assert(chain@.skip(0) =~= chain@);
    while i < chain.len()
        invariant
            !files_only,
            rule_compression != FileType::FileOnly,
            i <= chain@.len(),
            chain_file_only(chain@) == chain_file_only(chain@.skip(i as int)),
        decreases chain@.len() - i,
    {
        let link = &chain[i];
        let ghost rest = chain@.skip(i as int);
        assert(rest[0] == chain@[i as int]);
        assert(rest.drop_first() =~= chain@.skip(i + 1));
        match &link.dat_compression {
            Some(c) => {
                return match c {
                    Some(v) => is_fileonly_name(v.as_str()),
                    None => false,
                };
            },
            None => {},
        }
        let ds = &link.dir_dat_compressions;
        let mut k: usize = 0;
        while k < ds.len()
            invariant
                !files_only,
                rule_compression != FileType::FileOnly,
                i < chain@.len(),
                rest == chain@.skip(i as int),
                rest[0] == chain@[i as int],
                chain_file_only(chain@) == chain_file_only(rest),
                chain@[i as int].dat_compression is None,
                ds@ == chain@[i as int].dir_dat_compressions@,
                k <= ds@.len(),
                forall|j: int| 0 <= j < k ==> !(#[trigger] ds@[j] is Some && names_fileonly(ds@[j]->0@)),
            decreases ds@.len() - k,
        {
            match &ds[k] {
                Some(v) => {
                    if is_fileonly_name(v.as_str()) {
                        assert(ds@[k as int] is Some && names_fileonly(ds@[k as int]->0@));
                        assert(dir_dats_name_fileonly(ds@));
                        return true;
                    }
                },
                None => {},
            }
            k = k + 1;
        }
        assert(!dir_dats_name_fileonly(ds@));
        i = i + 1;
    }
    assert(chain@.skip(i as int).len() == 0);
    false
}

} // verus!
