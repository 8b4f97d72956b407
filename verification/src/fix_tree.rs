//! The walks that gather the files the fix finder works on: the present and
//! the missing files of the checked rows, all present files, and all files a
//! DAT lists. Each file is named by the path of child positions from the
//! root of the walk.

use vstd::prelude::*;
use crate::enums::{DatStatus, FileType, GotStatus};
use crate::find_fixes::{FindFixes, FixNode, tree_selected};

verus! {

/// A node of the tree with the fix finder's view of it.
pub struct FixTree {
    pub file_type: FileType,
    pub node: FixNode,
    pub children: Vec<FixTree>,
}

/// Which files a walk gathers.
#[derive(Debug, Clone, Copy, PartialEq, Eq, Structural)]
pub enum Gather {
    /// Present (or corrupt) files of checked rows.
    SelectedGot,
    /// Missing files of checked rows that a DAT lists.
    SelectedMissing,
    /// All present (or corrupt) files.
    AllGot,
    /// All files that a DAT lists (collected, merged, no-dump or MIA).
    AllDat,
}

/// Directories and archives.
pub open spec fn is_dir_node(t: FileType) -> bool {
    t == FileType::Dir || t == FileType::Zip || t == FileType::SevenZip
}

/// The node is one the walk gathers.
pub open spec fn gathered(g: Gather, t: FixTree) -> bool {
    let n = t.node;
    let present = n.got_status == GotStatus::Got || n.got_status == GotStatus::Corrupt;
    !is_dir_node(t.file_type) && match g {
        Gather::SelectedGot => tree_selected(n.tree_checked) && present,
        Gather::SelectedMissing => tree_selected(n.tree_checked) && n.got_status == GotStatus::NotGot
            && n.dat_status != DatStatus::NotInDat && n.dat_status != DatStatus::InToSort,
        Gather::AllGot => present,
        Gather::AllDat => n.dat_status == DatStatus::InDatCollect || n.dat_status == DatStatus::InDatMIA
            || n.dat_status == DatStatus::InDatMerged || n.dat_status == DatStatus::InDatNoDump,
    }
}

/// The paths a walk from `t` (reached by `prefix`) gathers, depth first.
pub open spec fn gathered_paths(g: Gather, t: FixTree, prefix: Seq<usize>) -> Seq<Seq<usize>>
    decreases t, 1nat,
{
    (if gathered(g, t) {
        seq![prefix]
    } else {
        Seq::empty()
    }) + if is_dir_node(t.file_type) {
        gathered_upto(g, t.children@, prefix, t.children@.len())
    } else {
        Seq::empty()
    }
}

/// What the walk gathers below the first `k` children.
pub open spec fn gathered_upto(g: Gather, kids: Seq<FixTree>, prefix: Seq<usize>, k: nat) -> Seq<Seq<usize>>
    decreases kids, k,
{
    if k == 0 || k > kids.len() {
        Seq::empty()
    } else {
        let j = (k - 1) as nat;
        gathered_upto(g, kids, prefix, j) + gathered_paths(g, kids[j as int], prefix.push(j as usize))
    }
}

/// The paths, as sequences.
pub open spec fn path_views(s: Seq<Vec<usize>>) -> Seq<Seq<usize>> {
    s.map_values(|v: Vec<usize>| v@)
}

fn with_index(prefix: &Vec<usize>, i: usize) -> (r: Vec<usize>)
    ensures
        r@ == prefix@.push(i),
{
    let mut r = prefix.clone();
    r.push(i);
    r
}

fn gathers(g: Gather, t: &FixTree) -> (r: bool)
    ensures
        r == gathered(g, *t),
{
    let n = &t.node;
    if t.file_type == FileType::Dir || t.file_type == FileType::Zip || t.file_type == FileType::SevenZip {
        return false;
    }
    let selected = match n.tree_checked {
        crate::enums::TreeSelect::Selected | crate::enums::TreeSelect::Locked => true,
        _ => false,
    };
    let present = match n.got_status {
        GotStatus::Got | GotStatus::Corrupt => true,
        _ => false,
    };
    match g {
        Gather::SelectedGot => selected && present,
        Gather::SelectedMissing => selected && n.got_status == GotStatus::NotGot && !(n.dat_status
            == DatStatus::NotInDat || n.dat_status == DatStatus::InToSort),
        Gather::AllGot => present,
        Gather::AllDat => match n.dat_status {
            DatStatus::InDatCollect | DatStatus::InDatMIA | DatStatus::InDatMerged | DatStatus::InDatNoDump => true,
            _ => false,
        },
    }
}

/// Appends the paths a walk from `t` gathers.
fn gather_paths(g: Gather, t: &FixTree, prefix: &Vec<usize>, out: &mut Vec<Vec<usize>>)
    ensures
        path_views(final(out)@) == path_views(old(out)@) + gathered_paths(g, *t, prefix@),
    decreases *t,
{
    let ghost start = path_views(out@);
    if gathers(g, t) {
        out.push(prefix.clone());
    }
    let ghost mid = path_views(out@);
    assert(mid =~= start + (if gathered(g, *t) {
        seq![prefix@]
    } else {
        Seq::<Seq<usize>>::empty()
    }));
    if t.file_type == FileType::Dir || t.file_type == FileType::Zip || t.file_type == FileType::SevenZip {
        assert(path_views(out@) =~= mid + gathered_upto(g, t.children@, prefix@, 0));
        let mut i: usize = 0;
        while i < t.children.len()
            invariant
                i <= t.children@.len(),
                path_views(out@) == mid + gathered_upto(g, t.children@, prefix@, i as nat),
            decreases t.children@.len() - i,
        {
            let here = with_index(prefix, i);
            proof {
                assert(decreases_to!(*t => t.children));
            }
            gather_paths(g, &t.children[i], &here, out);
            assert(path_views(out@) =~= mid + gathered_upto(g, t.children@, prefix@, (i + 1) as nat));
            i = i + 1;
        }
        assert(path_views(out@) =~= start + gathered_paths(g, *t, prefix@));
    } else {
        assert(path_views(out@) =~= start + gathered_paths(g, *t, prefix@));
    }
}

impl FindFixes {
    /// Appends the present and the missing files of the checked rows below
    /// (and at) `node`.
    pub fn get_selected_files(node: &FixTree, got_files: &mut Vec<Vec<usize>>, missing_files: &mut Vec<Vec<usize>>)
        ensures
            path_views(final(got_files)@) == path_views(old(got_files)@) + gathered_paths(
                Gather::SelectedGot,
                *node,
                Seq::empty(),
            ),
            path_views(final(missing_files)@) == path_views(old(missing_files)@) + gathered_paths(
                Gather::SelectedMissing,
                *node,
                Seq::empty(),
            ),
    {
        let root: Vec<usize> = Vec::new();
        gather_paths(Gather::SelectedGot, node, &root, got_files);
        gather_paths(Gather::SelectedMissing, node, &root, missing_files);
    }

    /// Appends all present files below (and at) `node`.
    pub fn get_all_got_files(node: &FixTree, got_files: &mut Vec<Vec<usize>>)
        ensures
            path_views(final(got_files)@) == path_views(old(got_files)@) + gathered_paths(
                Gather::AllGot,
                *node,
                Seq::empty(),
            ),
    {
        let root: Vec<usize> = Vec::new();
        gather_paths(Gather::AllGot, node, &root, got_files);
    }

    /// Appends all files a DAT lists below (and at) `node`.
    pub fn get_all_dat_files(node: &FixTree, dat_files: &mut Vec<Vec<usize>>)
        ensures
            path_views(final(dat_files)@) == path_views(old(dat_files)@) + gathered_paths(
                Gather::AllDat,
                *node,
                Seq::empty(),
            ),
    {
        let root: Vec<usize> = Vec::new();
        gather_paths(Gather::AllDat, node, &root, dat_files);
    }
}

/// The position of the first path in `all` equal to `p`, if any.
pub open spec fn first_path_index(all: Seq<Seq<usize>>, p: Seq<usize>, j: int) -> Option<int>
    decreases all.len() - j,
{
    if j < 0 || j >= all.len() {
        None
    } else if all[j] == p {
        Some(j)
    } else {
        first_path_index(all, p, j + 1)
    }
}

fn same_path(a: &Vec<usize>, b: &Vec<usize>) -> (r: bool)
    ensures
        r == (a@ == b@),
{
    if a.len() != b.len() {
        return false;
    }
    let mut i: usize = 0;
    while i < a.len()
        invariant
            i <= a@.len(),
            a@.len() == b@.len(),
            forall|k: int| 0 <= k < i ==> a@[k] == b@[k],
        decreases a@.len() - i,
    {
        if a[i] != b[i] {
            return false;
        }
        i = i + 1;
    }
    assert(a@ =~= b@);
    true
}

impl FindFixes {
    /// For each selected present file, its position among all present files
    /// (both given as paths of child positions from the root, as the walks
    /// above give them): the first equal path, or `None`.
    pub fn got_all_index(got_files: &[Vec<usize>], all_got_files: &[Vec<usize>]) -> (r: Vec<Option<usize>>)
        ensures
            r@.len() == got_files@.len(),
            forall|i: int|
                0 <= i < r@.len() ==> #[trigger] r@[i] == match first_path_index(
                    path_views(all_got_files@),
                    got_files@[i]@,
                    0,
                ) {
                    Some(j) => Some(j as usize),
                    None => None::<usize>,
                },
    {
        let mut out: Vec<Option<usize>> = Vec::new();
        let mut i: usize = 0;
        while i < got_files.len()
            invariant
                i <= got_files@.len(),
                out@.len() == i,
                forall|k: int|
                    0 <= k < i ==> #[trigger] out@[k] == match first_path_index(
                        path_views(all_got_files@),
                        got_files@[k]@,
                        0,
                    ) {
                        Some(j) => Some(j as usize),
                        None => None::<usize>,
                    },
            decreases got_files@.len() - i,
        {
            let ghost all = path_views(all_got_files@);
            let ghost p = got_files@[i as int]@;
            let mut j: usize = 0;
            let mut found: Option<usize> = None;
            while j < all_got_files.len() && found.is_none()
                invariant
                    i < got_files@.len(),
                    j <= all_got_files@.len(),
                    all == path_views(all_got_files@),
                    all.len() == all_got_files@.len(),
                    p == got_files@[i as int]@,
                    found is None ==> first_path_index(all, p, 0) == first_path_index(all, p, j as int),
                    found matches Some(f) ==> f < all.len() && first_path_index(all, p, 0) == Some(f as int),
                decreases all_got_files@.len() - j + (if found is None { 1int } else { 0int }),
            {
                assert(all[j as int] == all_got_files@[j as int]@);
                if same_path(&all_got_files[j], &got_files[i]) {
                    found = Some(j);
                } else {
                    j = j + 1;
                }
            }
            proof {
                if found is None {
                    assert(first_path_index(all, p, j as int) is None);
                }
            }
            out.push(found);
            i = i + 1;
        }
        out
    }
}

} // verus!
