//! Queries over the directory tree of the database: the directories of the
//! collected branches.

use vstd::prelude::*;
use crate::enums::{DatStatus, FileType};

verus! {

/// A node of the database tree as far as the directory queries go: its
/// type, its DAT status and its children.
#[derive(Debug)]
pub struct DbNode {
    pub file_type: FileType,
    pub dat_status: DatStatus,
    pub children: Vec<DbNode>,
}

/// Helpers that walk the database tree.
pub struct DbHelper;

/// Directories and archives.
pub open spec fn is_directory_type(t: FileType) -> bool {
    t == FileType::Dir || t == FileType::Zip || t == FileType::SevenZip
}

/// The directories below `n` that a selected-directory walk lists, each as
/// the path of child positions from the root (`prefix` leading to `n`), in
/// walk order: nothing when `n` is not collected; else, for each child that
/// is a directory, the child and then what lies below it.
pub open spec fn selected_dirs(n: DbNode, prefix: Seq<usize>) -> Seq<Seq<usize>>
    decreases n, 0nat,
{
    if n.dat_status != DatStatus::InDatCollect {
        Seq::empty()
    } else {
        selected_upto(n.children@, prefix, n.children@.len())
    }
}

/// What the walk lists for the first `k` children.
pub open spec fn selected_upto(kids: Seq<DbNode>, prefix: Seq<usize>, k: nat) -> Seq<Seq<usize>>
    decreases kids, k,
{
    if k == 0 || k > kids.len() {
        Seq::empty()
    } else {
        let j = (k - 1) as nat;
        let here = prefix.push(j as usize);
        selected_upto(kids, prefix, j) + if is_directory_type(kids[j as int].file_type) {
            seq![here] + selected_dirs(kids[j as int], here)
        } else {
            Seq::empty()
        }
    }
}

/// The paths, as sequences.
pub open spec fn paths_view(s: Seq<Vec<usize>>) -> Seq<Seq<usize>> {
    s.map_values(|v: Vec<usize>| v@)
}

fn push_index(prefix: &Vec<usize>, i: usize) -> (r: Vec<usize>)
    ensures
        r@ == prefix@.push(i),
{
    let mut r = prefix.clone();
    r.push(i);
    r
}

impl DbHelper {
    /// Appends to `lst_dir` the directories of the collected branches below
    /// `this_dir`, each as the path of child positions from `this_dir`.
    pub fn get_selected_dir_list(lst_dir: &mut Vec<Vec<usize>>, this_dir: &DbNode)
        ensures
            paths_view(final(lst_dir)@) == paths_view(old(lst_dir)@) + selected_dirs(*this_dir, Seq::empty()),
    {
        let prefix: Vec<usize> = Vec::new();
        Self::selected_below(lst_dir, this_dir, &prefix);
    }

    fn selected_below(lst_dir: &mut Vec<Vec<usize>>, dir: &DbNode, prefix: &Vec<usize>)
        ensures
            paths_view(final(lst_dir)@) == paths_view(old(lst_dir)@) + selected_dirs(*dir, prefix@),
        decreases *dir,
    {
        let ghost start = paths_view(lst_dir@);
        if dir.dat_status != DatStatus::InDatCollect {
            assert(paths_view(lst_dir@) =~= start + Seq::<Seq<usize>>::empty());
            return;
        }
        assert(paths_view(lst_dir@) =~= start + selected_upto(dir.children@, prefix@, 0));
        let mut i: usize = 0;
        while i < dir.children.len()
            invariant
                i <= dir.children@.len(),
                dir.dat_status == DatStatus::InDatCollect,
                paths_view(lst_dir@) == start + selected_upto(dir.children@, prefix@, i as nat),
            decreases dir.children@.len() - i,
        {
            let child = &dir.children[i];
            let ghost before = paths_view(lst_dir@);
            if child.file_type == FileType::Dir || child.file_type == FileType::Zip || child.file_type
                == FileType::SevenZip {
                let here = push_index(prefix, i);
                lst_dir.push(here.clone());
                assert(paths_view(lst_dir@) =~= before.push(here@));
                proof {
                    assert(decreases_to!(*dir => dir.children));
                }
                Self::selected_below(lst_dir, child, &here);
                assert(paths_view(lst_dir@) =~= start + selected_upto(dir.children@, prefix@, (i + 1) as nat));
            } else {
                assert(paths_view(lst_dir@) =~= start + selected_upto(dir.children@, prefix@, (i + 1) as nat));
            }
            i = i + 1;
        }
    }
}

} // verus!
