//! "Complete only" sets: a game that has some files missing and some present
//! or fixable is not collected partially; its present and fixable files are
//! marked incomplete instead.

use vstd::prelude::*;
use crate::enums::{FileType, GotStatus, RepStatus};
use crate::repair_status::{StatusNode, is_dir_type};

verus! {

/// A file that is missing.
pub open spec fn marks_missing(r: RepStatus) -> bool {
    r == RepStatus::Missing || r == RepStatus::MissingMIA
}

/// A file that is present or can be fixed.
pub open spec fn marks_got_or_fixable(r: RepStatus) -> bool {
    r == RepStatus::Correct || r == RepStatus::CorrectMIA || r == RepStatus::CanBeFixed || r
        == RepStatus::CanBeFixedMIA
}

/// Some files of the set are missing and some are present or fixable.
pub open spec fn is_partial(s: Seq<RepStatus>) -> bool {
    (exists|i: int| 0 <= i < s.len() && marks_missing(#[trigger] s[i])) && (exists|j: int|
        0 <= j < s.len() && marks_got_or_fixable(#[trigger] s[j]))
}

/// Status of a file of a partial set: fixable files become `Incomplete`,
/// present ones `IncompleteRemove`; others keep theirs.
pub open spec fn incomplete_status(r: RepStatus) -> RepStatus {
    if r == RepStatus::CanBeFixed || r == RepStatus::CanBeFixedMIA {
        RepStatus::Incomplete
    } else if r == RepStatus::Correct || r == RepStatus::CorrectMIA {
        RepStatus::IncompleteRemove
    } else {
        r
    }
}

/// Records whether a file's status is missing, or present or fixable.
pub fn status_check_file(rep: RepStatus, found_missing: &mut bool, found_got_or_fixable: &mut bool)
    ensures
        *final(found_missing) == (*old(found_missing) || marks_missing(rep)),
        *final(found_got_or_fixable) == (*old(found_got_or_fixable) || marks_got_or_fixable(rep)),
{
    match rep {
        RepStatus::Missing | RepStatus::MissingMIA => *found_missing = true,
        RepStatus::Correct | RepStatus::CorrectMIA | RepStatus::CanBeFixed
        | RepStatus::CanBeFixedMIA => *found_got_or_fixable = true,
        _ => {},
    }
}

/// Marks one file of a partial set incomplete.
pub fn status_set_file(rep: &mut RepStatus)
    ensures
        *final(rep) == incomplete_status(*old(rep)),
{
    match *rep {
        RepStatus::CanBeFixed | RepStatus::CanBeFixedMIA => *rep = RepStatus::Incomplete,
        RepStatus::Correct | RepStatus::CorrectMIA => *rep = RepStatus::IncompleteRemove,
        _ => {},
    }
}

/// Statuses of the files below a node: each child that is a file, and
/// the files below each child that is a directory or archive, in order.
pub open spec fn leaves_below(n: StatusNode) -> Seq<RepStatus>
    decreases n,
{
    leaves_of(n.children@)
}

pub open spec fn leaves_of(ns: Seq<StatusNode>) -> Seq<RepStatus>
    decreases ns,
{
    if ns.len() == 0 {
        Seq::empty()
    } else {
        leaves_of(ns.subrange(0, ns.len() - 1)) + if is_dir_type(ns[ns.len() - 1].file_type) {
            leaves_below(ns[ns.len() - 1])
        } else {
            seq![ns[ns.len() - 1].rep_status]
        }
    }
}

/// Some file of the list is missing.
pub open spec fn any_missing(s: Seq<RepStatus>) -> bool {
    exists|i: int| 0 <= i < s.len() && marks_missing(#[trigger] s[i])
}

/// Some file of the list is present or fixable.
pub open spec fn any_got_or_fixable(s: Seq<RepStatus>) -> bool {
    exists|i: int| 0 <= i < s.len() && marks_got_or_fixable(#[trigger] s[i])
}

proof fn lemma_any_concat(a: Seq<RepStatus>, b: Seq<RepStatus>)
    ensures
        any_missing(a + b) == (any_missing(a) || any_missing(b)),
        any_got_or_fixable(a + b) == (any_got_or_fixable(a) || any_got_or_fixable(b)),
{
    let c = a + b;
    if any_missing(b) {
        let j = choose|j: int| 0 <= j < b.len() && marks_missing(#[trigger] b[j]);
        assert(c[a.len() + j] == b[j]);
    }
    if any_got_or_fixable(b) {
        let j = choose|j: int| 0 <= j < b.len() && marks_got_or_fixable(#[trigger] b[j]);
        assert(c[a.len() + j] == b[j]);
    }
    if any_missing(c) {
        let j = choose|j: int| 0 <= j < c.len() && marks_missing(#[trigger] c[j]);
        if j >= a.len() {
            assert(b[j - a.len()] == c[j]);
        } else {
            assert(a[j] == c[j]);
        }
    }
    if any_got_or_fixable(c) {
        let j = choose|j: int| 0 <= j < c.len() && marks_got_or_fixable(#[trigger] c[j]);
        if j >= a.len() {
            assert(b[j - a.len()] == c[j]);
        } else {
            assert(a[j] == c[j]);
        }
    }
    if any_missing(a) {
        let j = choose|j: int| 0 <= j < a.len() && marks_missing(#[trigger] a[j]);
        assert(c[j] == a[j]);
    }
    if any_got_or_fixable(a) {
        let j = choose|j: int| 0 <= j < a.len() && marks_got_or_fixable(#[trigger] a[j]);
        assert(c[j] == a[j]);
    }
}

/// Records whether some file below `node` is missing, and whether some is
/// present or fixable.
pub fn status_check_dir(node: &StatusNode, found_missing: &mut bool, found_got_or_fixable: &mut bool)
    ensures
        *final(found_missing) == (*old(found_missing) || any_missing(leaves_below(*node))),
        *final(found_got_or_fixable) == (*old(found_got_or_fixable) || any_got_or_fixable(leaves_below(*node))),
    decreases *node,
{
    let ghost m0 = *found_missing;
    let ghost g0 = *found_got_or_fixable;
    let ghost kids = node.children@;
    assert(kids.subrange(0, 0) =~= Seq::<StatusNode>::empty());
    let mut i: usize = 0;
    while i < node.children.len()
        invariant
            kids == node.children@,
            i <= kids.len(),
            *found_missing == (m0 || any_missing(leaves_of(kids.subrange(0, i as int)))),
            *found_got_or_fixable == (g0 || any_got_or_fixable(leaves_of(kids.subrange(0, i as int)))),
        decreases kids.len() - i,
    {
        let child = &node.children[i];
        let ghost pre = kids.subrange(0, i as int);
        let ghost pre2 = kids.subrange(0, i + 1);
        proof {
            assert(pre2.subrange(0, pre2.len() - 1) =~= pre);
            assert(pre2[pre2.len() - 1] == *child);
        }
        if child.file_type == FileType::Dir || child.file_type == FileType::Zip || child.file_type
            == FileType::SevenZip {
            proof {
                assert(decreases_to!(*node => node.children));
                lemma_any_concat(leaves_of(pre), leaves_below(*child));
            }
            status_check_dir(child, found_missing, found_got_or_fixable);
        } else {
            proof {
                lemma_any_concat(leaves_of(pre), seq![child.rep_status]);
                assert(seq![child.rep_status][0] == child.rep_status);
            }
            status_check_file(child.rep_status, found_missing, found_got_or_fixable);
        }
        i = i + 1;
    }
    proof {
        assert(kids.subrange(0, kids.len() as int) =~= kids);
    }
}

/// `n` is `o` with every file below it marked incomplete (and its cached
/// counters dropped); directories and archives below it keep their own
/// fields.
pub open spec fn set_below(o: StatusNode, n: StatusNode) -> bool
    decreases o,
{
    &&& n.file_type == o.file_type
    &&& n.got_status == o.got_status
    &&& n.rep_status == o.rep_status
    &&& n.is_game == o.is_game
    &&& n.dir_status == o.dir_status
    &&& n.cached_stats == o.cached_stats
    &&& kids_set(o.children@, n.children@)
}

pub open spec fn kids_set(os: Seq<StatusNode>, ns: Seq<StatusNode>) -> bool
    decreases os,
{
    &&& os.len() == ns.len()
    &&& (os.len() > 0 ==> {
        let oc = os[os.len() - 1];
        let nc = ns[ns.len() - 1];
        &&& if is_dir_type(oc.file_type) {
            set_below(oc, nc)
        } else {
            &&& nc.file_type == oc.file_type
            &&& nc.got_status == oc.got_status
            &&& nc.rep_status == incomplete_status(oc.rep_status)
            &&& nc.is_game == oc.is_game
            &&& nc.dir_status == oc.dir_status
            &&& nc.cached_stats is None
            &&& nc.children@ == oc.children@
        }
        &&& kids_set(os.subrange(0, os.len() - 1), ns.subrange(0, ns.len() - 1))
    })
}

/// Marks one file of a partial set incomplete, dropping its cached counters.
fn status_set_node(node: &mut StatusNode)
    ensures
        final(node).rep_status == incomplete_status(old(node).rep_status),
        final(node).cached_stats is None,
        final(node).file_type == old(node).file_type,
        final(node).got_status == old(node).got_status,
        final(node).is_game == old(node).is_game,
        final(node).dir_status == old(node).dir_status,
        final(node).children@ == old(node).children@,
{
    status_set_file(&mut node.rep_status);
    node.cached_stats = None;
}

/// Marks every file below `node` incomplete.
pub fn status_set_dir(node: &mut StatusNode)
    ensures
        set_below(*old(node), *final(node)),
    decreases *old(node),
{
    let ghost o = *node;
    let ghost kids = o.children@;
    assert(kids.subrange(0, 0) =~= Seq::<StatusNode>::empty());
    assert(node.children@.subrange(0, 0) =~= Seq::<StatusNode>::empty());
    let mut i: usize = 0;
    while i < node.children.len()
        invariant
            o == *old(node),
            kids == o.children@,
            node.file_type == o.file_type,
            node.got_status == o.got_status,
            node.rep_status == o.rep_status,
            node.is_game == o.is_game,
            node.dir_status == o.dir_status,
            node.cached_stats == o.cached_stats,
            node.children@.len() == kids.len(),
            i <= kids.len(),
            forall|j: int| i <= j < kids.len() ==> #[trigger] node.children@[j] == kids[j],
            kids_set(kids.subrange(0, i as int), node.children@.subrange(0, i as int)),
        decreases kids.len() - i,
    {
        let ghost done = node.children@;
        let mut child = StatusNode {
            file_type: FileType::UnSet,
            got_status: GotStatus::NotGot,
            rep_status: RepStatus::UnSet,
            is_game: false,
            search_found: false,
            dir_status: None,
            cached_stats: None,
            children: Vec::new(),
        };
        node.children.set_and_swap(i, &mut child);
        let ghost c0 = child;
        if child.file_type == FileType::Dir || child.file_type == FileType::Zip || child.file_type
            == FileType::SevenZip {
            proof {
                assert(c0 == kids[i as int]);
                assert(decreases_to!(o => o.children));
                assert(decreases_to!(o.children => o.children@));
                assert(decreases_to!(o.children@ => o.children@[i as int]));
                assert(decreases_to!(*old(node) => child));
            }
            status_set_dir(&mut child);
        } else {
            status_set_node(&mut child);
        }
        let ghost c1 = child;
        node.children.set_and_swap(i, &mut child);
        proof {
            let os = kids.subrange(0, i + 1);
            let ns = node.children@.subrange(0, i + 1);
            assert(os.subrange(0, os.len() - 1) =~= kids.subrange(0, i as int));
            assert(ns.subrange(0, ns.len() - 1) =~= done.subrange(0, i as int));
            assert(ns[ns.len() - 1] == c1);
            assert(os[os.len() - 1] == c0);
        }
        i = i + 1;
    }
    proof {
        assert(kids.subrange(0, kids.len() as int) =~= kids);
        assert(node.children@.subrange(0, kids.len() as int) =~= node.children@);
    }
}

/// After files are marked incomplete, none of them is present or fixable.
proof fn lemma_set_leaves(o: StatusNode, n: StatusNode)
    requires
        set_below(o, n),
    ensures
        !any_got_or_fixable(leaves_below(n)),
        any_missing(leaves_below(n)) == any_missing(leaves_below(o)),
    decreases o,
{
    lemma_set_kids_leaves(o.children@, n.children@);
}

proof fn lemma_set_kids_leaves(os: Seq<StatusNode>, ns: Seq<StatusNode>)
    requires
        kids_set(os, ns),
    ensures
        !any_got_or_fixable(leaves_of(ns)),
        any_missing(leaves_of(ns)) == any_missing(leaves_of(os)),
    decreases os,
{
    if os.len() > 0 {
        let oc = os[os.len() - 1];
        let nc = ns[ns.len() - 1];
        let os2 = os.subrange(0, os.len() - 1);
        let ns2 = ns.subrange(0, ns.len() - 1);
        lemma_set_kids_leaves(os2, ns2);
        if is_dir_type(oc.file_type) {
            lemma_set_leaves(oc, nc);
            assert(is_dir_type(nc.file_type));
            assert(leaves_of(ns) == leaves_of(ns2) + leaves_below(nc));
            assert(leaves_of(os) == leaves_of(os2) + leaves_below(oc));
            lemma_any_concat(leaves_of(ns2), leaves_below(nc));
            lemma_any_concat(leaves_of(os2), leaves_below(oc));
        } else {
            assert(!is_dir_type(nc.file_type));
            assert(leaves_of(ns) == leaves_of(ns2) + seq![nc.rep_status]);
            assert(leaves_of(os) == leaves_of(os2) + seq![oc.rep_status]);
            lemma_any_concat(leaves_of(ns2), seq![nc.rep_status]);
            lemma_any_concat(leaves_of(os2), seq![oc.rep_status]);
            assert(seq![nc.rep_status][0] == nc.rep_status);
            assert(seq![oc.rep_status][0] == oc.rep_status);
            if any_got_or_fixable(seq![nc.rep_status]) {
                let k = choose|k: int| 0 <= k < 1 && marks_got_or_fixable(#[trigger] seq![nc.rep_status][k]);
                assert(k == 0);
            }
            if any_missing(seq![nc.rep_status]) != any_missing(seq![oc.rep_status]) {
                if any_missing(seq![nc.rep_status]) {
                    let k = choose|k: int| 0 <= k < 1 && marks_missing(#[trigger] seq![nc.rep_status][k]);
                    assert(k == 0);
                } else {
                    let k = choose|k: int| 0 <= k < 1 && marks_missing(#[trigger] seq![oc.rep_status][k]);
                    assert(k == 0);
                }
            }
        }
    }
}

/// For a game: when some file below it is missing and some present or
/// fixable, marks its files incomplete; otherwise, or for a node that is not
/// a game, leaves it.
pub fn remove_partial_sets(game_dir: &mut StatusNode)
    ensures
        (old(game_dir).is_game && is_partial(leaves_below(*old(game_dir)))) ==> set_below(
            *old(game_dir),
            *final(game_dir),
        ),
        !(old(game_dir).is_game && is_partial(leaves_below(*old(game_dir)))) ==> *final(game_dir) == *old(
            game_dir,
        ),
{
    if !game_dir.is_game {
        return;
    }
    let mut found_missing = false;
    let mut found_got_or_fixable = false;
    status_check_dir(game_dir, &mut found_missing, &mut found_got_or_fixable);
    if !found_missing || !found_got_or_fixable {
        return;
    }
    status_set_dir(game_dir);
}

/// Once a partial game is handled, no set below it is partial any more.
pub proof fn law_no_partial_set_remains(o: StatusNode, n: StatusNode)
    requires
        o.is_game && is_partial(leaves_below(o)) ==> set_below(o, n),
        !(o.is_game && is_partial(leaves_below(o))) ==> n == o,
        o.is_game,
    ensures
        !is_partial(leaves_below(n)),
{
    if is_partial(leaves_below(o)) {
        lemma_set_leaves(o, n);
    }
}

} // verus!
