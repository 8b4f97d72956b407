//! Order of the children of a node: TorrentZip order among zip members, 7z
//! order among 7z members, and otherwise names compared ASCII-case-insensitively
//! with the node type breaking ties; and the binary searches that find a
//! child by type and name, or the position where a child belongs.

use std::cmp::Ordering;
use vstd::prelude::*;
use vstd::utf8::encode_utf8;
use crate::arr_byte::lex_order;
use crate::enums::FileType;
use crate::file_scanning::{FileScanning, bytes_order, dir_order, lower_bytes, lowered, ordering_from, seven_zip_order};
use crate::text::str_bytes;

verus! {

/// The type and name of a child, which place it among its siblings.
#[derive(Debug)]
pub struct ChildKey {
    pub file_type: FileType,
    pub name: String,
}

/// -1, 0 or 1 for `Less`, `Equal` or `Greater`.
pub open spec fn ordering_int(o: Ordering) -> int {
    match o {
        Ordering::Less => -1,
        Ordering::Equal => 0,
        Ordering::Greater => 1,
    }
}

/// Position of each node type in the type order.
pub open spec fn file_type_rank(t: FileType) -> int {
    match t {
        FileType::UnSet => 0,
        FileType::Dir => 1,
        FileType::Zip => 2,
        FileType::SevenZip => 3,
        FileType::File => 4,
        FileType::FileZip => 5,
        FileType::FileSevenZip => 6,
        FileType::FileOnly => 100,
    }
}

/// Names compared byte by byte after ASCII lower-casing, a shorter prefix first.
pub open spec fn lowered_order(a: Seq<u8>, b: Seq<u8>) -> Ordering {
    ordering_from(lex_order(lower_bytes(a), lower_bytes(b)))
}

/// Order of two children (type and UTF-8 name) as -1, 0 or 1: TorrentZip
/// order when either is a zip member, 7z order when either is a 7z member,
/// else ASCII-case-insensitive name order with the type order breaking ties.
pub open spec fn name_key_sign(f1: FileType, a: Seq<u8>, f2: FileType, b: Seq<u8>) -> int {
    if f1 == FileType::FileZip || f2 == FileType::FileZip {
        ordering_int(dir_order(a, b))
    } else if f1 == FileType::FileSevenZip || f2 == FileType::FileSevenZip {
        ordering_int(seven_zip_order(a, b))
    } else if lowered_order(a, b) != Ordering::Equal {
        ordering_int(lowered_order(a, b))
    } else if file_type_rank(f1) < file_type_rank(f2) {
        -1
    } else if file_type_rank(f1) == file_type_rank(f2) {
        0
    } else {
        1
    }
}

/// How the key (`t`, `name`) compares with child `j`.
pub open spec fn key_at(children: Seq<ChildKey>, t: FileType, name: Seq<char>, j: int) -> int {
    name_key_sign(t, encode_utf8(name), children[j].file_type, encode_utf8(children[j].name@))
}

/// How the key (`t`, `name`) compares with the child at position `j`.
pub open spec fn key_at_index(children: Seq<ChildKey>, t: FileType, name: Seq<char>, j: usize) -> int {
    key_at(children, t, name, j as int)
}

/// The children sit, as seen from the key, in order: those it comes after,
/// then those equal to it, then those it comes before.
pub open spec fn partitioned_for(children: Seq<ChildKey>, t: FileType, name: Seq<char>) -> bool {
    forall|i: int, j: int|
        0 <= i <= j < children.len() ==> #[trigger] key_at(children, t, name, i) >= #[trigger] key_at(
            children,
            t,
            name,
            j,
        )
}

/// Swapping two children reverses their order.
pub proof fn law_name_key_antisymmetric(f1: FileType, a: Seq<u8>, f2: FileType, b: Seq<u8>)
    ensures
        name_key_sign(f1, a, f2, b) == -name_key_sign(f2, b, f1, a),
{
    crate::file_scanning::law_dir_order_antisymmetric(a, b);
    crate::file_scanning::law_seven_zip_order_antisymmetric(a, b);
    crate::arr_byte::lemma_lex_order_antisymmetric(lower_bytes(a), lower_bytes(b));
}

/// ASCII lower-casing of a byte.
pub fn ascii_lower(byte: u8) -> (r: u8)
    ensures
        r == crate::text::ascii_lower(byte),
{
    FileScanning::ascii_lower(byte)
}

/// TorrentZip name order without the case tie-break.
pub fn trrnt_zip_string_compare(a: &str, b: &str) -> (r: Ordering)
    ensures
        r == lowered_order(encode_utf8(a@), encode_utf8(b@)),
{
    let la = lowered(str_bytes(a));
    let lb = lowered(str_bytes(b));
    bytes_order(la.as_slice(), lb.as_slice())
}

/// TorrentZip name order, exact bytes breaking ties.
pub fn trrnt_zip_string_compare_case(a: &str, b: &str) -> (r: Ordering)
    ensures
        r == dir_order(encode_utf8(a@), encode_utf8(b@)),
{
    let res = trrnt_zip_string_compare(a, b);
    match res {
        Ordering::Equal => bytes_order(str_bytes(a), str_bytes(b)),
        _ => res,
    }
}

/// Splits a 7z member name into path, stem and extension.
pub fn split_7zip_filename(filename: &str) -> (res: (&str, &str, &str))
    ensures
        (encode_utf8(res.0@), encode_utf8(res.1@), encode_utf8(res.2@)) == crate::file_scanning::split_7zip_spec(
            encode_utf8(filename@),
        ),
{
    FileScanning::split_7zip_filename(filename)
}

/// 7z member order: extension, then stem, then path.
pub fn trrnt_7zip_string_compare(a: &str, b: &str) -> (r: Ordering)
    ensures
        r == seven_zip_order(encode_utf8(a@), encode_utf8(b@)),
{
    FileScanning::compare_trrnt_7zip_names(a, b)
}

/// Directory name order: ASCII-case-insensitive.
pub fn directory_name_compare(a: &str, b: &str) -> (r: Ordering)
    ensures
        r == lowered_order(encode_utf8(a@), encode_utf8(b@)),
{
    trrnt_zip_string_compare(a, b)
}

fn file_type_rank_of(t: FileType) -> (r: u8)
    ensures
        r == file_type_rank(t),
{
    match t {
        FileType::UnSet => 0,
        FileType::Dir => 1,
        FileType::Zip => 2,
        FileType::SevenZip => 3,
        FileType::File => 4,
        FileType::FileZip => 5,
        FileType::FileSevenZip => 6,
        FileType::FileOnly => 100,
    }
}

/// Order of two children by type and name.
pub fn compare_name_key(f1: FileType, name1: &str, f2: FileType, name2: &str) -> (r: Ordering)
    ensures
        ordering_int(r) == name_key_sign(f1, encode_utf8(name1@), f2, encode_utf8(name2@)),
{
    if f1 == FileType::FileZip || f2 == FileType::FileZip {
        return trrnt_zip_string_compare_case(name1, name2);
    }
    if f1 == FileType::FileSevenZip || f2 == FileType::FileSevenZip {
        return trrnt_7zip_string_compare(name1, name2);
    }
    let res = directory_name_compare(name1, name2);
    match res {
        Ordering::Equal => {},
        _ => return res,
    }
    let r1 = file_type_rank_of(f1);
    let r2 = file_type_rank_of(f2);
    if r1 < r2 {
        Ordering::Less
    } else if r1 == r2 {
        Ordering::Equal
    } else {
        Ordering::Greater
    }
}

/// -1, 0 or 1 for an order.
pub fn ordering_to_i32(ordering: Ordering) -> (r: i32)
    ensures
        r == ordering_int(ordering),
{
    match ordering {
        Ordering::Less => -1,
        Ordering::Equal => 0,
        Ordering::Greater => 1,
    }
}

/// Binary search of the children for a type and name: (0, the first child
/// equal to it) when there is one, else (-1 or 1, the position where it
/// belongs). That is exact when the children are in order as seen from the
/// key; in any case a 0 comes with a child equal to the key.
pub fn child_name_search(children: &[ChildKey], file_type: FileType, name: &str) -> (res: (i32, usize))
    ensures
        res.0 == -1 || res.0 == 0 || res.0 == 1,
        res.1 <= children@.len(),
        res.0 == 0 ==> res.1 < children@.len() && key_at_index(children@, file_type, name@, res.1) == 0,
        partitioned_for(children@, file_type, name@) ==> {
            &&& (res.0 == 0 <==> exists|j: int|
                0 <= j < children@.len() && #[trigger] key_at(children@, file_type, name@, j) == 0)
            &&& forall|j: int| 0 <= j < res.1 ==> #[trigger] key_at(children@, file_type, name@, j) > 0
            &&& forall|j: int|
                res.1 <= j < children@.len() ==> #[trigger] key_at(children@, file_type, name@, j) <= 0
        },
{
    let ghost cs = children@;
    let ghost part = partitioned_for(cs, file_type, name@);
    let mut bottom: usize = 0;
    let mut top: usize = children.len();
    let mut mid: usize = 0;
    let mut res: i32 = -1;
    while bottom < top && res != 0
        invariant
            cs == children@,
            part == partitioned_for(cs, file_type, name@),
            bottom <= top <= cs.len(),
            mid <= cs.len(),
            res == -1 || res == 0 || res == 1,
            res == 0 ==> mid < cs.len() && key_at_index(cs, file_type, name@, mid) == 0,
            res > 0 ==> mid < cs.len() && bottom == mid + 1,
            res < 0 ==> top == mid || bottom < top,
            part ==> forall|j: int| 0 <= j < bottom ==> #[trigger] key_at(cs, file_type, name@, j) > 0,
            part ==> forall|j: int| top <= j < cs.len() ==> #[trigger] key_at(cs, file_type, name@, j) < 0,
        decreases top - bottom + (if res == 0 { 0int } else { 1int }),
    {
        let ghost old_bottom = bottom;
        let ghost old_top = top;
        mid = bottom + (top - bottom) / 2;
        let c = compare_name_key(file_type, name, children[mid].file_type, children[mid].name.as_str());
        res = ordering_to_i32(c);
        proof {
            assert(key_at_index(cs, file_type, name@, mid) == res);
        }
        if res < 0 {
            top = mid;
        } else if res > 0 {
            bottom = mid + 1;
        }
        proof {
            if part {
                assert forall|j: int| 0 <= j < bottom implies #[trigger] key_at(cs, file_type, name@, j) > 0 by {
                    if j >= old_bottom {
                        assert(key_at(cs, file_type, name@, j) >= key_at_index(cs, file_type, name@, mid));
                    }
                }
                assert forall|j: int| top <= j < cs.len() implies #[trigger] key_at(cs, file_type, name@, j) < 0 by {
                    if j < old_top {
                        assert(key_at_index(cs, file_type, name@, mid) >= key_at(cs, file_type, name@, j));
                    }
                }
            }
        }
    }
    let mut index = mid;
    if res == 0 {
        while index > 0
            invariant
                cs == children@,
                part == partitioned_for(cs, file_type, name@),
                index <= mid < cs.len(),
                key_at_index(cs, file_type, name@, index) == 0,
            ensures
                index <= mid < cs.len(),
                key_at_index(cs, file_type, name@, index) == 0,
                index > 0 ==> key_at(cs, file_type, name@, index - 1) != 0,
            decreases index,
        {
            let c = compare_name_key(
                file_type,
                name,
                children[index - 1].file_type,
                children[index - 1].name.as_str(),
            );
            match c {
                Ordering::Equal => {},
                _ => break,
            }
            index = index - 1;
        }
        proof {
            if part {
                assert forall|j: int| 0 <= j < index implies #[trigger] key_at(cs, file_type, name@, j) > 0 by {
                    assert(key_at(cs, file_type, name@, j) >= key_at(cs, file_type, name@, index - 1));
                    assert(key_at(cs, file_type, name@, index - 1) >= key_at_index(cs, file_type, name@, index));
                }
                assert forall|j: int| index <= j < cs.len() implies #[trigger] key_at(cs, file_type, name@, j) <= 0 by {
                    assert(key_at_index(cs, file_type, name@, index) >= key_at(cs, file_type, name@, j));
                }
            }
        }
    } else if res > 0 {
        index = index + 1;
    }
    (res, index)
}

/// Binary search for the position of a new child: after every child it
/// comes after, before the others (exact when the children are in order as
/// seen from it).
pub fn child_insert_index(children: &[ChildKey], child: &ChildKey) -> (r: usize)
    ensures
        r <= children@.len(),
        partitioned_for(children@, child.file_type, child.name@) ==> {
            &&& forall|j: int| 0 <= j < r ==> #[trigger] key_at(children@, child.file_type, child.name@, j) > 0
            &&& forall|j: int|
                r <= j < children@.len() ==> #[trigger] key_at(children@, child.file_type, child.name@, j) <= 0
        },
{
    let ghost cs = children@;
    let ghost part = partitioned_for(cs, child.file_type, child.name@);
    let mut bottom: usize = 0;
    let mut top: usize = children.len();
    while bottom < top
        invariant
            cs == children@,
            part == partitioned_for(cs, child.file_type, child.name@),
            bottom <= top <= cs.len(),
            part ==> forall|j: int| 0 <= j < bottom ==> #[trigger] key_at(cs, child.file_type, child.name@, j) > 0,
            part ==> forall|j: int|
                top <= j < cs.len() ==> #[trigger] key_at(cs, child.file_type, child.name@, j) <= 0,
        decreases top - bottom,
    {
        let ghost old_bottom = bottom;
        let ghost old_top = top;
        let mid = bottom + (top - bottom) / 2;
        let c = compare_name_key(
            child.file_type,
            child.name.as_str(),
            children[mid].file_type,
            children[mid].name.as_str(),
        );
        let greater = match c {
            Ordering::Greater => true,
            _ => false,
        };
        proof {
            assert(greater <==> key_at_index(cs, child.file_type, child.name@, mid) > 0);
        }
        if greater {
            bottom = mid + 1;
        } else {
            top = mid;
        }
        proof {
            if part {
                assert forall|j: int| 0 <= j < bottom implies #[trigger] key_at(cs, child.file_type, child.name@, j) > 0 by {
                    if j >= old_bottom {
                        assert(key_at(cs, child.file_type, child.name@, j) >= key_at_index(cs, child.file_type, child.name@, mid));
                    }
                }
                assert forall|j: int| top <= j < cs.len() implies #[trigger] key_at(cs, child.file_type, child.name@, j) <= 0 by {
                    if j < old_top {
                        assert(key_at_index(cs, child.file_type, child.name@, mid) >= key_at(cs, child.file_type, child.name@, j));
                    }
                }
            }
        }
    }
    bottom
}

} // verus!
