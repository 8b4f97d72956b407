use rv_core::db_helper::{DbHelper, DbNode};
use rv_core::enums::{DatStatus, FileType};

fn node(file_type: FileType, dat_status: DatStatus, children: Vec<DbNode>) -> DbNode {
    DbNode { file_type, dat_status, children }
}

#[test]
fn selected_dirs_walk_collected_branches() {
    let tree = node(
        FileType::Dir,
        DatStatus::InDatCollect,
        vec![
            node(
                FileType::Dir,
                DatStatus::InDatCollect,
                vec![
                    node(FileType::File, DatStatus::InDatCollect, vec![]),
                    node(FileType::Zip, DatStatus::InDatCollect, vec![]),
                ],
            ),
            node(FileType::File, DatStatus::InDatCollect, vec![]),
            node(
                FileType::Dir,
                DatStatus::NotInDat,
                vec![node(FileType::Dir, DatStatus::InDatCollect, vec![])],
            ),
        ],
    );
    let mut list = vec![vec![9usize]];
    DbHelper::get_selected_dir_list(&mut list, &tree);
    // the uncollected directory is listed, but not what lies below it
    assert_eq!(list, vec![vec![9], vec![0], vec![0, 1], vec![2]]);
}

#[test]
fn selected_dirs_of_an_uncollected_root() {
    let tree = node(
        FileType::Dir,
        DatStatus::InToSort,
        vec![node(FileType::Dir, DatStatus::InDatCollect, vec![])],
    );
    let mut list = Vec::new();
    DbHelper::get_selected_dir_list(&mut list, &tree);
    assert!(list.is_empty());
}
