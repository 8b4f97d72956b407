//! Core data model and decision logic of a ROM collection manager: byte-array
//! helpers, sorted bucket lists, CHD and cache parsing, name ordering rules
//! used when scanning archives, repair statistics, the fix finder's pairing
//! of missing files with sources, TorrentZip building, DAT reading rules and
//! the export of the tree as a DAT.

pub mod arr_byte;
pub mod text;
pub mod hash_keys;
pub mod chd;
pub mod enums;
pub mod repair_status;
pub mod byte_sorted_list;
pub mod fast_array_sort;
pub mod patterns;
pub mod rv_dat;
pub mod rv_game;
pub mod cache;
pub mod csharp_cache;
pub mod file_scanning;
pub mod compare;
pub mod find_fixes;
pub mod fix_tree;
pub mod rv_file;
pub mod rv_file_ordering;
pub mod fix;
pub mod torrentzip;
pub mod relative_path;
pub mod external_dat_converter_to;
pub mod clean_partial;
pub mod fix_dat_report;
pub mod is_file_only;
pub mod db_helper;
pub mod db_type_get;
pub mod dat_update;
pub mod scan_plan;
