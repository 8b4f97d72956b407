# rv_core

The core of a ROM collection manager, written in Verus. The functions in
`src/` carry `requires`/`ensures` contracts that Verus proves, except a few
small trusted wrappers marked `#[verifier::external_body]`: those around
`regex`, `crc32fast` and `flate2`, and around the std string and path calls
that vstd does not specify. Their contracts are taken as stated, and each
one's doc comment says what it claims of the call it makes.

Where names are compared the way the host file system does, the library
follows Windows throughout: relative paths read drive letters, UNC prefixes
and either slash and compare components without regard to ASCII case, and
the scan-time ignore matcher and the ignore test of a status reset match
wildcard and literal patterns without regard to ASCII case (regular
expressions ignore case anyway).

- `src/` — the verified library. Each module holds one area of the logic:
  byte arrays and hash keys (`arr_byte`, `hash_keys`, `byte_sorted_list`),
  parsers (`chd`, `cache`, `csharp_cache`), the node and status model
  (`enums`, `rv_dat`, `rv_game`, `rv_file`, `rv_file_ordering`,
  `repair_status`, `clean_partial`), scanning and matching (`file_scanning`,
  `compare`, `patterns`, `scan_plan`), fixing (`find_fixes`, `fix_tree`, `fix`,
  `torrentzip`), DATs (`dat_update`, `external_dat_converter_to`,
  `fix_dat_report`) and small helpers (`text`, `relative_path`,
  `is_file_only`, `db_helper`, `db_type_get`, `fast_array_sort`).
  Laws that relate several functions are public proof functions named
  `law_*`.
- `tests/` — tests run against the compiled library.
- `app/` — file-system and stream adapters: they read files, hand the bytes
  and values to the library, and write back what it returns.

The calls into `regex`, `crc32fast`, `flate2` and a few `std` functions are
made by small trusted functions whose contracts state what those crates
document; everything built on them is verified.
