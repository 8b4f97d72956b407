use rv_core::external_dat_converter_to::ExternalDatConverterTo;
use rv_core::fix_dat_report::FixDatReport;

#[test]
fn converter_defaults() {
    let c = ExternalDatConverterTo::new();
    assert!(c.use_header && c.filter_got && c.filter_missing && c.filter_fixable && c.filter_mia);
    assert!(!c.filter_merged);
    assert!(c.filter_files && c.filter_zips);
}

#[test]
fn category_lists_split_and_trim() {
    assert_eq!(ExternalDatConverterTo::category_list("   "), None);
    assert_eq!(
        ExternalDatConverterTo::category_list(" Games | Puzzle|| Caf\u{e9} "),
        Some(vec!["Games".to_string(), "Puzzle".to_string(), "".to_string(), "Caf\u{e9}".to_string()])
    );
    assert_eq!(ExternalDatConverterTo::category_list("x"), Some(vec!["x".to_string()]));
}

#[test]
fn fix_dat_names() {
    assert!(FixDatReport::logical_name_eq("Set", "Set"));
    assert!(!FixDatReport::logical_name_eq("Set", "set"));
}
