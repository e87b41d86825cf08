use eclair_routing::factors::{config_format, factors_from_columns, path_factors, ConfigFormat};
use eclair_routing::h3::Cell;

fn text(s: &str) -> Option<String> {
    Some(s.to_string())
}

#[test]
fn table_from_columns_reads_every_complete_row() {
    let cells = vec![text("8a1fb46622dffff"), text("8a1fb46622d7fff")];
    let factors = vec![Some(0.3), Some(0.8)];
    let table = factors_from_columns(&cells, &factors).unwrap();
    assert_eq!(table.len(), 2);
    assert_eq!(table[&0x8a1fb46622dffff], 0.3);
    assert_eq!(table[&0x8a1fb46622d7fff], 0.8);
}

#[test]
fn table_later_row_overrides_earlier() {
    let cells = vec![text("8a1fb46622dffff"), text("8A1FB46622DFFFF")];
    let factors = vec![Some(0.3), Some(0.5)];
    let table = factors_from_columns(&cells, &factors).unwrap();
    assert_eq!(table.len(), 1);
    assert_eq!(table[&0x8a1fb46622dffff], 0.5);
}

#[test]
fn table_skips_rows_missing_a_value() {
    let cells = vec![None, text("8a1fb46622dffff"), text("not a cell")];
    let factors = vec![Some(0.3), Some(0.4), None];
    let table = factors_from_columns(&cells, &factors).unwrap();
    assert_eq!(table.len(), 1);
    assert_eq!(table[&0x8a1fb46622dffff], 0.4);
}

#[test]
fn table_trims_white_space_around_indexes() {
    let cells = vec![text("  8a1fb46622dffff\t")];
    let factors = vec![Some(0.7)];
    let table = factors_from_columns(&cells, &factors).unwrap();
    assert_eq!(table[&0x8a1fb46622dffff], 0.7);
}

#[test]
fn table_accepts_a_plus_sign() {
    let cells = vec![text("+8a1fb46622dffff")];
    let table = factors_from_columns(&cells, &vec![Some(1u8)]).unwrap();
    assert_eq!(table[&0x8a1fb46622dffff], 1);
}

#[test]
fn table_rejects_an_invalid_index() {
    let cells = vec![text("8a1fb46622dffff"), text(" zz "), text("0")];
    let factors = vec![Some(0.3), Some(0.4), Some(0.5)];
    let err = factors_from_columns(&cells, &factors).unwrap_err();
    assert!(err.starts_with("invalid H3 index ' zz ': "), "{err}");
    assert_eq!(err, "invalid H3 index ' zz ': invalid cell index (got None): invalid 64-bit hex number");
}

#[test]
fn table_rejects_a_hex_number_that_is_no_cell() {
    let cells = vec![text("0")];
    let err = factors_from_columns(&cells, &vec![Some(0.5)]).unwrap_err();
    assert!(err.starts_with("invalid H3 index '0': "), "{err}");
}

#[test]
fn table_reads_rows_in_step() {
    let cells = vec![text("8a1fb46622dffff"), text("zz")];
    let factors = vec![Some(0.3)];
    let table = factors_from_columns(&cells, &factors).unwrap();
    assert_eq!(table.len(), 1);
}

#[test]
fn path_factors_default_for_missing_cells() {
    let a = Cell::from_index(0x8a1fb46622dffff).unwrap();
    let b = Cell::from_index(0x8a1fb46622d7fff).unwrap();
    let table = factors_from_columns(&vec![text("8a1fb46622dffff")], &vec![Some(0.5)]).unwrap();
    let factors = path_factors(&[a, b, a], &table, 1.0);
    assert_eq!(factors, vec![0.5, 1.0, 0.5]);
}

#[test]
fn path_factors_of_empty_path() {
    let table = factors_from_columns::<f64>(&vec![], &vec![]).unwrap();
    assert!(path_factors(&[], &table, 1.0).is_empty());
}

#[test]
fn config_format_by_extension() {
    assert_eq!(config_format("factors.parquet"), ConfigFormat::Parquet);
    assert_eq!(config_format("/data/v1.2/factors.parquet"), ConfigFormat::Parquet);
    assert_eq!(config_format("factors.csv"), ConfigFormat::Csv);
    assert_eq!(config_format("factors"), ConfigFormat::Csv);
    assert_eq!(config_format("factors.PARQUET"), ConfigFormat::Csv);
    assert_eq!(config_format(".parquet"), ConfigFormat::Csv);
    assert_eq!(config_format("factors.parquet.csv"), ConfigFormat::Csv);
}
