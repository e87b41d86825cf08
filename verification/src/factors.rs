//! The table of per-cell speed factors: building it from the two columns of
//! a configuration table, and looking up the factors along a path of cells.
//!
//! Factors are kept generic: the table stores whatever value the caller
//! reads from the configuration, keyed by the cell's 64-bit index.
use vstd::prelude::*;

use std::collections::HashMap;

use crate::h3::{cell_from_text, h3_cell_text_error, h3_parse_cell, trim_white_space, trimmed, Cell};

verus! {

broadcast use vstd::std_specs::hash::group_hash_axioms;

/// Opening of the error returned for a row whose cell index does not parse.
pub const INVALID_INDEX_OPEN: &'static str = "invalid H3 index '";

/// Text between the offending index and h3o's reason in that error.
pub const INVALID_INDEX_CLOSE: &'static str = "': ";

/// The number of rows read from the two columns (they are read in step).
pub open spec fn row_count<A, B>(cells: Seq<A>, factors: Seq<B>) -> int {
    if cells.len() <= factors.len() { cells.len() as int } else { factors.len() as int }
}

/// Row `k` has both values and its index text does not name a valid cell.
pub open spec fn row_is_invalid<F>(cells: Seq<Option<String>>, factors: Seq<Option<F>>, k: int) -> bool {
    &&& cells[k] is Some
    &&& factors[k] is Some
    &&& cell_from_text(trimmed(cells[k].unwrap()@)) is None
}

/// The table after the first `k` rows: a row with both values sets the
/// factor of its cell (a later row overrides an earlier one); a row missing
/// either value is skipped.
pub open spec fn factor_table<F>(cells: Seq<Option<String>>, factors: Seq<Option<F>>, k: int) -> Map<u64, F>
    decreases k,
{
    if k <= 0 {
        Map::empty()
    } else {
        let before = factor_table(cells, factors, k - 1);
        if cells[k - 1] is Some && factors[k - 1] is Some {
            match cell_from_text(trimmed(cells[k - 1].unwrap()@)) {
                Some(cell) => before.insert(cell, factors[k - 1].unwrap()),
                None => before,
            }
        } else {
            before
        }
    }
}

/// Row `k` has both values and its index text names `cell`.
pub open spec fn row_sets<F>(cells: Seq<Option<String>>, factors: Seq<Option<F>>, k: int, cell: u64) -> bool {
    &&& cells[k] is Some
    &&& factors[k] is Some
    &&& cell_from_text(trimmed(cells[k].unwrap()@)) == Some(cell)
}

/// Reading the table back: after the first `k` rows, a cell has an entry
/// exactly when some row among them names it, and the entry is the factor
/// of the last such row.
pub proof fn lemma_table_keeps_last_row<F>(
    cells: Seq<Option<String>>,
    factors: Seq<Option<F>>,
    k: int,
    cell: u64,
)
    requires
        0 <= k <= row_count(cells, factors),
    ensures
        factor_table(cells, factors, k).contains_key(cell) <==> exists|j: int|
            0 <= j < k && #[trigger] row_sets(cells, factors, j, cell),
        forall|j: int|
            0 <= j < k && #[trigger] row_sets(cells, factors, j, cell) && (forall|l: int|
                j < l < k ==> !row_sets(cells, factors, l, cell)) ==> factor_table(cells, factors, k)[cell]
                == factors[j].unwrap(),
    decreases k,
{
    if k > 0 {
        lemma_table_keeps_last_row(cells, factors, k - 1, cell);
        let last = k - 1;
        if row_sets(cells, factors, last, cell) {
            assert forall|j: int|
                0 <= j < k && #[trigger] row_sets(cells, factors, j, cell) && (forall|l: int|
                    j < l < k ==> !row_sets(cells, factors, l, cell)) implies factor_table(cells, factors, k)[cell]
                == factors[j].unwrap() by {
                if j < last {
                    assert(!row_sets(cells, factors, last, cell));
                }
            }
        } else {
            assert(factor_table(cells, factors, k).contains_key(cell) == factor_table(cells, factors, last).contains_key(cell));
            assert(factor_table(cells, factors, k).contains_key(cell) ==> factor_table(cells, factors, k)[cell] == factor_table(cells, factors, last)[cell]);
        }
    }
}

/// Row `k` of the configuration has both values and its trimmed index text
/// names `cell`.
pub open spec fn row_names<F>(cells: Seq<Option<String>>, factors: Seq<Option<F>>, k: int, cell: u64) -> bool {
    &&& 0 <= k < cells.len()
    &&& k < factors.len()
    &&& cells[k] is Some
    &&& factors[k] is Some
    &&& cell_from_text(trimmed(cells[k].unwrap()@)) == Some(cell)
}

/// The loaded table reads every row of the two columns, up to the end of
/// the shorter one: a cell has an entry exactly when some such row names
/// it, and the entry is the factor of the last row that names it.
pub proof fn lemma_loaded_table<F>(cells: Seq<Option<String>>, factors: Seq<Option<F>>, cell: u64)
    ensures
        factor_table(cells, factors, row_count(cells, factors)).contains_key(cell) <==> exists|k: int|
            #[trigger] row_names(cells, factors, k, cell),
        forall|k: int|
            #[trigger] row_names(cells, factors, k, cell) && (forall|l: int|
                k < l ==> !row_names(cells, factors, l, cell)) ==> factor_table(
                cells,
                factors,
                row_count(cells, factors),
            )[cell] == factors[k].unwrap(),
{
    let n = row_count(cells, factors);
    assert(n == cells.len() || n == factors.len());
    assert(n <= cells.len() && n <= factors.len());
    lemma_table_keeps_last_row(cells, factors, n, cell);
    assert forall|k: int| #[trigger] row_names(cells, factors, k, cell) implies 0 <= k < n && row_sets(
        cells,
        factors,
        k,
        cell,
    ) by {}
    assert forall|k: int| 0 <= k < n && #[trigger] row_sets(cells, factors, k, cell) implies row_names(
        cells,
        factors,
        k,
        cell,
    ) by {}
}

/// A configuration loads exactly when every row of the two columns, up to
/// the end of the shorter one, that has both values names a valid cell,
/// whatever its position.
pub proof fn lemma_load_succeeds<F>(cells: Seq<Option<String>>, factors: Seq<Option<F>>)
    ensures
        (forall|k: int| 0 <= k < row_count(cells, factors) ==> !row_is_invalid(cells, factors, k)) <==> (
        forall|k: int|
            0 <= k < cells.len() && k < factors.len() && (#[trigger] cells[k]) is Some && factors[k] is Some
                ==> cell_from_text(trimmed(cells[k].unwrap()@)) is Some),
{
    let n = row_count(cells, factors);
    assert(n == cells.len() || n == factors.len());
    assert(n <= cells.len() && n <= factors.len());
    if forall|k: int| 0 <= k < n ==> !row_is_invalid(cells, factors, k) {
        assert forall|k: int|
            0 <= k < cells.len() && k < factors.len() && (#[trigger] cells[k]) is Some && factors[k] is Some
                implies cell_from_text(trimmed(cells[k].unwrap()@)) is Some by {
            assert(!row_is_invalid(cells, factors, k));
        }
    }
}

/// The message for an invalid index `text`, before h3o's reason.
pub open spec fn invalid_index_prefix(text: Seq<char>) -> Seq<char> {
    INVALID_INDEX_OPEN@ + text + INVALID_INDEX_CLOSE@
}

/// Build the factor table from the `h3_index` and `factor` columns of a
/// configuration table, row by row.
///
/// Fails on the first row with both values whose index text (white space
/// trimmed) is not a valid hexadecimal cell index; the message names that
/// text and ends with h3o's error text for it.
pub fn factors_from_columns<F: Copy>(cells: &Vec<Option<String>>, factors: &Vec<Option<F>>) -> (res: Result<HashMap<u64, F>, String>)
    ensures
        res is Ok <==> forall|k: int| 0 <= k < row_count(cells@, factors@) ==> !row_is_invalid(cells@, factors@, k),
        res matches Ok(table) ==> table@ == factor_table(cells@, factors@, row_count(cells@, factors@)),
        res matches Err(m) ==> exists|k: int| {
            &&& 0 <= k < row_count(cells@, factors@)
            &&& #[trigger] row_is_invalid(cells@, factors@, k)
            &&& forall|j: int| 0 <= j < k ==> !row_is_invalid(cells@, factors@, j)
            &&& m@ == invalid_index_prefix(cells@[k].unwrap()@) + h3_cell_text_error(trimmed(cells@[k].unwrap()@))
        },
        res is Ok <==> forall|k: int|
            0 <= k < cells.len() && k < factors.len() && (#[trigger] cells@[k]) is Some && factors@[k] is Some
                ==> cell_from_text(trimmed(cells@[k].unwrap()@)) is Some,
        res matches Ok(table) ==> forall|c: u64|
            #[trigger] table@.contains_key(c) <==> exists|k: int|
                0 <= k < cells.len() && k < factors.len() && (#[trigger] cells@[k]) is Some && factors@[k] is Some
                    && cell_from_text(trimmed(cells@[k].unwrap()@)) == Some(c),
        res matches Ok(table) ==> forall|k: int, c: u64|
            #![trigger table@[c], cells@[k]]
            0 <= k < cells.len() && k < factors.len() && cells@[k] is Some && factors@[k] is Some
                && cell_from_text(trimmed(cells@[k].unwrap()@)) == Some(c) && (forall|l: int|
                k < l < cells.len() && l < factors.len() && (#[trigger] cells@[l]) is Some && factors@[l] is Some
                    ==> cell_from_text(trimmed(cells@[l].unwrap()@)) != Some(c)) ==> table@[c] == factors@[k].unwrap(),
{
    let n = if cells.len() <= factors.len() { cells.len() } else { factors.len() };
    let mut table: HashMap<u64, F> = HashMap::new();
    let mut k: usize = 0;
    while k < n
        invariant
            n == row_count(cells@, factors@),
            n <= cells.len(),
            n <= factors.len(),
            k <= n,
            table@ == factor_table(cells@, factors@, k as int),
            forall|j: int| 0 <= j < k ==> !row_is_invalid(cells@, factors@, j),
        decreases n - k,
    {
        match (&cells[k], &factors[k]) {
            (Some(text), Some(factor)) => {
                match h3_parse_cell(trim_white_space(text.as_str())) {
                    Ok(cell) => {
                        table.insert(cell, *factor);
                    },
                    Err(e) => {
                        let detail = e.to_string();
                        let message = String::from_str(INVALID_INDEX_OPEN).concat(text.as_str()).concat(
                            INVALID_INDEX_CLOSE,
                        ).concat(detail.as_str());
                        proof {
                            assert(message@ =~= invalid_index_prefix(text@) + h3_cell_text_error(trimmed(text@)));
                            assert(row_is_invalid(cells@, factors@, k as int));
                        }
                        proof {
                            lemma_load_succeeds(cells@, factors@);
                        }
                        return Err(message);
                    },
                }
            },
            _ => {},
        }
        k = k + 1;
    }
    proof {
        lemma_load_succeeds(cells@, factors@);
        assert forall|c: u64| #[trigger] table@.contains_key(c) <==> exists|k: int|
            0 <= k < cells.len() && k < factors.len() && (#[trigger] cells@[k]) is Some && factors@[k] is Some
                && cell_from_text(trimmed(cells@[k].unwrap()@)) == Some(c) by {
            lemma_loaded_table(cells@, factors@, c);
            if table@.contains_key(c) {
                let k = choose|k: int| #[trigger] row_names(cells@, factors@, k, c);
                assert(cells@[k] is Some);
            }
            if exists|k: int|
                0 <= k < cells.len() && k < factors.len() && (#[trigger] cells@[k]) is Some && factors@[k] is Some
                    && cell_from_text(trimmed(cells@[k].unwrap()@)) == Some(c) {
                let k = choose|k: int|
                    0 <= k < cells.len() && k < factors.len() && (#[trigger] cells@[k]) is Some && factors@[k] is Some
                        && cell_from_text(trimmed(cells@[k].unwrap()@)) == Some(c);
                assert(row_names(cells@, factors@, k, c));
            }
        }
        assert forall|k: int, c: u64|
            #![trigger table@[c], cells@[k]]
            0 <= k < cells.len() && k < factors.len() && cells@[k] is Some && factors@[k] is Some
                && cell_from_text(trimmed(cells@[k].unwrap()@)) == Some(c) && (forall|l: int|
                k < l < cells.len() && l < factors.len() && (#[trigger] cells@[l]) is Some && factors@[l] is Some
                    ==> cell_from_text(trimmed(cells@[l].unwrap()@)) != Some(c))
                implies table@[c] == factors@[k].unwrap() by {
            lemma_loaded_table(cells@, factors@, c);
            assert(row_names(cells@, factors@, k, c));
            assert forall|l: int| k < l implies !row_names(cells@, factors@, l, c) by {
                if row_names(cells@, factors@, l, c) {
                    assert(cells@[l] is Some);
                }
            }
        }
    }
    Ok(table)
}

/// The factor of each cell of `path`, in order; `missing` for a cell that
/// has no entry in the table.
pub fn path_factors<F: Copy>(path: &[Cell], table: &HashMap<u64, F>, missing: F) -> (res: Vec<F>)
    ensures
        res.len() == path.len(),
        forall|k: int|
            0 <= k < path.len() ==> #[trigger] res@[k] == (if table@.contains_key(path@[k]@) {
                table@[path@[k]@]
            } else {
                missing
            }),
{
    let mut res: Vec<F> = Vec::new();
    let mut k: usize = 0;
    while k < path.len()
        invariant
            k <= path.len(),
            res.len() == k,
            forall|m: int|
                0 <= m < k ==> #[trigger] res@[m] == (if table@.contains_key(path@[m]@) {
                    table@[path@[m]@]
                } else {
                    missing
                }),
        decreases path.len() - k,
    {
        let key = path[k].index();
        let factor = match table.get(&key) {
            Some(f) => *f,
            None => missing,
        };
        res.push(factor);
        k = k + 1;
    }
    res
}

/// The extension of `path` as `std::path::Path::extension` finds it: the
/// part of the file name after its last `.`; `None` when the file name has
/// no `.` other than a leading one, or when there is no file name.
pub uninterp spec fn path_extension(path: Seq<char>) -> Option<Seq<char>>;

/// `Path::new(path).extension()`, as text. Claims: the result is
/// `path_extension(path)` (a `&str` path is valid Unicode, so its extension
/// always converts back to text).
#[verifier::external_body]
fn file_extension(path: &str) -> (res: Option<String>)
    ensures
        match res {
            Some(ext) => path_extension(path@) == Some(ext@),
            None => path_extension(path@) is None,
        },
{
    std::path::Path::new(path).extension().and_then(|ext| ext.to_str()).map(|ext| ext.to_string())
}

/// The file formats a factor configuration can be read from.
#[derive(Clone, Copy, Debug, PartialEq, Eq)]
pub enum ConfigFormat {
    Parquet,
    Csv,
}

/// The extension that marks a Parquet configuration file.
pub const PARQUET_EXTENSION: &'static str = "parquet";

/// The format a configuration file is read as: Parquet when its extension
/// is exactly `parquet`, CSV otherwise.
pub fn config_format(path: &str) -> (res: ConfigFormat)
    ensures
        res == (if path_extension(path@) == Some(PARQUET_EXTENSION@) {
            ConfigFormat::Parquet
        } else {
            ConfigFormat::Csv
        }),
{
    match file_extension(path) {
        Some(ext) => {
            if ext == String::from_str(PARQUET_EXTENSION) {
                ConfigFormat::Parquet
            } else {
                ConfigFormat::Csv
            }
        },
        None => ConfigFormat::Csv,
    }
}

} // verus!
