//! H3 cells: validated cell indexes, their text form, and the line of
//! cells between two cells. The H3 computations themselves are h3o's.
use vstd::prelude::*;

use h3o::error::{InvalidCellIndex, LocalIjError};
use h3o::CellIndex;
use vstd::string::to_string_from_display_ensures;

verus! {

#[verifier::external_type_specification]
#[verifier::external_body]
pub struct ExLocalIjError(LocalIjError);

#[verifier::external_type_specification]
#[verifier::external_body]
pub struct ExInvalidCellIndex(InvalidCellIndex);

/// Whether h3o accepts `index` as the 64-bit representation of a cell
/// (`CellIndex::try_from` succeeds on it).
pub uninterp spec fn h3_is_cell(index: u64) -> bool;

/// What h3o's `CellIndex::grid_path_cells` yields from `origin` to `dest`:
/// the text of the error when the call itself fails, otherwise one entry per
/// item the iterator yields, either the cell or the text of the item's error.
pub uninterp spec fn h3_path_cells(origin: u64, dest: u64) -> Result<Seq<Result<u64, Seq<char>>>, Seq<char>>;

/// `text` is what `to_string` gives for the error `e` (its `Display`).
pub open spec fn local_ij_shown_as(e: &LocalIjError, text: Seq<char>) -> bool {
    forall|s: String| #[trigger] to_string_from_display_ensures::<LocalIjError>(e, s) ==> s@ == text
}

/// h3o's `CellIndex::try_from(u64)`, turned back into the `u64`.
/// Claims: it succeeds exactly on the indexes `h3_is_cell` accepts, and
/// gives back the same bits (the cell stores the value unchanged).
#[verifier::external_body]
fn h3_cell_from_u64(index: u64) -> (res: Option<u64>)
    ensures
        res == (if h3_is_cell(index) { Some(index) } else { None }),
{
    CellIndex::try_from(index).ok().map(u64::from)
}

/// The text of the error h3o's `CellIndex::from_str` gives on `text`.
pub uninterp spec fn h3_cell_text_error(text: Seq<char>) -> Seq<char>;

/// The text of h3o's cell-index error when the text is no hexadecimal
/// number (`InvalidCellIndex` with no value and this reason, displayed).
pub const INVALID_HEX_TEXT: &'static str = "invalid cell index (got None): invalid 64-bit hex number";

/// `text` is what `to_string` gives for the error `e` (its `Display`).
pub open spec fn invalid_cell_shown_as(e: &InvalidCellIndex, text: Seq<char>) -> bool {
    forall|s: String| #[trigger] to_string_from_display_ensures::<InvalidCellIndex>(e, s) ==> s@ == text
}

/// h3o's `CellIndex::from_str`, which parses `text` as a hexadecimal `u64`
/// (`u64::from_str_radix(text, 16)`) and then validates it as a cell.
/// Claims: success exactly when the hexadecimal parse succeeds on a value
/// `h3_is_cell` accepts, and the result is that value; an error displays as
/// `h3_cell_text_error(text)`, which is `INVALID_HEX_TEXT` when the text is
/// no hexadecimal number. (When the number is no valid cell, the reason
/// text comes from h3o's validation and is only named.)
#[verifier::external_body]
pub(crate) fn h3_parse_cell(text: &str) -> (res: Result<u64, InvalidCellIndex>)
    ensures
        res is Ok <==> cell_from_text(text@) is Some,
        res matches Ok(v) ==> cell_from_text(text@) == Some(v),
        res matches Err(e) ==> invalid_cell_shown_as(&e, h3_cell_text_error(text@)),
        res is Err && parse_hex_u64(text@) is None ==> h3_cell_text_error(text@) == INVALID_HEX_TEXT@,
{
    text.parse::<CellIndex>().map(u64::from)
}

/// h3o's `CellIndex::grid_path_cells` from `origin` to `dest`, with every
/// item the iterator yields collected and each cell turned into its `u64`.
/// Claims: the outcome, cells and error texts alike, is
/// `h3_path_cells(origin, dest)`; a successful call yields at least one
/// item (the iterator runs over `0..=distance`); every yielded cell is a
/// valid cell; the line includes both ends, so a first item that is a cell
/// is `origin` and a last item that is a cell is `dest`.
#[verifier::external_body]
fn h3_grid_path_cells(origin: u64, dest: u64) -> (res: Result<Vec<Result<u64, LocalIjError>>, LocalIjError>)
    requires
        h3_is_cell(origin),
        h3_is_cell(dest),
    ensures
        match res {
            Ok(items) => h3_path_cells(origin, dest) matches Ok(named) && {
                &&& named.len() == items.len()
                &&& items.len() >= 1
                &&& forall|k: int|
                    0 <= k < items.len() ==> match #[trigger] items@[k] {
                        Ok(c) => named[k] == Ok::<u64, Seq<char>>(c) && h3_is_cell(c),
                        Err(e) => named[k] is Err && local_ij_shown_as(&e, named[k]->Err_0),
                    }
                &&& items@[0] matches Ok(c) ==> c == origin
                &&& items@[items.len() - 1] matches Ok(c) ==> c == dest
            },
            Err(e) => h3_path_cells(origin, dest) matches Err(text) && local_ij_shown_as(&e, text),
        },
{
    let o = CellIndex::try_from(origin).expect("origin is a valid cell");
    let d = CellIndex::try_from(dest).expect("destination is a valid cell");
    o.grid_path_cells(d).map(|items| items.map(|item| item.map(u64::from)).collect())
}

/// `str::trim`: drops leading and trailing Unicode `White_Space` characters.
#[verifier::external_body]
pub(crate) fn trim_white_space(text: &str) -> (res: &str)
    ensures
        res@ == trimmed(text@),
{
    text.trim()
}

/// The characters with the Unicode `White_Space` property.
pub open spec fn is_white_space(c: char) -> bool {
    ||| ('\u{9}' <= c && c <= '\u{d}')
    ||| c == ' '
    ||| c == '\u{85}'
    ||| c == '\u{a0}'
    ||| c == '\u{1680}'
    ||| ('\u{2000}' <= c && c <= '\u{200a}')
    ||| c == '\u{2028}'
    ||| c == '\u{2029}'
    ||| c == '\u{202f}'
    ||| c == '\u{205f}'
    ||| c == '\u{3000}'
}

/// `s` without its leading white space.
pub open spec fn trim_start(s: Seq<char>) -> Seq<char>
    decreases s.len(),
{
    if s.len() > 0 && is_white_space(s[0]) {
        trim_start(s.drop_first())
    } else {
        s
    }
}

/// `s` without its trailing white space.
pub open spec fn trim_end(s: Seq<char>) -> Seq<char>
    decreases s.len(),
{
    if s.len() > 0 && is_white_space(s.last()) {
        trim_end(s.drop_last())
    } else {
        s
    }
}

/// `s` without leading and trailing white space.
pub open spec fn trimmed(s: Seq<char>) -> Seq<char> {
    trim_end(trim_start(s))
}

/// The value of a hexadecimal digit (either case).
pub open spec fn hex_digit(c: char) -> Option<nat> {
    if '0' <= c && c <= '9' {
        Some((c as nat - '0' as nat) as nat)
    } else if 'a' <= c && c <= 'f' {
        Some((c as nat - 'a' as nat + 10) as nat)
    } else if 'A' <= c && c <= 'F' {
        Some((c as nat - 'A' as nat + 10) as nat)
    } else {
        None
    }
}

/// The number written by a string of hexadecimal digits, most significant
/// first (`Some(0)` for no digits).
pub open spec fn hex_value(s: Seq<char>) -> Option<nat>
    decreases s.len(),
{
    if s.len() == 0 {
        Some(0)
    } else {
        match (hex_value(s.drop_last()), hex_digit(s.last())) {
            (Some(high), Some(low)) => Some(high * 16 + low),
            _ => None,
        }
    }
}

/// `u64::from_str_radix(s, 16)`: an optional `+` followed by at least one
/// hexadecimal digit, whose value fits in 64 bits.
pub open spec fn parse_hex_u64(s: Seq<char>) -> Option<u64> {
    let digits = if s.len() > 0 && s[0] == '+' { s.drop_first() } else { s };
    if digits.len() == 0 {
        None
    } else {
        match hex_value(digits) {
            Some(v) => if v <= u64::MAX { Some(v as u64) } else { None },
            None => None,
        }
    }
}

/// The cell that `text` names: its hexadecimal value, when that is a valid
/// cell index.
pub open spec fn cell_from_text(text: Seq<char>) -> Option<u64> {
    match parse_hex_u64(text) {
        Some(v) => if h3_is_cell(v) { Some(v) } else { None },
        None => None,
    }
}

/// A valid H3 cell, held as its 64-bit index.
#[derive(Clone, Copy, Debug, PartialEq, Eq, Hash)]
pub struct Cell {
    index: u64,
}

impl View for Cell {
    type V = u64;

    closed spec fn view(&self) -> u64 {
        self.index
    }
}

impl Cell {
    #[verifier::type_invariant]
    closed spec fn is_valid(self) -> bool {
        h3_is_cell(self.index)
    }

    /// The cell with 64-bit index `index`, if that is a valid cell index.
    pub fn from_index(index: u64) -> (res: Option<Cell>)
        ensures
            res is Some <==> h3_is_cell(index),
            res matches Some(c) ==> c@ == index,
    {
        match h3_cell_from_u64(index) {
            Some(v) => Some(Cell { index: v }),
            None => None,
        }
    }

    /// The 64-bit index of this cell.
    pub fn index(&self) -> (res: u64)
        ensures
            res == self@,
            h3_is_cell(res),
    {
        proof {
            use_type_invariant(self);
        }
        self.index
    }
}

/// Start of the error returned when h3o cannot trace a path at all.
pub const GRID_PATH_ERROR: &'static str = "grid path error: ";

/// Start of the error returned when h3o fails on a cell of the path.
pub const GRID_PATH_CELL_ERROR: &'static str = "grid path cell error: ";

/// Every item of a traced path is a cell.
pub open spec fn all_cells(items: Seq<Result<u64, Seq<char>>>) -> bool {
    forall|k: int| 0 <= k < items.len() ==> (#[trigger] items[k]) is Ok
}

/// Item `k` is the first item of a traced path that is an error.
pub open spec fn first_bad_item(items: Seq<Result<u64, Seq<char>>>, k: int) -> bool {
    &&& 0 <= k < items.len()
    &&& items[k] is Err
    &&& forall|j: int| 0 <= j < k ==> (#[trigger] items[j]) is Ok
}

/// A path fails on a cell exactly when one of its items is an error, and
/// the first such item is the one before which every item is a cell.
pub proof fn lemma_path_items(items: Seq<Result<u64, Seq<char>>>, k: int)
    ensures
        all_cells(items) <==> forall|j: int| 0 <= j < items.len() ==> (#[trigger] items[j]) is Ok,
        first_bad_item(items, k) <==> (0 <= k < items.len() && items[k] is Err && forall|j: int|
            0 <= j < k ==> (#[trigger] items[j]) is Ok),
{
}

/// Get the grid path (line of cells) between two H3 cells, both included.
///
/// Succeeds exactly when h3o traces the line and every cell of it. The
/// error is `GRID_PATH_ERROR` followed by h3o's error text when the trace
/// fails, and `GRID_PATH_CELL_ERROR` followed by the error text of the first
/// failing cell otherwise.
pub fn grid_path(origin: Cell, dest: Cell) -> (res: Result<Vec<Cell>, String>)
    ensures
        match h3_path_cells(origin@, dest@) {
            Err(text) => res matches Err(m) && m@ == GRID_PATH_ERROR@ + text,
            Ok(items) => if all_cells(items) {
                res matches Ok(path) && {
                    &&& path@.map_values(|c: Cell| c@) == items.map_values(|it: Result<u64, Seq<char>>| it->Ok_0)
                    &&& path.len() >= 1
                    &&& path@[0]@ == origin@
                    &&& path@[path.len() - 1]@ == dest@
                }
            } else {
                res matches Err(m) && exists|k: int|
                    #[trigger] first_bad_item(items, k) && m@ == GRID_PATH_CELL_ERROR@ + items[k]->Err_0
            },
        },
{
    proof {
        use_type_invariant(&origin);
        use_type_invariant(&dest);
    }
    let items = match h3_grid_path_cells(origin.index, dest.index) {
        Ok(items) => items,
        Err(e) => {
            let detail = e.to_string();
            let message = String::from_str(GRID_PATH_ERROR).concat(detail.as_str());
            return Err(message);
        },
    };
    let ghost named = h3_path_cells(origin@, dest@)->Ok_0;
    let mut path: Vec<Cell> = Vec::new();
    let mut k: usize = 0;
    while k < items.len()
        invariant
            k <= items.len(),
            items.len() >= 1,
            h3_path_cells(origin@, dest@) == Ok::<Seq<Result<u64, Seq<char>>>, Seq<char>>(named),
            named.len() == items.len(),
            forall|m: int|
                0 <= m < items.len() ==> match #[trigger] items@[m] {
                    Ok(c) => named[m] == Ok::<u64, Seq<char>>(c) && h3_is_cell(c),
                    Err(e) => named[m] is Err && local_ij_shown_as(&e, named[m]->Err_0),
                },
            items@[0] matches Ok(c) ==> c == origin@,
            items@[items.len() - 1] matches Ok(c) ==> c == dest@,
            path.len() == k,
            forall|m: int| 0 <= m < k ==> named[m] == Ok::<u64, Seq<char>>(#[trigger] path@[m]@),
        decreases items.len() - k,
    {
        match &items[k] {
            Ok(c) => {
                path.push(Cell { index: *c });
            },
            Err(e) => {
                let detail = e.to_string();
                let message = String::from_str(GRID_PATH_CELL_ERROR).concat(detail.as_str());
                proof {
                    assert(named[k as int] is Err);
                    assert forall|j: int| 0 <= j < k implies (#[trigger] named[j]) is Ok by {
                        assert(named[j] == Ok::<u64, Seq<char>>(path@[j]@));
                    }
                    assert(first_bad_item(named, k as int));
                    assert(!all_cells(named));
                }
                return Err(message);
            },
        }
        k = k + 1;
    }
    proof {
        assert forall|m: int| 0 <= m < named.len() implies (#[trigger] named[m]) is Ok by {
            assert(named[m] == Ok::<u64, Seq<char>>(path@[m]@));
        }
        assert(path@.map_values(|c: Cell| c@) =~= named.map_values(|it: Result<u64, Seq<char>>| it->Ok_0));
        assert(named[0] == Ok::<u64, Seq<char>>(path@[0]@));
        assert(named[path.len() - 1] == Ok::<u64, Seq<char>>(path@[path.len() - 1]@));
    }
    Ok(path)
}

} // verus!
