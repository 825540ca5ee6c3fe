//! The two transforms that undo the transport encodings of a table:
//! delta decoding of an identifier column, and the stable reordering of the
//! rows by parent identifier.

use crate::payload::PayloadType;
use crate::table::{
    cell_conforms, cells_view, columns_view, field_position, lemma_field_position, Cell, CellValue,
    Schema, Table, TableView,
};
use crate::order::{
    gather, key_values, lemma_equal_keys_keep_their_order, lemma_gather_keeps_items,
    lemma_stable_order_ascends,
    lemma_stable_order_is_permutation, lemma_stable_order_of_ascending, positions, stable_order,
    stable_sort_order,
};
use vstd::prelude::*;

verus! {

/// Why a table could not be normalised.
#[derive(Clone, Copy, Debug, PartialEq, Eq, Structural)]
pub enum NormalizeError {
    /// The table has no column of the expected name.
    MissingColumn,
    /// The column is not of an integer type.
    UnsupportedType,
    /// The column holds a null.
    NullIdentifier,
    /// A value leaves the range of the column's type.
    Overflow,
}

/// The integer that a cell holds; 0 for a cell that holds none.
pub open spec fn int_of(cell: CellValue) -> int {
    match cell {
        CellValue::Int(v) => v,
        _ => 0,
    }
}

/// The integers of a column, cell by cell.
pub open spec fn ints_of(cells: Seq<CellValue>) -> Seq<int> {
    Seq::new(cells.len(), |r: int| int_of(cells[r]))
}

/// The column of integer cells with the given values.
pub open spec fn int_cells(values: Seq<int>) -> Seq<CellValue> {
    Seq::new(values.len(), |r: int| CellValue::Int(values[r]))
}

/// The table with column `c` replaced.
pub open spec fn replace_column(t: TableView, c: int, cells: Seq<CellValue>) -> TableView {
    TableView { fields: t.fields, columns: t.columns.update(c, cells), rows: t.rows }
}

/// The sum of the first `n` values.
pub open spec fn prefix_sum(values: Seq<int>, n: int) -> int
    decreases n,
{
    if n <= 0 {
        0
    } else {
        prefix_sum(values, n - 1) + values[n - 1]
    }
}

/// The absolute values that a sequence of deltas stands for: each is the sum
/// of the deltas up to and including its own.
pub open spec fn delta_decoded(deltas: Seq<int>) -> Seq<int> {
    Seq::new(deltas.len(), |r: int| prefix_sum(deltas, r + 1))
}

/// The deltas that stand for a sequence of absolute values: the first value,
/// then the difference of each value from the one before it.
pub open spec fn delta_encoded(values: Seq<int>) -> Seq<int> {
    Seq::new(
        values.len(),
        |r: int|
            if r == 0 {
                values[0]
            } else {
                values[r] - values[r - 1]
            },
    )
}

/// Row `k` of a delta column cannot be decoded: it is null, or the sum of the
/// deltas up to it leaves the range from `lo` to `hi`.
pub open spec fn delta_fault(cells: Seq<CellValue>, lo: int, hi: int, k: int) -> bool {
    cells[k] is Null || !(lo <= prefix_sum(ints_of(cells), k + 1) <= hi)
}

/// Row `k` is the first that cannot be decoded.
pub open spec fn is_first_delta_fault(cells: Seq<CellValue>, lo: int, hi: int, k: int) -> bool {
    &&& 0 <= k < cells.len()
    &&& delta_fault(cells, lo, hi, k)
    &&& forall|j: int| 0 <= j < k ==> !#[trigger] delta_fault(cells, lo, hi, j)
}

/// Some row of the delta column cannot be decoded.
pub open spec fn has_delta_fault(cells: Seq<CellValue>, lo: int, hi: int) -> bool {
    exists|k: int| is_first_delta_fault(cells, lo, hi, k)
}

/// The first row that cannot be decoded.
pub open spec fn first_delta_fault(cells: Seq<CellValue>, lo: int, hi: int) -> int {
    choose|k: int| is_first_delta_fault(cells, lo, hi, k)
}

/// What delta decoding makes of a table. The named column is looked up, must
/// be of an integer type, and is read in row order. The first row that is
/// null or whose running sum leaves the range of the type decides the error.
/// Where there is none, the column holds the running sums and the rest of
/// the table is as it was.
pub open spec fn spec_delta_decode(t: TableView, name: Seq<char>) -> Result<
    TableView,
    NormalizeError,
> {
    let c = field_position(t.fields, name);
    if c < 0 {
        Err(NormalizeError::MissingColumn)
    } else if !t.fields[c].data_type.spec_is_integer() {
        Err(NormalizeError::UnsupportedType)
    } else {
        let lo = t.fields[c].data_type.min_value();
        let hi = t.fields[c].data_type.max_value();
        let cells = t.columns[c];
        if has_delta_fault(cells, lo, hi) {
            if cells[first_delta_fault(cells, lo, hi)] is Null {
                Err(NormalizeError::NullIdentifier)
            } else {
                Err(NormalizeError::Overflow)
            }
        } else {
            Ok(replace_column(t, c, int_cells(delta_decoded(ints_of(cells)))))
        }
    }
}

/// Row `k` of a column of absolute values cannot be encoded: it is null, or
/// its difference from the row before leaves the range from `lo` to `hi`.
pub open spec fn encode_fault(cells: Seq<CellValue>, lo: int, hi: int, k: int) -> bool {
    cells[k] is Null || !(lo <= delta_encoded(ints_of(cells))[k] <= hi)
}

/// Row `k` is the first that cannot be encoded.
pub open spec fn is_first_encode_fault(cells: Seq<CellValue>, lo: int, hi: int, k: int) -> bool {
    &&& 0 <= k < cells.len()
    &&& encode_fault(cells, lo, hi, k)
    &&& forall|j: int| 0 <= j < k ==> !#[trigger] encode_fault(cells, lo, hi, j)
}

/// Some row of the column cannot be encoded.
pub open spec fn has_encode_fault(cells: Seq<CellValue>, lo: int, hi: int) -> bool {
    exists|k: int| is_first_encode_fault(cells, lo, hi, k)
}

/// The first row that cannot be encoded.
pub open spec fn first_encode_fault(cells: Seq<CellValue>, lo: int, hi: int) -> int {
    choose|k: int| is_first_encode_fault(cells, lo, hi, k)
}

/// What delta encoding makes of a table: the named integer column holds the
/// first value and then the successive differences. The first row that is
/// null or whose difference leaves the range of the type decides the error.
pub open spec fn spec_delta_encode(t: TableView, name: Seq<char>) -> Result<
    TableView,
    NormalizeError,
> {
    let c = field_position(t.fields, name);
    if c < 0 {
        Err(NormalizeError::MissingColumn)
    } else if !t.fields[c].data_type.spec_is_integer() {
        Err(NormalizeError::UnsupportedType)
    } else {
        let lo = t.fields[c].data_type.min_value();
        let hi = t.fields[c].data_type.max_value();
        let cells = t.columns[c];
        if has_encode_fault(cells, lo, hi) {
            if cells[first_encode_fault(cells, lo, hi)] is Null {
                Err(NormalizeError::NullIdentifier)
            } else {
                Err(NormalizeError::Overflow)
            }
        } else {
            Ok(replace_column(t, c, int_cells(delta_encoded(ints_of(cells)))))
        }
    }
}

/// A first fault is the only first fault.
proof fn lemma_first_delta_fault(cells: Seq<CellValue>, lo: int, hi: int, k: int)
    requires
        is_first_delta_fault(cells, lo, hi, k),
    ensures
        has_delta_fault(cells, lo, hi),
        first_delta_fault(cells, lo, hi) == k,
{
    let f = first_delta_fault(cells, lo, hi);
    assert(is_first_delta_fault(cells, lo, hi, f));
    if f < k {
        assert(!delta_fault(cells, lo, hi, f));
    }
    if k < f {
        assert(!delta_fault(cells, lo, hi, k));
    }
}

/// A first fault is the only first fault.
proof fn lemma_first_encode_fault(cells: Seq<CellValue>, lo: int, hi: int, k: int)
    requires
        is_first_encode_fault(cells, lo, hi, k),
    ensures
        has_encode_fault(cells, lo, hi),
        first_encode_fault(cells, lo, hi) == k,
{
    let f = first_encode_fault(cells, lo, hi);
    assert(is_first_encode_fault(cells, lo, hi, f));
    if f < k {
        assert(!encode_fault(cells, lo, hi, f));
    }
    if k < f {
        assert(!encode_fault(cells, lo, hi, k));
    }
}

/// A column without a faulty row has no first fault.
proof fn lemma_no_delta_fault(cells: Seq<CellValue>, lo: int, hi: int)
    requires
        forall|j: int| 0 <= j < cells.len() ==> !#[trigger] delta_fault(cells, lo, hi, j),
    ensures
        !has_delta_fault(cells, lo, hi),
{
}

/// A column without a faulty row has no first fault.
proof fn lemma_no_encode_fault(cells: Seq<CellValue>, lo: int, hi: int)
    requires
        forall|j: int| 0 <= j < cells.len() ==> !#[trigger] encode_fault(cells, lo, hi, j),
    ensures
        !has_encode_fault(cells, lo, hi),
{
}

/// Replacing an integer column by integer cells within the range of its type
/// keeps a table well formed.
proof fn lemma_replace_keeps_wf(t: TableView, c: int, values: Seq<int>)
    requires
        t.wf(),
        0 <= c < t.columns.len(),
        t.fields[c].data_type.spec_is_integer(),
        values.len() == t.rows,
        forall|r: int|
            0 <= r < values.len() ==> t.fields[c].data_type.min_value() <= #[trigger] values[r]
                <= t.fields[c].data_type.max_value(),
    ensures
        replace_column(t, c, int_cells(values)).wf(),
{
    let out = replace_column(t, c, int_cells(values));
    assert forall|k: int, r: int| 0 <= k < out.columns.len() && 0 <= r < out.rows implies cell_conforms(
        out.fields[k],
        #[trigger] out.columns[k][r],
    ) by {
        if k == c {
            assert(out.columns[k][r] == CellValue::Int(values[r]));
        } else {
            assert(out.columns[k] == t.columns[k]);
        }
    }
}

/// Applies a column-wise result to a table: the parts of the table with the
/// column at `c` replaced.
fn with_column(schema: Schema, columns: Vec<Vec<Cell>>, rows: usize, c: usize, cells: Vec<Cell>) -> (t:
    Table)
    requires
        c < columns@.len(),
        replace_column(
            TableView { fields: schema@, columns: columns_view(columns@), rows: rows as nat },
            c as int,
            cells_view(cells@),
        ).wf(),
    ensures
        t@ == replace_column(
            TableView { fields: schema@, columns: columns_view(columns@), rows: rows as nat },
            c as int,
            cells_view(cells@),
        ),
{
    let mut columns = columns;
    let ghost before = columns@;
    columns[c] = cells;
    assert(columns_view(columns@) =~= columns_view(before).update(c as int, cells_view(cells@)));
    Table::from_parts(schema, columns, rows)
}

/// Reverses the delta encoding of the named identifier column: every row
/// gets the sum of the deltas up to and including its own, computed in row
/// order at the width of the column's type.
///
/// A table without the column, a column that is not of an integer type, a
/// null and a sum outside the range of the type are errors, and then no
/// table is returned.
#[verifier::loop_isolation(false)]
pub fn delta_decode(table: Table, column: &str) -> (r: Result<Table, NormalizeError>)
    ensures
        match r {
            Ok(out) => spec_delta_decode(table@, column@) == Ok::<TableView, NormalizeError>(out@),
            Err(e) => spec_delta_decode(table@, column@) == Err::<TableView, NormalizeError>(e),
        },
{
    let ghost t = table@;
    let (schema, columns, rows) = table.into_parts();
    proof {
        lemma_field_position(t.fields, column@);
    }
    let c = match schema.index_of(column) {
        Some(c) => c,
        None => {
            return Err(NormalizeError::MissingColumn);
        },
    };
    let (lo, hi) = match schema.fields[c].data_type.int_bounds() {
        Some(bounds) => bounds,
        None => {
            return Err(NormalizeError::UnsupportedType);
        },
    };
    let ghost cells = t.columns[c as int];
    let ghost deltas = ints_of(cells);
    let source = &columns[c];
    assert(cells_view(source@) == cells);
    let mut out: Vec<Cell> = Vec::new();
    let mut acc: i128 = 0;
    let mut k: usize = 0;
    while k < rows
        invariant
            k <= rows,
            t.wf(),
            0 <= c < t.columns.len(),
            cells == t.columns[c as int],
            cells.len() == rows,
            cells_view(source@) == cells,
            deltas == ints_of(cells),
            t.fields[c as int].data_type.spec_is_integer(),
            lo == t.fields[c as int].data_type.min_value(),
            hi == t.fields[c as int].data_type.max_value(),
            acc == prefix_sum(deltas, k as int),
            lo <= acc <= hi,
            out@.len() == k,
            forall|j: int| 0 <= j < k ==> !#[trigger] delta_fault(cells, lo as int, hi as int, j),
            forall|j: int|
                0 <= j < k ==> (#[trigger] out@[j])@ == CellValue::Int(prefix_sum(deltas, j + 1)),
        decreases rows - k,
    {
        assert(cells[k as int] == source@[k as int]@);
        assert(cell_conforms(t.fields[c as int], t.columns[c as int][k as int]));
        match &source[k] {
            Cell::Int(d) => {
                let next = acc + *d;
                assert(next == prefix_sum(deltas, k + 1));
                if next < lo || next > hi {
                    proof {
                        assert(delta_fault(cells, lo as int, hi as int, k as int));
                        lemma_first_delta_fault(cells, lo as int, hi as int, k as int);
                    }
                    return Err(NormalizeError::Overflow);
                }
                acc = next;
                out.push(Cell::Int(acc));
            },
            _ => {
                proof {
                    assert(cells[k as int] is Null);
                    lemma_first_delta_fault(cells, lo as int, hi as int, k as int);
                }
                return Err(NormalizeError::NullIdentifier);
            },
        }
        k += 1;
    }
    proof {
        lemma_no_delta_fault(cells, lo as int, hi as int);
        assert(cells_view(out@) =~= int_cells(delta_decoded(deltas)));
        assert forall|r: int| 0 <= r < rows implies lo <= #[trigger] delta_decoded(deltas)[r]
            <= hi by {
            assert(!delta_fault(cells, lo as int, hi as int, r));
        }
        lemma_replace_keeps_wf(t, c as int, delta_decoded(deltas));
    }
    Ok(with_column(schema, columns, rows, c, out))
}

/// Encodes the named identifier column as deltas: the first row keeps its
/// value and every later row gets its difference from the row before.
///
/// A table without the column, a column that is not of an integer type, a
/// null and a difference outside the range of the type are errors.
#[verifier::loop_isolation(false)]
pub fn delta_encode(table: Table, column: &str) -> (r: Result<Table, NormalizeError>)
    ensures
        match r {
            Ok(out) => spec_delta_encode(table@, column@) == Ok::<TableView, NormalizeError>(out@),
            Err(e) => spec_delta_encode(table@, column@) == Err::<TableView, NormalizeError>(e),
        },
{
    let ghost t = table@;
    let (schema, columns, rows) = table.into_parts();
    proof {
        lemma_field_position(t.fields, column@);
    }
    let c = match schema.index_of(column) {
        Some(c) => c,
        None => {
            return Err(NormalizeError::MissingColumn);
        },
    };
    let (lo, hi) = match schema.fields[c].data_type.int_bounds() {
        Some(bounds) => bounds,
        None => {
            return Err(NormalizeError::UnsupportedType);
        },
    };
    let ghost cells = t.columns[c as int];
    let ghost values = ints_of(cells);
    let source = &columns[c];
    assert(cells_view(source@) == cells);
    let mut out: Vec<Cell> = Vec::new();
    let mut previous: i128 = 0;
    let mut k: usize = 0;
    while k < rows
        invariant
            k <= rows,
            t.wf(),
            0 <= c < t.columns.len(),
            cells == t.columns[c as int],
            cells.len() == rows,
            cells_view(source@) == cells,
            values == ints_of(cells),
            t.fields[c as int].data_type.spec_is_integer(),
            lo == t.fields[c as int].data_type.min_value(),
            hi == t.fields[c as int].data_type.max_value(),
            k > 0 ==> previous == values[k - 1],
            k == 0 ==> previous == 0,
            lo <= previous <= hi,
            out@.len() == k,
            forall|j: int| 0 <= j < k ==> !#[trigger] encode_fault(cells, lo as int, hi as int, j),
            forall|j: int|
                0 <= j < k ==> (#[trigger] out@[j])@ == CellValue::Int(delta_encoded(values)[j]),
        decreases rows - k,
    {
        assert(cells[k as int] == source@[k as int]@);
        assert(cell_conforms(t.fields[c as int], t.columns[c as int][k as int]));
        match &source[k] {
            Cell::Int(v) => {
                let delta = *v - previous;
                assert(delta == delta_encoded(values)[k as int]);
                if delta < lo || delta > hi {
                    proof {
                        assert(encode_fault(cells, lo as int, hi as int, k as int));
                        lemma_first_encode_fault(cells, lo as int, hi as int, k as int);
                    }
                    return Err(NormalizeError::Overflow);
                }
                previous = *v;
                out.push(Cell::Int(delta));
            },
            _ => {
                proof {
                    assert(cells[k as int] is Null);
                    lemma_first_encode_fault(cells, lo as int, hi as int, k as int);
                }
                return Err(NormalizeError::NullIdentifier);
            },
        }
        k += 1;
    }
    proof {
        lemma_no_encode_fault(cells, lo as int, hi as int);
        assert(cells_view(out@) =~= int_cells(delta_encoded(values)));
        assert forall|r: int| 0 <= r < rows implies lo <= #[trigger] delta_encoded(values)[r]
            <= hi by {
            assert(!encode_fault(cells, lo as int, hi as int, r));
        }
        lemma_replace_keeps_wf(t, c as int, delta_encoded(values));
    }
    Ok(with_column(schema, columns, rows, c, out))
}

/// The first decoded value is the first delta, and every later one is the
/// decoded value before it plus its own delta.
pub proof fn lemma_decoded_recurrence(deltas: Seq<int>, r: int)
    requires
        0 <= r < deltas.len(),
    ensures
        r == 0 ==> delta_decoded(deltas)[r] == deltas[0],
        r > 0 ==> delta_decoded(deltas)[r] == delta_decoded(deltas)[r - 1] + deltas[r],
{
    reveal_with_fuel(prefix_sum, 2);
}

/// The deltas of a sequence sum up to its values.
pub proof fn lemma_prefix_sum_of_encoded(values: Seq<int>, n: int)
    requires
        0 <= n <= values.len(),
    ensures
        prefix_sum(delta_encoded(values), n) == if n == 0 {
            0
        } else {
            values[n - 1]
        },
    decreases n,
{
    if n > 0 {
        lemma_prefix_sum_of_encoded(values, n - 1);
    }
}

/// Decoding the deltas of a sequence of integers gives the sequence back.
pub proof fn lemma_decode_of_encode(values: Seq<int>)
    ensures
        delta_decoded(delta_encoded(values)) == values,
{
    assert forall|r: int| 0 <= r < values.len() implies delta_decoded(delta_encoded(values))[r]
        == values[r] by {
        lemma_prefix_sum_of_encoded(values, r + 1);
    }
    assert(delta_decoded(delta_encoded(values)) =~= values);
}

/// Encoding the values that a sequence of deltas stands for gives the deltas
/// back.
pub proof fn lemma_encode_of_decode(deltas: Seq<int>)
    ensures
        delta_encoded(delta_decoded(deltas)) == deltas,
{
    assert forall|r: int| 0 <= r < deltas.len() implies delta_encoded(delta_decoded(deltas))[r]
        == deltas[r] by {
        lemma_decoded_recurrence(deltas, r);
    }
    assert(delta_encoded(delta_decoded(deltas)) =~= deltas);
}

/// Round trip: where a table can be delta encoded, decoding the encoded table
/// gives the table back, in every cell.
pub proof fn lemma_delta_round_trip(t: TableView, name: Seq<char>)
    requires
        t.wf(),
        spec_delta_encode(t, name) is Ok,
    ensures
        spec_delta_encode(t, name) matches Ok(encoded) && spec_delta_decode(encoded, name) == Ok::<
            TableView,
            NormalizeError,
        >(t),
{
    lemma_field_position(t.fields, name);
    let c = field_position(t.fields, name);
    let lo = t.fields[c].data_type.min_value();
    let hi = t.fields[c].data_type.max_value();
    let cells = t.columns[c];
    let values = ints_of(cells);
    let deltas = delta_encoded(values);
    let encoded = replace_column(t, c, int_cells(deltas));
    assert(spec_delta_encode(t, name) == Ok::<TableView, NormalizeError>(encoded));
    assert(ints_of(int_cells(deltas)) =~= deltas);
    assert forall|k: int| 0 <= k < cells.len() implies cells[k] == CellValue::Int(values[k]) && lo
        <= values[k] <= hi by {
        if encode_fault(cells, lo, hi, k) {
            let first = choose_first_encode_fault(cells, lo, hi, k);
            assert(has_encode_fault(cells, lo, hi));
        }
        assert(cell_conforms(t.fields[c], t.columns[c][k]));
    }
    assert forall|k: int| 0 <= k < cells.len() implies !#[trigger] delta_fault(
        int_cells(deltas),
        lo,
        hi,
        k,
    ) by {
        lemma_prefix_sum_of_encoded(values, k + 1);
    }
    lemma_no_delta_fault(int_cells(deltas), lo, hi);
    lemma_decode_of_encode(values);
    assert(int_cells(values) =~= cells);
    assert(encoded.columns.update(c, cells) =~= t.columns);
}

/// The first fault at or before a faulty row.
proof fn choose_first_encode_fault(cells: Seq<CellValue>, lo: int, hi: int, k: int) -> (first: int)
    requires
        0 <= k < cells.len(),
        encode_fault(cells, lo, hi, k),
    ensures
        is_first_encode_fault(cells, lo, hi, first),
        first <= k,
    decreases k,
{
    if exists|j: int| 0 <= j < k && encode_fault(cells, lo, hi, j) {
        let j = choose|j: int| 0 <= j < k && encode_fault(cells, lo, hi, j);
        choose_first_encode_fault(cells, lo, hi, j)
    } else {
        k
    }
}

/// The first fault at or before a faulty row.
proof fn choose_first_delta_fault(cells: Seq<CellValue>, lo: int, hi: int, k: int) -> (first: int)
    requires
        0 <= k < cells.len(),
        delta_fault(cells, lo, hi, k),
    ensures
        is_first_delta_fault(cells, lo, hi, first),
        first <= k,
    decreases k,
{
    if exists|j: int| 0 <= j < k && delta_fault(cells, lo, hi, j) {
        let j = choose|j: int| 0 <= j < k && delta_fault(cells, lo, hi, j);
        choose_first_delta_fault(cells, lo, hi, j)
    } else {
        k
    }
}

/// Identifiers that never decrease, in a column of an unsigned type without
/// nulls, can always be delta encoded.
pub proof fn lemma_ascending_ids_encode(t: TableView, name: Seq<char>)
    requires
        t.wf(),
        field_position(t.fields, name) >= 0,
        t.fields[field_position(t.fields, name)].data_type.spec_is_unsigned(),
        forall|r: int|
            0 <= r < t.rows ==> !((#[trigger] t.columns[field_position(t.fields, name)][r]) is Null),
        forall|i: int, j: int|
            0 <= i <= j < t.rows ==> int_of(t.columns[field_position(t.fields, name)][i]) <= int_of(
                t.columns[field_position(t.fields, name)][j],
            ),
    ensures
        spec_delta_encode(t, name) is Ok,
{
    lemma_field_position(t.fields, name);
    let c = field_position(t.fields, name);
    let lo = t.fields[c].data_type.min_value();
    let hi = t.fields[c].data_type.max_value();
    let cells = t.columns[c];
    assert forall|k: int| 0 <= k < cells.len() implies !#[trigger] encode_fault(cells, lo, hi, k) by {
        assert(cell_conforms(t.fields[c], t.columns[c][k]));
        if k > 0 {
            assert(cell_conforms(t.fields[c], t.columns[c][k - 1]));
            assert(int_of(cells[k - 1]) <= int_of(cells[k]));
        }
    }
    lemma_no_encode_fault(cells, lo, hi);
}

/// Overflow rejection: where the column has no null and some running sum of
/// its deltas leaves the range of its type, delta decoding fails with
/// `Overflow` and returns no table.
pub proof fn lemma_overflow_is_rejected(t: TableView, name: Seq<char>, k: int)
    requires
        t.wf(),
        field_position(t.fields, name) >= 0,
        t.fields[field_position(t.fields, name)].data_type.spec_is_integer(),
        forall|r: int|
            0 <= r < t.rows ==> !((#[trigger] t.columns[field_position(t.fields, name)][r]) is Null),
        0 <= k < t.rows,
        !(t.fields[field_position(t.fields, name)].data_type.min_value() <= prefix_sum(
            ints_of(t.columns[field_position(t.fields, name)]),
            k + 1,
        ) <= t.fields[field_position(t.fields, name)].data_type.max_value()),
    ensures
        spec_delta_decode(t, name) == Err::<TableView, NormalizeError>(NormalizeError::Overflow),
{
    lemma_field_position(t.fields, name);
    let c = field_position(t.fields, name);
    let lo = t.fields[c].data_type.min_value();
    let hi = t.fields[c].data_type.max_value();
    let cells = t.columns[c];
    assert(delta_fault(cells, lo, hi, k));
    let first = choose_first_delta_fault(cells, lo, hi, k);
    lemma_first_delta_fault(cells, lo, hi, first);
}

/// The table with its rows in the given order: row `a` of the result is row
/// `order[a]` of `t`.
pub open spec fn reorder_rows(t: TableView, order: Seq<int>) -> TableView {
    TableView {
        fields: t.fields,
        columns: Seq::new(t.columns.len(), |c: int| gather(t.columns[c], order)),
        rows: t.rows,
    }
}

/// Some row of the column is null.
pub open spec fn has_null(cells: Seq<CellValue>) -> bool {
    exists|r: int| 0 <= r < cells.len() && (#[trigger] cells[r]) is Null
}

/// What sorting by the named column makes of a table. The column is looked
/// up, must be of an integer type and must hold no null. The rows then stand
/// in the stable ascending order of that column, each row as it was.
pub open spec fn spec_sort_by(t: TableView, name: Seq<char>) -> Result<TableView, NormalizeError> {
    let c = field_position(t.fields, name);
    if c < 0 {
        Err(NormalizeError::MissingColumn)
    } else if !t.fields[c].data_type.spec_is_integer() {
        Err(NormalizeError::UnsupportedType)
    } else if has_null(t.columns[c]) {
        Err(NormalizeError::NullIdentifier)
    } else {
        Ok(reorder_rows(t, stable_order(ints_of(t.columns[c]))))
    }
}

/// The name of the column that links a row to its parent.
pub open spec fn parent_id_name() -> Seq<char> {
    "parent_id"@
}

/// The name of the identifier column of a primary table.
pub open spec fn id_name() -> Seq<char> {
    "id"@
}

/// The cells of a column in the given order.
fn gather_cells(cells: &Vec<Cell>, order: &Vec<usize>) -> (out: Vec<Cell>)
    requires
        forall|a: int| 0 <= a < order@.len() ==> (#[trigger] order@[a]) < cells@.len(),
    ensures
        cells_view(out@) == gather(cells_view(cells@), positions(order@)),
{
    let mut out: Vec<Cell> = Vec::new();
    let mut a: usize = 0;
    while a < order.len()
        invariant
            a <= order@.len(),
            out@.len() == a,
            forall|b: int| 0 <= b < order@.len() ==> (#[trigger] order@[b]) < cells@.len(),
            forall|b: int| 0 <= b < a ==> (#[trigger] out@[b])@ == cells@[order@[b] as int]@,
        decreases order@.len() - a,
    {
        out.push(cells[order[a]].clone());
        a += 1;
    }
    assert(cells_view(out@) =~= gather(cells_view(cells@), positions(order@)));
    out
}

/// Reordering the rows of a well-formed table by positions of its rows, one
/// for each row, gives a well-formed table.
proof fn lemma_reorder_keeps_wf(t: TableView, order: Seq<int>)
    requires
        t.wf(),
        order.len() == t.rows,
        forall|a: int| 0 <= a < order.len() ==> 0 <= #[trigger] order[a] < t.rows,
    ensures
        reorder_rows(t, order).wf(),
{
    let out = reorder_rows(t, order);
    assert forall|c: int, r: int| 0 <= c < out.columns.len() && 0 <= r < out.rows implies cell_conforms(
        out.fields[c],
        #[trigger] out.columns[c][r],
    ) by {
        assert(0 <= order[r] < t.rows);
        assert(out.columns[c][r] == t.columns[c][order[r]]);
        assert(cell_conforms(t.fields[c], t.columns[c][order[r]]));
    }
}

/// Sorts the rows by the named integer column, ascending. Rows with the same
/// value keep the order in which they stood. No cell changes; only the order
/// of the rows does.
///
/// A table without the column, a column that is not of an integer type and
/// a null in the column are errors.
#[verifier::loop_isolation(false)]
pub fn sort_rows_by(table: Table, column: &str) -> (r: Result<Table, NormalizeError>)
    ensures
        match r {
            Ok(out) => spec_sort_by(table@, column@) == Ok::<TableView, NormalizeError>(out@),
            Err(e) => spec_sort_by(table@, column@) == Err::<TableView, NormalizeError>(e),
        },
{
    let ghost t = table@;
    let (schema, columns, rows) = table.into_parts();
    proof {
        lemma_field_position(t.fields, column@);
    }
    let c = match schema.index_of(column) {
        Some(c) => c,
        None => {
            return Err(NormalizeError::MissingColumn);
        },
    };
    if !schema.fields[c].data_type.is_integer() {
        return Err(NormalizeError::UnsupportedType);
    }
    let ghost cells = t.columns[c as int];
    let source = &columns[c];
    assert(cells_view(source@) == cells);
    let mut keys: Vec<i128> = Vec::new();
    let mut k: usize = 0;
    while k < rows
        invariant
            k <= rows,
            keys@.len() == k,
            forall|j: int| 0 <= j < k ==> !((#[trigger] cells[j]) is Null),
            forall|j: int| 0 <= j < k ==> (#[trigger] keys@[j]) as int == int_of(cells[j]),
        decreases rows - k,
    {
        assert(cells[k as int] == source@[k as int]@);
        assert(cell_conforms(t.fields[c as int], t.columns[c as int][k as int]));
        match &source[k] {
            Cell::Int(v) => {
                keys.push(*v);
            },
            _ => {
                assert(cells[k as int] is Null);
                return Err(NormalizeError::NullIdentifier);
            },
        }
        k += 1;
    }
    assert(key_values(keys@) =~= ints_of(cells));
    let order = stable_sort_order(&keys);
    let ghost o = positions(order@);
    assert(forall|a: int| 0 <= a < order@.len() ==> 0 <= #[trigger] o[a] < rows);
    let mut sorted: Vec<Vec<Cell>> = Vec::new();
    let mut i: usize = 0;
    while i < columns.len()
        invariant
            i <= columns@.len(),
            sorted@.len() == i,
            forall|j: int|
                0 <= j < i ==> cells_view((#[trigger] sorted@[j])@) == gather(t.columns[j], o),
        decreases columns@.len() - i,
    {
        assert(cells_view(columns@[i as int]@) == t.columns[i as int]);
        assert(t.columns[i as int].len() == rows);
        assert forall|a: int| 0 <= a < order@.len() implies (#[trigger] order@[a])
            < columns@[i as int]@.len() by {
            assert(0 <= o[a] < rows);
        }
        let reordered = gather_cells(&columns[i], &order);
        sorted.push(reordered);
        i += 1;
    }
    proof {
        assert(columns_view(sorted@) =~= reorder_rows(t, o).columns);
        lemma_reorder_keeps_wf(t, o);
    }
    Ok(Table::from_parts(schema, sorted, rows))
}

/// Sorts the rows of a child table by `parent_id`, ascending. Rows with the
/// same parent keep the order in which they stood. No cell changes; only the
/// order of the rows does.
pub fn sort_by_parent_id(table: Table) -> (r: Result<Table, NormalizeError>)
    ensures
        match r {
            Ok(out) => spec_sort_by(table@, parent_id_name()) == Ok::<TableView, NormalizeError>(
                out@,
            ),
            Err(e) => spec_sort_by(table@, parent_id_name()) == Err::<TableView, NormalizeError>(e),
        },
{
    sort_rows_by(table, "parent_id")
}

/// The order in which sorting by the named column reads the rows of a
/// table.
pub open spec fn sort_order(t: TableView, name: Seq<char>) -> Seq<int> {
    stable_order(ints_of(t.columns[field_position(t.fields, name)]))
}

/// Permutation: sorting changes neither the number of rows, nor the fields,
/// nor any cell. Every row of the result is a row of the table, every row of
/// the table stands in the result, and none stands there twice: the result
/// has the rows of the table, each as often as the table has it.
pub proof fn lemma_sort_is_permutation(t: TableView, name: Seq<char>)
    requires
        t.wf(),
        spec_sort_by(t, name) is Ok,
    ensures
        spec_sort_by(t, name) matches Ok(out) && {
            &&& out.wf()
            &&& out.rows == t.rows
            &&& out.fields == t.fields
            &&& out.columns.len() == t.columns.len()
            &&& sort_order(t, name).len() == t.rows
            &&& sort_order(t, name).no_duplicates()
            &&& forall|p: int| 0 <= p < t.rows ==> #[trigger] sort_order(t, name).contains(p)
            &&& forall|a: int|
                0 <= a < t.rows ==> 0 <= sort_order(t, name)[a] < t.rows && #[trigger] out.row(a)
                    == t.row(sort_order(t, name)[a])
            &&& out.row_seq().to_multiset() == t.row_seq().to_multiset()
        },
{
    lemma_field_position(t.fields, name);
    let c = field_position(t.fields, name);
    let keys = ints_of(t.columns[c]);
    let order = sort_order(t, name);
    let out = reorder_rows(t, order);
    lemma_stable_order_is_permutation(keys);
    lemma_reorder_keeps_wf(t, order);
    assert forall|a: int| 0 <= a < t.rows implies 0 <= order[a] < t.rows && #[trigger] out.row(a)
        == t.row(order[a]) by {
        assert(0 <= order[a] < keys.len());
        assert(out.row(a) =~= t.row(order[a]));
    }
    assert(out.row_seq() =~= gather(t.row_seq(), order));
    lemma_gather_keeps_items(t.row_seq(), order);
}

/// Stability: two rows with the same value in the sort column stand in the
/// sorted table in the order in which they stood before.
pub proof fn lemma_sort_is_stable(t: TableView, name: Seq<char>, i: int, j: int)
    requires
        t.wf(),
        spec_sort_by(t, name) is Ok,
        0 <= i < j < t.rows,
        t.columns[field_position(t.fields, name)][i] == t.columns[field_position(t.fields, name)][j],
    ensures
        spec_sort_by(t, name) matches Ok(out) && exists|a: int, b: int|
            {
                &&& 0 <= a < b < t.rows
                &&& sort_order(t, name)[a] == i
                &&& sort_order(t, name)[b] == j
                &&& out.row(a) == t.row(i)
                &&& out.row(b) == t.row(j)
            },
{
    lemma_field_position(t.fields, name);
    let c = field_position(t.fields, name);
    let keys = ints_of(t.columns[c]);
    let order = sort_order(t, name);
    let out = reorder_rows(t, order);
    lemma_equal_keys_keep_their_order(keys, i, j);
    let (a, b) = choose|a: int, b: int|
        0 <= a < b < keys.len() && stable_order(keys)[a] == i && stable_order(keys)[b] == j;
    lemma_sort_is_permutation(t, name);
    assert(out.row(a) == t.row(order[a]));
    assert(out.row(b) == t.row(order[b]));
}

/// The sort column of a sorted table ascends.
pub proof fn lemma_sorted_column_ascends(t: TableView, name: Seq<char>, a: int, b: int)
    requires
        t.wf(),
        spec_sort_by(t, name) is Ok,
        0 <= a <= b < t.rows,
    ensures
        spec_sort_by(t, name) matches Ok(out) && int_of(out.columns[field_position(t.fields, name)][a])
            <= int_of(out.columns[field_position(t.fields, name)][b]),
{
    lemma_field_position(t.fields, name);
    let c = field_position(t.fields, name);
    let keys = ints_of(t.columns[c]);
    lemma_stable_order_is_permutation(keys);
    lemma_stable_order_ascends(keys, a, b);
}

/// Sorting a sorted table changes nothing.
pub proof fn lemma_sort_is_idempotent(t: TableView, name: Seq<char>)
    requires
        t.wf(),
        spec_sort_by(t, name) is Ok,
    ensures
        spec_sort_by(t, name) matches Ok(out) && spec_sort_by(out, name) == Ok::<
            TableView,
            NormalizeError,
        >(out),
{
    lemma_field_position(t.fields, name);
    let c = field_position(t.fields, name);
    let keys = ints_of(t.columns[c]);
    let order = sort_order(t, name);
    let out = reorder_rows(t, order);
    lemma_sort_is_permutation(t, name);
    lemma_stable_order_is_permutation(keys);
    assert(order == stable_order(keys));
    assert(0 <= c < t.columns.len());
    assert(out.columns[c] == gather(t.columns[c], order));
    let sorted_keys = ints_of(out.columns[c]);
    assert forall|a: int| 0 <= a < order.len() implies sorted_keys[a] == gather(keys, order)[a] by {
        assert(0 <= stable_order(keys)[a] < keys.len());
    }
    assert(sorted_keys =~= gather(keys, order));
    assert forall|a: int, b: int| 0 <= a <= b < sorted_keys.len() implies sorted_keys[a]
        <= sorted_keys[b] by {
        lemma_stable_order_ascends(keys, a, b);
    }
    lemma_stable_order_of_ascending(sorted_keys);
    assert(!has_null(out.columns[c])) by {
        if has_null(out.columns[c]) {
            let r = choose|r: int| 0 <= r < out.columns[c].len() && (#[trigger] out.columns[c][r]) is Null;
            assert(0 <= stable_order(keys)[r] < keys.len());
            assert(t.columns[c][order[r]] is Null);
        }
    }
    let again = reorder_rows(out, stable_order(sorted_keys));
    assert(again.columns =~= out.columns) by {
        assert forall|k: int| 0 <= k < out.columns.len() implies #[trigger] again.columns[k]
            == out.columns[k] by {
            assert(again.columns[k] =~= out.columns[k]);
        }
    }
}

/// One step of normalisation.
#[derive(Debug)]
pub enum Transform {
    /// Reverse the delta encoding of the named identifier column.
    DeltaDecode(String),
    /// Sort the rows by `parent_id`, keeping the order of rows with the same
    /// parent.
    SortByParentId,
}

/// What a transform states.
pub enum TransformSpec {
    DeltaDecode(Seq<char>),
    SortByParentId,
}

impl View for Transform {
    type V = TransformSpec;

    open spec fn view(&self) -> TransformSpec {
        match self {
            Transform::DeltaDecode(name) => TransformSpec::DeltaDecode(name@),
            Transform::SortByParentId => TransformSpec::SortByParentId,
        }
    }
}

impl Clone for Transform {
    fn clone(&self) -> (r: Transform)
        ensures
            r@ == self@,
    {
        match self {
            Transform::DeltaDecode(name) => Transform::DeltaDecode(name.clone()),
            Transform::SortByParentId => Transform::SortByParentId,
        }
    }
}

/// What a list of transforms states, step by step.
pub open spec fn transforms_view(steps: Seq<Transform>) -> Seq<TransformSpec> {
    Seq::new(steps.len(), |i: int| steps[i]@)
}

/// What one transform makes of a table.
pub open spec fn spec_apply(t: TableView, step: TransformSpec) -> Result<TableView, NormalizeError> {
    match step {
        TransformSpec::DeltaDecode(name) => spec_delta_decode(t, name),
        TransformSpec::SortByParentId => spec_sort_by(t, parent_id_name()),
    }
}

/// What a list of transforms makes of a table: each step works on what the
/// step before it returned, and the first error ends the work. An empty list
/// returns the table as it is.
pub open spec fn spec_apply_all(t: TableView, steps: Seq<TransformSpec>) -> Result<
    TableView,
    NormalizeError,
>
    decreases steps.len(),
{
    if steps.len() == 0 {
        Ok(t)
    } else {
        match spec_apply(t, steps[0]) {
            Ok(next) => spec_apply_all(next, steps.skip(1)),
            Err(e) => Err(e),
        }
    }
}

/// The transforms that apply to a kind of payload where nothing else is
/// configured: the primary table of a signal has its `id` column delta
/// decoded, a table whose rows refer to a parent is sorted by `parent_id`,
/// and `Unknown` is left alone.
pub open spec fn default_steps(kind: PayloadType) -> Seq<TransformSpec> {
    if kind.spec_is_primary() {
        seq![TransformSpec::DeltaDecode(id_name())]
    } else if kind.spec_refers_to_parent() {
        seq![TransformSpec::SortByParentId]
    } else {
        Seq::empty()
    }
}

/// The transforms configured for one kind of payload.
#[derive(Debug)]
pub struct Rule {
    pub kind: PayloadType,
    pub steps: Vec<Transform>,
}

/// The first of the rules that is for `kind`, from position `from` on; the
/// default where there is none.
pub open spec fn steps_among(rules: Seq<Rule>, kind: PayloadType, from: int) -> Seq<TransformSpec>
    decreases rules.len() - from,
{
    if from < 0 || from >= rules.len() {
        default_steps(kind)
    } else if rules[from].kind == kind {
        transforms_view(rules[from].steps@)
    } else {
        steps_among(rules, kind, from + 1)
    }
}

/// Which transforms apply to which kind of payload. Every kind has the
/// default transforms until a rule of its own is set.
#[derive(Debug)]
pub struct NormalizationRules {
    rules: Vec<Rule>,
}

impl NormalizationRules {
    /// The transforms that these rules give for a kind of payload.
    pub closed spec fn steps_for(&self, kind: PayloadType) -> Seq<TransformSpec> {
        steps_among(self.rules@, kind, 0)
    }

    /// The rules under which every kind has its default transforms.
    pub fn new() -> (r: NormalizationRules)
        ensures
            forall|kind: PayloadType| #[trigger] r.steps_for(kind) == default_steps(kind),
    {
        NormalizationRules { rules: Vec::new() }
    }

    /// Replaces the transforms for one kind of payload. The other kinds keep
    /// theirs.
    pub fn set(&mut self, kind: PayloadType, steps: Vec<Transform>)
        ensures
            final(self).steps_for(kind) == transforms_view(steps@),
            forall|other: PayloadType|
                other != kind ==> #[trigger] final(self).steps_for(other) == old(self).steps_for(
                    other,
                ),
    {
        let ghost before = self.rules@;
        self.rules.insert(0, Rule { kind, steps });
        proof {
            let after = self.rules@;
            assert forall|other: PayloadType| other != kind implies steps_among(after, other, 0)
                == steps_among(before, other, 0) by {
                lemma_steps_among_shift(before, after, other, 0);
            }
        }
    }

    /// The transforms for a kind of payload, in the order in which they
    /// apply.
    pub fn get(&self, kind: PayloadType) -> (steps: Vec<Transform>)
        ensures
            transforms_view(steps@) == self.steps_for(kind),
    {
        let mut i: usize = 0;
        while i < self.rules.len()
            invariant
                i <= self.rules@.len(),
                steps_among(self.rules@, kind, 0) == steps_among(self.rules@, kind, i as int),
            decreases self.rules@.len() - i,
        {
            if self.rules[i].kind == kind {
                let source = &self.rules[i].steps;
                let mut steps: Vec<Transform> = Vec::new();
                let mut j: usize = 0;
                while j < source.len()
                    invariant
                        j <= source@.len(),
                        steps@.len() == j,
                        forall|k: int| 0 <= k < j ==> (#[trigger] steps@[k])@ == source@[k]@,
                    decreases source@.len() - j,
                {
                    steps.push(source[j].clone());
                    j += 1;
                }
                assert(transforms_view(steps@) =~= transforms_view(source@));
                return steps;
            }
            i += 1;
        }
        let mut steps: Vec<Transform> = Vec::new();
        if kind.is_primary() {
            steps.push(Transform::DeltaDecode(String::from_str("id")));
        } else if kind.refers_to_parent() {
            steps.push(Transform::SortByParentId);
        }
        assert(transforms_view(steps@) =~= default_steps(kind));
        steps
    }
}

/// A rule for another kind, put in front, changes nothing for this kind.
proof fn lemma_steps_among_shift(before: Seq<Rule>, after: Seq<Rule>, kind: PayloadType, from: int)
    requires
        after.len() == before.len() + 1,
        after[0].kind != kind,
        forall|i: int| 0 <= i < before.len() ==> after[i + 1] == #[trigger] before[i],
        0 <= from <= before.len(),
    ensures
        steps_among(after, kind, from + 1) == steps_among(before, kind, from),
        from == 0 ==> steps_among(after, kind, 0) == steps_among(before, kind, 0),
    decreases before.len() - from,
{
    if from < before.len() {
        assert(after[from + 1] == before[from]);
        if before[from].kind != kind {
            lemma_steps_among_shift(before, after, kind, from + 1);
        }
    }
}

/// Applies one transform to a table.
pub fn apply(table: Table, step: &Transform) -> (r: Result<Table, NormalizeError>)
    ensures
        match r {
            Ok(out) => spec_apply(table@, step@) == Ok::<TableView, NormalizeError>(out@),
            Err(e) => spec_apply(table@, step@) == Err::<TableView, NormalizeError>(e),
        },
{
    match step {
        Transform::DeltaDecode(name) => delta_decode(table, name.as_str()),
        Transform::SortByParentId => sort_by_parent_id(table),
    }
}

/// Normalises a table of the given kind of payload: applies the transforms
/// that the rules give for the kind, in their order. A kind without
/// transforms gets its table back unchanged. The first transform that fails
/// ends the work with its error.
#[verifier::loop_isolation(false)]
pub fn normalize(table: Table, kind: PayloadType, rules: &NormalizationRules) -> (r: Result<
    Table,
    NormalizeError,
>)
    ensures
        match r {
            Ok(out) => spec_apply_all(table@, rules.steps_for(kind)) == Ok::<
                TableView,
                NormalizeError,
            >(out@),
            Err(e) => spec_apply_all(table@, rules.steps_for(kind)) == Err::<
                TableView,
                NormalizeError,
            >(e),
        },
{
    let steps = rules.get(kind);
    let ghost all = transforms_view(steps@);
    let ghost start = table@;
    let mut current = table;
    let mut i: usize = 0;
    assert(all.skip(0) =~= all);
    while i < steps.len()
        invariant
            i <= steps@.len(),
            all == transforms_view(steps@),
            spec_apply_all(start, all) == spec_apply_all(current@, all.skip(i as int)),
        decreases steps@.len() - i,
    {
        let ghost rest = all.skip(i as int);
        assert(rest[0] == steps@[i as int]@);
        assert(rest.skip(1) =~= all.skip(i + 1));
        match apply(current, &steps[i]) {
            Ok(next) => {
                current = next;
            },
            Err(e) => {
                return Err(e);
            },
        }
        i += 1;
    }
    assert(all.skip(i as int).len() == 0);
    Ok(current)
}

} // verus!
