//! Reading a lookup table out of the fixed columns: the rows of values up to
//! the first gap.

use vstd::prelude::*;
use crate::model::{CellValue, Expression};

verus! {

/// The indices of the fixed columns among the table expressions, in order.
/// Table expressions of other shapes are passed over.
pub open spec fn table_columns(table: Seq<Expression>) -> Seq<usize>
    decreases table.len(),
{
    if table.len() == 0 {
        Seq::empty()
    } else {
        match table.last() {
            Expression::Fixed { column, .. } => table_columns(table.drop_last()).push(column),
            _ => table_columns(table.drop_last()),
        }
    }
}

/// What reading one row of a table gives.
pub enum RowScan {
    /// The values of the row, one per table column.
    Values(Seq<u128>),
    /// An unassigned cell: the table ends before this row.
    Gap,
    /// A cell outside the fixed columns, a poisoned cell, or a table column
    /// without an input expression to match.
    Malformed,
}

/// Reads the first `k` table columns at `row`, left to right.
pub open spec fn row_values(
    fixed: Seq<Vec<CellValue>>,
    cols: Seq<usize>,
    inputs: nat,
    row: int,
    k: nat,
) -> RowScan
    decreases k,
{
    if k == 0 {
        RowScan::Values(Seq::empty())
    } else {
        match row_values(fixed, cols, inputs, row, (k - 1) as nat) {
            RowScan::Values(values) => {
                let c = cols[k - 1] as int;
                if c >= fixed.len() || row >= fixed[c]@.len() {
                    RowScan::Malformed
                } else {
                    match fixed[c]@[row] {
                        CellValue::Unassigned => RowScan::Gap,
                        CellValue::Poison(_) => RowScan::Malformed,
                        CellValue::Assigned(v) => if k - 1 >= inputs {
                            RowScan::Malformed
                        } else {
                            RowScan::Values(values.push(v))
                        },
                    }
                }
            },
            other => other,
        }
    }
}

/// What reading a table gives.
pub enum TableScan {
    /// The rows read so far; no gap yet.
    Open(Seq<Seq<u128>>),
    /// The rows before the first gap.
    Closed(Seq<Seq<u128>>),
    Malformed,
}

/// Reads the first `n` rows of a table, top to bottom, stopping at the first
/// gap.
pub open spec fn rows_scanned(
    fixed: Seq<Vec<CellValue>>,
    cols: Seq<usize>,
    inputs: nat,
    n: nat,
) -> TableScan
    decreases n,
{
    if n == 0 {
        TableScan::Open(Seq::empty())
    } else {
        match rows_scanned(fixed, cols, inputs, (n - 1) as nat) {
            TableScan::Open(rows) => match row_values(fixed, cols, inputs, n - 1, cols.len()) {
                RowScan::Values(values) => TableScan::Open(rows.push(values)),
                RowScan::Gap => TableScan::Closed(rows),
                RowScan::Malformed => TableScan::Malformed,
            },
            other => other,
        }
    }
}

/// The rows of the table that the columns `cols` of `fixed` hold, where
/// `inputs` expressions are looked up: the rows above the first unassigned
/// cell, as many at most as the first fixed column is long. `None` where the
/// table cannot be read.
pub open spec fn table_rows(fixed: Seq<Vec<CellValue>>, cols: Seq<usize>, inputs: nat) -> Option<
    Seq<Seq<u128>>,
> {
    if fixed.len() == 0 {
        None
    } else {
        match rows_scanned(fixed, cols, inputs, fixed[0]@.len()) {
            TableScan::Open(rows) => Some(rows),
            TableScan::Closed(rows) => Some(rows),
            TableScan::Malformed => None,
        }
    }
}

/// Collects the indices of the fixed columns among the table expressions.
pub fn collect_table_columns(table: &Vec<Expression>) -> (res: Vec<usize>)
    ensures
        res@ == table_columns(table@),
{
    let mut res: Vec<usize> = Vec::new();
    let mut i: usize = 0;
    assert(table@.take(0) =~= Seq::<Expression>::empty());
    while i < table.len()
        invariant
            i <= table.len(),
            res@ == table_columns(table@.take(i as int)),
        decreases table.len() - i,
    {
        proof {
            let next = table@.take(i + 1);
            assert(next.drop_last() =~= table@.take(i as int));
            assert(next.last() == table@[i as int]);
        }
        match &table[i] {
            Expression::Fixed { column, .. } => {
                res.push(*column);
            },
            _ => {},
        }
        i += 1;
    }
    assert(table@.take(table.len() as int) =~= table@);
    res
}

/// The views of a sequence of rows.
pub open spec fn rows_view(rows: Seq<Vec<u128>>) -> Seq<Seq<u128>> {
    Seq::new(rows.len(), |i: int| rows[i]@)
}

proof fn lemma_row_scan_sticks(
    fixed: Seq<Vec<CellValue>>,
    cols: Seq<usize>,
    inputs: nat,
    row: int,
    k: nat,
    m: nat,
)
    requires
        k <= m,
        !(row_values(fixed, cols, inputs, row, k) is Values),
    ensures
        row_values(fixed, cols, inputs, row, m) == row_values(fixed, cols, inputs, row, k),
    decreases m,
{
    if k < m {
        lemma_row_scan_sticks(fixed, cols, inputs, row, k, (m - 1) as nat);
    }
}

proof fn lemma_table_scan_sticks(
    fixed: Seq<Vec<CellValue>>,
    cols: Seq<usize>,
    inputs: nat,
    n: nat,
    m: nat,
)
    requires
        n <= m,
        !(rows_scanned(fixed, cols, inputs, n) is Open),
    ensures
        rows_scanned(fixed, cols, inputs, m) == rows_scanned(fixed, cols, inputs, n),
    decreases m,
{
    if n < m {
        lemma_table_scan_sticks(fixed, cols, inputs, n, (m - 1) as nat);
    }
}

/// Every row that a scan yields has one value per table column, and where
/// it yields a row at all no table column lacks an input.
pub proof fn lemma_row_values_len(
    fixed: Seq<Vec<CellValue>>,
    cols: Seq<usize>,
    inputs: nat,
    row: int,
    k: nat,
)
    ensures
        row_values(fixed, cols, inputs, row, k) matches RowScan::Values(values) ==> values.len()
            == k && k <= inputs,
    decreases k,
{
    if k > 0 {
        lemma_row_values_len(fixed, cols, inputs, row, (k - 1) as nat);
    }
}

/// Every row of a table that can be read has one value per table column,
/// and a table with a row has no more columns than there are inputs.
pub proof fn lemma_table_rows_shape(fixed: Seq<Vec<CellValue>>, cols: Seq<usize>, inputs: nat)
    ensures
        table_rows(fixed, cols, inputs) matches Some(rows) ==> (forall|r: int|
            0 <= r < rows.len() ==> (#[trigger] rows[r]).len() == cols.len()) && (rows.len() > 0
            ==> cols.len() <= inputs),
{
    if fixed.len() > 0 {
        lemma_rows_scanned_shape(fixed, cols, inputs, fixed[0]@.len());
    }
}

proof fn lemma_rows_scanned_shape(
    fixed: Seq<Vec<CellValue>>,
    cols: Seq<usize>,
    inputs: nat,
    n: nat,
)
    ensures
        match rows_scanned(fixed, cols, inputs, n) {
            TableScan::Open(rows) => (forall|r: int|
                0 <= r < rows.len() ==> (#[trigger] rows[r]).len() == cols.len()) && (rows.len()
                > 0 ==> cols.len() <= inputs),
            TableScan::Closed(rows) => (forall|r: int|
                0 <= r < rows.len() ==> (#[trigger] rows[r]).len() == cols.len()) && (rows.len()
                > 0 ==> cols.len() <= inputs),
            TableScan::Malformed => true,
        },
    decreases n,
{
    if n > 0 {
        lemma_rows_scanned_shape(fixed, cols, inputs, (n - 1) as nat);
        lemma_row_values_len(fixed, cols, inputs, n - 1, cols.len());
    }
}

enum RowRead {
    Values(Vec<u128>),
    Gap,
    Malformed,
}

fn read_row(fixed: &Vec<Vec<CellValue>>, cols: &Vec<usize>, inputs: usize, row: usize) -> (res:
    RowRead)
    ensures
        match res {
            RowRead::Values(values) => row_values(
                fixed@,
                cols@,
                inputs as nat,
                row as int,
                cols@.len(),
            ) == RowScan::Values(values@),
            RowRead::Gap => row_values(fixed@, cols@, inputs as nat, row as int, cols@.len())
                == RowScan::Gap,
            RowRead::Malformed => row_values(fixed@, cols@, inputs as nat, row as int, cols@.len())
                == RowScan::Malformed,
        },
{
    let mut values: Vec<u128> = Vec::new();
    let mut k: usize = 0;
    while k < cols.len()
        invariant
            k <= cols.len(),
            row_values(fixed@, cols@, inputs as nat, row as int, k as nat) == RowScan::Values(
                values@,
            ),
        decreases cols.len() - k,
    {
        let c = cols[k];
        if c >= fixed.len() || row >= fixed[c].len() {
            proof {
                lemma_row_scan_sticks(
                    fixed@,
                    cols@,
                    inputs as nat,
                    row as int,
                    (k + 1) as nat,
                    cols@.len(),
                );
            }
            return RowRead::Malformed;
        }
        match fixed[c][row] {
            CellValue::Unassigned => {
                proof {
                    lemma_row_scan_sticks(
                        fixed@,
                        cols@,
                        inputs as nat,
                        row as int,
                        (k + 1) as nat,
                        cols@.len(),
                    );
                }
                return RowRead::Gap;
            },
            CellValue::Poison(_) => {
                proof {
                    lemma_row_scan_sticks(
                        fixed@,
                        cols@,
                        inputs as nat,
                        row as int,
                        (k + 1) as nat,
                        cols@.len(),
                    );
                }
                return RowRead::Malformed;
            },
            CellValue::Assigned(v) => {
                if k >= inputs {
                    proof {
                        lemma_row_scan_sticks(
                            fixed@,
                            cols@,
                            inputs as nat,
                            row as int,
                            (k + 1) as nat,
                            cols@.len(),
                        );
                    }
                    return RowRead::Malformed;
                }
                values.push(v);
            },
        }
        k += 1;
    }
    RowRead::Values(values)
}

/// Reads the table that the columns `cols` of `fixed` hold, for a lookup of
/// `inputs` expressions.
pub fn read_table(fixed: &Vec<Vec<CellValue>>, cols: &Vec<usize>, inputs: usize) -> (res: Option<
    Vec<Vec<u128>>,
>)
    ensures
        match res {
            Some(rows) => table_rows(fixed@, cols@, inputs as nat) == Some(rows_view(rows@)),
            None => table_rows(fixed@, cols@, inputs as nat) is None,
        },
{
    if fixed.len() == 0 {
        return None;
    }
    let mut rows: Vec<Vec<u128>> = Vec::new();
    let n = fixed[0].len();
    let mut r: usize = 0;
    assert(rows_view(rows@) =~= Seq::<Seq<u128>>::empty());
    while r < n
        invariant
            r <= n,
            fixed@.len() > 0,
            n == fixed@[0]@.len(),
            rows_scanned(fixed@, cols@, inputs as nat, r as nat) == TableScan::Open(
                rows_view(rows@),
            ),
        decreases n - r,
    {
        match read_row(fixed, cols, inputs, r) {
            RowRead::Values(values) => {
                proof {
                    assert(rows_view(rows@.push(values)) =~= rows_view(rows@).push(values@));
                }
                rows.push(values);
            },
            RowRead::Gap => {
                proof {
                    assert(rows_scanned(fixed@, cols@, inputs as nat, (r + 1) as nat)
                        == TableScan::Closed(rows_view(rows@)));
                    lemma_table_scan_sticks(
                        fixed@,
                        cols@,
                        inputs as nat,
                        (r + 1) as nat,
                        n as nat,
                    );
                }
                return Some(rows);
            },
            RowRead::Malformed => {
                proof {
                    assert(rows_scanned(fixed@, cols@, inputs as nat, (r + 1) as nat)
                        == TableScan::Malformed);
                    lemma_table_scan_sticks(
                        fixed@,
                        cols@,
                        inputs as nat,
                        (r + 1) as nat,
                        n as nat,
                    );
                }
                return None;
            },
        }
        r += 1;
    }
    Some(rows)
}

} // verus!
