//! The names of cells tell the cells apart: different regions, columns or
//! rows never share a name, nor do cells of different kinds.

use vstd::prelude::*;
use crate::encoder::cell_name;
use crate::text::{
    decimal, find, is_digit, lemma_decimal_digits, lemma_decimal_injective, lemma_find_first,
    signed_decimal,
};

verus! {

/// Different integers have different signed numerals.
pub proof fn lemma_signed_decimal_injective(a: int, b: int)
    requires
        signed_decimal(a) == signed_decimal(b),
    ensures
        a == b,
{
    let magnitude_a = if a < 0 {
        (-a) as nat
    } else {
        a as nat
    };
    let magnitude_b = if b < 0 {
        (-b) as nat
    } else {
        b as nat
    };
    lemma_decimal_digits(magnitude_a);
    lemma_decimal_digits(magnitude_b);
    assert(is_digit(decimal(magnitude_a)[0]));
    assert(is_digit(decimal(magnitude_b)[0]));
    if a < 0 {
        assert(signed_decimal(a)[0] == '-');
        assert(b < 0);
        assert(signed_decimal(a).subrange(1, signed_decimal(a).len() as int) =~= decimal(
            magnitude_a,
        ));
        assert(signed_decimal(b).subrange(1, signed_decimal(b).len() as int) =~= decimal(
            magnitude_b,
        ));
    } else {
        assert(signed_decimal(b)[0] != '-');
    }
    lemma_decimal_injective(magnitude_a, magnitude_b);
}

/// A numeral followed by `-` ends at the first `-`.
proof fn lemma_numeral_ends_at_dash(n: nat, tail: Seq<char>)
    ensures
        find(decimal(n) + "-"@ + tail, '-', 0) == decimal(n).len(),
        (decimal(n) + "-"@ + tail).subrange(0, decimal(n).len() as int) == decimal(n),
        (decimal(n) + "-"@ + tail).subrange(
            decimal(n).len() as int + 1,
            (decimal(n) + "-"@ + tail).len() as int,
        ) == tail,
{
    reveal_strlit("-");
    lemma_decimal_digits(n);
    let s = decimal(n) + "-"@ + tail;
    let k = decimal(n).len() as int;
    assert(s[k] == '-');
    assert forall|j: int| 0 <= j < k implies s[j] != '-' by {
        assert(s[j] == decimal(n)[j]);
        assert(is_digit(decimal(n)[j]));
    }
    lemma_find_first(s, '-', 0, k);
    assert(s.subrange(0, k) =~= decimal(n));
    assert(s.subrange(k + 1, s.len() as int) =~= tail);
}

/// What follows the prefix in the name of a cell.
pub open spec fn cell_suffix(region: nat, column: nat, row: int) -> Seq<char> {
    decimal(region) + "-"@ + (decimal(column) + "-"@ + signed_decimal(row))
}

proof fn lemma_cell_name_parts(prefix: Seq<char>, region: nat, column: nat, row: int)
    ensures
        cell_name(prefix, region, column, row) == prefix + cell_suffix(region, column, row),
{
    assert(cell_name(prefix, region, column, row) =~= prefix + cell_suffix(region, column, row));
}

/// Two cells of one kind with one name are one cell: they agree in region,
/// column and row.
pub proof fn lemma_cell_name_injective(
    prefix: Seq<char>,
    region: nat,
    column: nat,
    row: int,
    other_region: nat,
    other_column: nat,
    other_row: int,
)
    requires
        cell_name(prefix, region, column, row) == cell_name(
            prefix,
            other_region,
            other_column,
            other_row,
        ),
    ensures
        region == other_region,
        column == other_column,
        row == other_row,
{
    lemma_cell_name_parts(prefix, region, column, row);
    lemma_cell_name_parts(prefix, other_region, other_column, other_row);
    let a = cell_suffix(region, column, row);
    let b = cell_suffix(other_region, other_column, other_row);
    assert(a == b) by {
        assert((prefix + a).subrange(prefix.len() as int, (prefix + a).len() as int) =~= a);
        assert((prefix + b).subrange(prefix.len() as int, (prefix + b).len() as int) =~= b);
    }
    let tail_a = decimal(column) + "-"@ + signed_decimal(row);
    let tail_b = decimal(other_column) + "-"@ + signed_decimal(other_row);
    lemma_numeral_ends_at_dash(region, tail_a);
    lemma_numeral_ends_at_dash(other_region, tail_b);
    assert(decimal(region) == decimal(other_region));
    lemma_decimal_injective(region, other_region);
    assert(tail_a == tail_b);
    lemma_numeral_ends_at_dash(column, signed_decimal(row));
    lemma_numeral_ends_at_dash(other_column, signed_decimal(other_row));
    assert(decimal(column) == decimal(other_column));
    lemma_decimal_injective(column, other_column);
    assert(signed_decimal(row) == signed_decimal(other_row));
    lemma_signed_decimal_injective(row, other_row);
}

/// An advice cell, a fixed cell and a selector cell never share a name.
pub proof fn lemma_cell_kinds_apart(
    region: nat,
    column: nat,
    row: int,
    other_region: nat,
    other_column: nat,
    other_row: int,
)
    ensures
        cell_name("A-"@, region, column, row) != cell_name(
            "F-"@,
            other_region,
            other_column,
            other_row,
        ),
        cell_name("A-"@, region, column, row) != cell_name(
            "S-"@,
            other_region,
            other_column,
            other_row,
        ),
        cell_name("F-"@, region, column, row) != cell_name(
            "S-"@,
            other_region,
            other_column,
            other_row,
        ),
{
    reveal_strlit("A-");
    reveal_strlit("F-");
    reveal_strlit("S-");
    assert(cell_name("A-"@, region, column, row)[0] == 'A');
    assert(cell_name("F-"@, region, column, row)[0] == 'F');
    assert(cell_name("F-"@, other_region, other_column, other_row)[0] == 'F');
    assert(cell_name("S-"@, other_region, other_column, other_row)[0] == 'S');
}

} // verus!
