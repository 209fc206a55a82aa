//! Spreadsheet cell coordinates such as `C7` or `AB12`.
use vstd::prelude::*;
use crate::text::{chars_of, decimal, push_decimal, string_of, chars_equal};

verus! {

/// The largest column index that a reference search tries.
pub const MAX_COLUMN: usize = 16384;

/// The capital letter at position `k` of the alphabet (`0` is `A`).
pub open spec fn letter_char(k: nat) -> char {
    ((65 + k) as u8) as char
}

/// Bijective base-26 letters of a 1-based column number (`1` is `A`, `28` is `AB`).
pub open spec fn column_letters(n: nat) -> Seq<char>
    decreases n,
{
    if n == 0 {
        seq![]
    } else {
        column_letters(((n - 1) / 26) as nat).push(letter_char(((n - 1) % 26) as nat))
    }
}

/// The coordinate text of the cell at a 1-based row and a 0-based column.
pub open spec fn cell_reference(row: nat, col: nat) -> Seq<char> {
    column_letters(col + 1) + decimal(row)
}

/// The column that a reference is resolved to: a column within the search
/// range whose coordinate in `row` is `reference`, or `previous` if none is.
pub open spec fn resolved_column(row: nat, reference: Seq<char>, previous: nat) -> nat {
    if exists|i: nat| i <= MAX_COLUMN && #[trigger] cell_reference(row, i) == reference {
        choose|i: nat| i <= MAX_COLUMN && #[trigger] cell_reference(row, i) == reference
    } else {
        previous
    }
}

fn push_column_letters(out: &mut Vec<char>, n: usize)
    ensures
        final(out)@ == old(out)@ + column_letters(n as nat),
    decreases n,
{
    if n == 0 {
        assert(final(out)@ =~= old(out)@ + column_letters(n as nat));
    } else {
        let modulo = (n - 1) % 26;
        push_column_letters(out, (n - modulo) / 26);
        assert((n - modulo) / 26 == (n - 1) / 26);
        out.push((65 + modulo as u8) as char);
        assert(final(out)@ =~= old(out)@ + column_letters(n as nat));
    }
}

fn cell_reference_chars(row: usize, cell: usize) -> (r: Vec<char>)
    requires
        cell < usize::MAX,
    ensures
        r@ == cell_reference(row as nat, cell as nat),
{
    let mut out: Vec<char> = Vec::new();
    push_column_letters(&mut out, cell + 1);
    push_decimal(&mut out, row as u64);
    assert(out@ =~= cell_reference(row as nat, cell as nat));
    out
}

/// The coordinate text of a cell, from its 1-based row and 0-based column:
/// `excel_str_cell(7, 2)` is `C7`, `excel_str_cell(1, 27)` is `AB1`.
pub fn excel_str_cell(row: usize, cell: usize) -> (r: String)
    requires
        cell < usize::MAX,
    ensures
        r@ == cell_reference(row as nat, cell as nat),
{
    let v = cell_reference_chars(row, cell);
    string_of(&v)
}

proof fn lemma_letters_empty(n: nat)
    ensures
        (column_letters(n).len() == 0) == (n == 0),
{
    if n > 0 {
        assert(column_letters(n).len() > 0);
    }
}

proof fn lemma_letters_injective(a: nat, b: nat)
    requires
        column_letters(a) == column_letters(b),
    ensures
        a == b,
    decreases a,
{
    lemma_letters_empty(a);
    lemma_letters_empty(b);
    if a != 0 && b != 0 {
        let la = column_letters(a);
        let lb = column_letters(b);
        let pa = column_letters(((a - 1) / 26) as nat);
        let pb = column_letters(((b - 1) / 26) as nat);
        assert(la.last() == lb.last());
        assert(la.drop_last() =~= pa);
        assert(lb.drop_last() =~= pb);
        lemma_letters_injective(((a - 1) / 26) as nat, ((b - 1) / 26) as nat);
        assert(a - 1 == 26 * ((a - 1) / 26) + (a - 1) % 26) by (nonlinear_arith);
        assert(b - 1 == 26 * ((b - 1) / 26) + (b - 1) % 26) by (nonlinear_arith);
    }
}

proof fn lemma_letters_are_letters(n: nat)
    ensures
        forall|k: int| 0 <= k < column_letters(n).len() ==> (#[trigger] column_letters(n)[k]) as u32 >= 65,
    decreases n,
{
    if n > 0 {
        lemma_letters_are_letters(((n - 1) / 26) as nat);
        let m = ((n - 1) % 26) as nat;
        assert(((65 + m) as u8) as u32 >= 65);
        assert(letter_char(m) as u32 >= 65);
        let p = column_letters(((n - 1) / 26) as nat);
        assert forall|k: int| 0 <= k < column_letters(n).len() implies (#[trigger] column_letters(n)[k]) as u32 >= 65 by {
            if k < p.len() {
                assert(column_letters(n)[k] == p[k]);
            }
        }
    }
}

proof fn lemma_decimal_digits(n: nat)
    ensures
        decimal(n).len() > 0,
        forall|k: int| 0 <= k < decimal(n).len() ==> (#[trigger] decimal(n)[k]) as u32 <= 57,
    decreases n,
{
    if n >= 10 {
        lemma_decimal_digits(n / 10);
    }
}

/// Distinct columns of one row have distinct coordinates.
pub proof fn lemma_cell_reference_injective(row: nat, a: nat, b: nat)
    requires
        cell_reference(row, a) == cell_reference(row, b),
    ensures
        a == b,
{
    let d = decimal(row);
    let la = column_letters(a + 1);
    let lb = column_letters(b + 1);
    lemma_letters_are_letters(a + 1);
    lemma_letters_are_letters(b + 1);
    lemma_decimal_digits(row);
    if la.len() < lb.len() {
        assert(cell_reference(row, a)[la.len() as int] == d[0]);
        assert(cell_reference(row, b)[la.len() as int] == lb[la.len() as int]);
    }
    if lb.len() < la.len() {
        assert(cell_reference(row, b)[lb.len() as int] == d[0]);
        assert(cell_reference(row, a)[lb.len() as int] == la[lb.len() as int]);
    }
    assert(la =~= cell_reference(row, a).subrange(0, la.len() as int));
    assert(lb =~= cell_reference(row, b).subrange(0, lb.len() as int));
    lemma_letters_injective(a + 1, b + 1);
}

/// Resolves a declared cell reference to a column index: tries the columns
/// `0..=MAX_COLUMN` in increasing order and keeps the first whose coordinate in
/// `row` equals `reference`; with none, the column stays `previous`.
pub fn column_of_reference(row: usize, reference: &str, previous: usize) -> (r: usize)
    ensures
        r as nat == resolved_column(row as nat, reference@, previous as nat),
{
    let target = chars_of(reference);
    let mut i: usize = 0;
    while i <= MAX_COLUMN
        invariant
            i <= MAX_COLUMN + 1,
            target@ == reference@,
            forall|j: nat| j < i ==> cell_reference(row as nat, j) != reference@,
        decreases MAX_COLUMN + 1 - i,
    {
        let candidate = cell_reference_chars(row, i);
        if chars_equal(&candidate, &target) {
            proof {
                let w = i as nat;
                assert(cell_reference(row as nat, w) == reference@);
                let c = choose|c: nat|
                    c <= MAX_COLUMN && #[trigger] cell_reference(row as nat, c) == reference@;
                lemma_cell_reference_injective(row as nat, c, w);
            }
            return i;
        }
        i = i + 1;
    }
    previous
}

/// A coordinate produced for a column within the search range resolves back
/// to that column, whatever the column before it was.
pub proof fn lemma_reference_round_trip(row: nat, col: nat, previous: nat)
    requires
        col <= MAX_COLUMN,
    ensures
        resolved_column(row, cell_reference(row, col), previous) == col,
{
    let reference = cell_reference(row, col);
    assert(col <= MAX_COLUMN && cell_reference(row, col) == reference);
    let c = choose|c: nat| c <= MAX_COLUMN && #[trigger] cell_reference(row, c) == reference;
    lemma_cell_reference_injective(row, c, col);
}

} // verus!
