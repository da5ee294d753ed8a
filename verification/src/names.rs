//! Cell names in A1 notation, such as `B3` or `AA10`.
use vstd::prelude::*;

verus! {

pub open spec fn letters() -> Seq<char> {
    "ABCDEFGHIJKLMNOPQRSTUVWXYZ"@
}

pub open spec fn digits() -> Seq<char> {
    "0123456789"@
}

/// The letters naming column `n` (1 is `A`, 26 is `Z`, 27 is `AA`).
pub open spec fn column_name(n: int) -> Seq<char>
    decreases n,
{
    if n <= 0 {
        Seq::empty()
    } else {
        column_name((n - 1) / 26) + letters().subrange((n - 1) % 26, (n - 1) % 26 + 1)
    }
}

/// The decimal digits of `n`.
pub open spec fn decimal(n: int) -> Seq<char>
    decreases n,
{
    if n < 10 {
        digits().subrange(n, n + 1)
    } else {
        decimal(n / 10) + digits().subrange(n % 10, n % 10 + 1)
    }
}

/// The A1 name of the cell at `(row, column)`.
pub open spec fn cell_name(row: int, column: int) -> Seq<char> {
    column_name(column) + decimal(row)
}

/// The letters naming column `n` (exec form of `column_name`).
pub fn number_to_column(n: u32) -> (r: String)
    ensures
        r@ == column_name(n as int),
    decreases n,
{
    if n == 0 {
        String::new()
    } else {
        let mut s = number_to_column((n - 1) / 26);
        let i = ((n - 1) % 26) as usize;
        let lit = "ABCDEFGHIJKLMNOPQRSTUVWXYZ";
        proof {
            reveal_strlit("ABCDEFGHIJKLMNOPQRSTUVWXYZ");
        }
        s.append(lit.substring_char(i, i + 1));
        s
    }
}

/// The decimal digits of `n` (exec form of `decimal`).
pub fn number_to_decimal(n: u64) -> (r: String)
    ensures
        r@ == decimal(n as int),
    decreases n,
{
    let lit = "0123456789";
    proof {
        reveal_strlit("0123456789");
    }
    if n < 10 {
        String::from_str(lit.substring_char(n as usize, n as usize + 1))
    } else {
        let mut s = number_to_decimal(n / 10);
        let i = (n % 10) as usize;
        s.append(lit.substring_char(i, i + 1));
        s
    }
}

/// The A1 name of the cell at `(row, column)` (exec form of `cell_name`).
pub fn cell_name_of(row: u32, column: u32) -> (r: String)
    ensures
        r@ == cell_name(row as int, column as int),
{
    let mut s = number_to_column(column);
    let d = number_to_decimal(row as u64);
    s.append(d.as_str());
    s
}

} // verus!
