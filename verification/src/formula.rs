//! Recognising formulas whose result spills over a range of cells.
//!
//! A formula that is a single range reference, such as `=B1:B3` or
//! `=$b$1:$b$3`, yields an array as large as the range; it spills from its own
//! cell over that many cells.
use vstd::prelude::*;

use crate::types::{LAST_COLUMN, LAST_ROW};

verus! {

/// A column letter, in either case.
pub open spec fn is_letter(c: char) -> bool {
    65 <= (c as u32) <= 90 || 97 <= (c as u32) <= 122
}

pub open spec fn is_digit(c: char) -> bool {
    48 <= (c as u32) <= 57
}

pub open spec fn letter_value(c: char) -> int {
    if (c as u32) >= 97 {
        (c as u32) - 96
    } else {
        (c as u32) - 64
    }
}

pub open spec fn digit_value(c: char) -> int {
    (c as u32) - 48
}

/// The column number spelled by the letters `s[lo..hi]` (`A` = 1, `Z` = 26, `AA` = 27).
pub open spec fn letters_value(s: Seq<char>, lo: int, hi: int) -> int
    decreases hi - lo,
{
    if hi <= lo {
        0
    } else {
        letters_value(s, lo, hi - 1) * 26 + letter_value(s[hi - 1])
    }
}

/// The number spelled by the digits `s[lo..hi]`.
pub open spec fn digits_value(s: Seq<char>, lo: int, hi: int) -> int
    decreases hi - lo,
{
    if hi <= lo {
        0
    } else {
        digits_value(s, lo, hi - 1) * 10 + digit_value(s[hi - 1])
    }
}

/// The end of the run of letters that starts at `i`, looking no further than `hi`.
pub open spec fn letters_end(s: Seq<char>, i: int, hi: int) -> int
    decreases hi - i,
{
    if i < hi && is_letter(s[i]) {
        letters_end(s, i + 1, hi)
    } else {
        i
    }
}

pub open spec fn all_digits(s: Seq<char>, lo: int, hi: int) -> bool {
    forall|i: int| lo <= i < hi ==> is_digit(#[trigger] s[i])
}

pub open spec fn all_letters(s: Seq<char>, lo: int, hi: int) -> bool {
    forall|i: int| lo <= i < hi ==> is_letter(#[trigger] s[i])
}

/// Just past an optional `$` at `i`.
pub open spec fn skip_dollar(s: Seq<char>, i: int, hi: int) -> int {
    if i < hi && s[i] == '$' {
        i + 1
    } else {
        i
    }
}

/// The cell reference spelled by `s[lo..hi]`, such as `B3`, `$B$3` or `b3`,
/// as `(row, column)`.
pub open spec fn parse_ref(s: Seq<char>, lo: int, hi: int) -> Option<(int, int)> {
    let a = skip_dollar(s, lo, hi);
    let k = letters_end(s, a, hi);
    let d = skip_dollar(s, k, hi);
    if a < k && d < hi && all_digits(s, d, hi) {
        let column = letters_value(s, a, k);
        let row = digits_value(s, d, hi);
        if 1 <= column <= LAST_COLUMN && 1 <= row <= LAST_ROW {
            Some((row, column))
        } else {
            None
        }
    } else {
        None
    }
}

/// The first `:` at or after `i`, or the length of `s`.
pub open spec fn colon_at(s: Seq<char>, i: int) -> int
    decreases s.len() - i,
{
    if i < s.len() && s[i] != ':' {
        colon_at(s, i + 1)
    } else {
        i
    }
}

/// For a formula `=<first>:<last>` naming a range, its `(width, height)`.
pub open spec fn spill_size(f: Seq<char>) -> Option<(int, int)> {
    if f.len() >= 1 && f[0] == '=' {
        let p = colon_at(f, 1);
        if p < f.len() {
            match (parse_ref(f, 1, p), parse_ref(f, p + 1, f.len() as int)) {
                (Some(a), Some(b)) => if a.0 <= b.0 && a.1 <= b.1 {
                    Some((b.1 - a.1 + 1, b.0 - a.0 + 1))
                } else {
                    None
                },
                _ => None,
            }
        } else {
            None
        }
    } else {
        None
    }
}

proof fn lemma_letters_grow(s: Seq<char>, lo: int, j: int, k: int)
    requires
        lo <= j <= k,
        all_letters(s, lo, k),
    ensures
        letters_value(s, lo, j) <= letters_value(s, lo, k),
    decreases k - j,
{
    if j < k {
        lemma_letters_grow(s, lo, j, k - 1);
        assert(is_letter(s[k - 1]));
        assert(letters_value(s, lo, k - 1) >= 0) by {
            lemma_letters_nonneg(s, lo, k - 1);
        }
    }
}

proof fn lemma_letters_nonneg(s: Seq<char>, lo: int, k: int)
    requires
        lo <= k,
        all_letters(s, lo, k),
    ensures
        letters_value(s, lo, k) >= 0,
    decreases k - lo,
{
    if lo < k {
        lemma_letters_nonneg(s, lo, k - 1);
        assert(is_letter(s[k - 1]));
    }
}

pub(crate) proof fn lemma_digits_grow(s: Seq<char>, lo: int, j: int, k: int)
    requires
        lo <= j <= k,
        all_digits(s, lo, k),
    ensures
        digits_value(s, lo, j) <= digits_value(s, lo, k),
    decreases k - j,
{
    if j < k {
        lemma_digits_grow(s, lo, j, k - 1);
        assert(is_digit(s[k - 1]));
        lemma_digits_nonneg(s, lo, k - 1);
    }
}

pub(crate) proof fn lemma_digits_nonneg(s: Seq<char>, lo: int, k: int)
    requires
        lo <= k,
        all_digits(s, lo, k),
    ensures
        digits_value(s, lo, k) >= 0,
    decreases k - lo,
{
    if lo < k {
        lemma_digits_nonneg(s, lo, k - 1);
        assert(is_digit(s[k - 1]));
    }
}

proof fn lemma_letters_end(s: Seq<char>, i: int, hi: int)
    requires
        i <= hi,
    ensures
        i <= letters_end(s, i, hi) <= hi,
        all_letters(s, i, letters_end(s, i, hi)),
        letters_end(s, i, hi) < hi ==> !is_letter(s[letters_end(s, i, hi)]),
    decreases hi - i,
{
    if i < hi && is_letter(s[i]) {
        lemma_letters_end(s, i + 1, hi);
    }
}

/// The cell reference spelled by `f[lo..hi]` (exec form of `parse_ref`).
pub(crate) fn exec_parse_ref(f: &str, lo: usize, hi: usize) -> (r: Option<(i32, i32)>)
    requires
        lo <= hi <= f@.len(),
    ensures
        match parse_ref(f@, lo as int, hi as int) {
            Some(p) => r == Some((p.0 as i32, p.1 as i32)),
            None => r is None,
        },
{
    let ghost s = f@;
    let a = if lo < hi && f.get_char(lo) == '$' {
        lo + 1
    } else {
        lo
    };
    assert(a == skip_dollar(s, lo as int, hi as int));
    proof {
        lemma_letters_end(s, a as int, hi as int);
    }
    let mut k = a;
    loop
        invariant
            a <= k <= hi,
            hi <= f@.len(),
            s == f@,
            letters_end(s, k as int, hi as int) == letters_end(s, a as int, hi as int),
        ensures
            k == letters_end(s, a as int, hi as int),
        decreases hi - k,
    {
        if k >= hi {
            break;
        }
        let c = f.get_char(k);
        let code = c as u32;
        if !((65 <= code && code <= 90) || (97 <= code && code <= 122)) {
            break;
        }
        k = k + 1;
    }
    proof {
        lemma_letters_end(s, k as int, hi as int);
    }
    assert(k == letters_end(s, a as int, hi as int));
    let d = if k < hi && f.get_char(k) == '$' {
        k + 1
    } else {
        k
    };
    assert(d == skip_dollar(s, k as int, hi as int));
    if !(a < k && d < hi) {
        return None;
    }
    let mut column: i64 = 0;
    let mut j = a;
    while j < k
        invariant
            a <= j <= k,
            k <= d < hi <= f@.len(),
            a < k,
            s == f@,
            a == skip_dollar(s, lo as int, hi as int),
            d == skip_dollar(s, k as int, hi as int),
            k == letters_end(s, a as int, hi as int),
            all_letters(s, a as int, k as int),
            column == letters_value(s, a as int, j as int),
            0 <= column <= LAST_COLUMN,
        decreases k - j,
    {
        let c = f.get_char(j);
        assert(is_letter(s[j as int]));
        let code = c as u32;
        let v: i64 = if code >= 97 {
            code as i64 - 96
        } else {
            code as i64 - 64
        };
        column = column * 26 + v;
        j = j + 1;
        assert(column == letters_value(s, a as int, j as int));
        if column > LAST_COLUMN as i64 {
            proof {
                lemma_letters_grow(s, a as int, j as int, k as int);
                assert(letters_value(s, a as int, k as int) > LAST_COLUMN);
            }
            return None;
        }
    }
    let mut row: i64 = 0;
    let mut j = d;
    while j < hi
        invariant
            d <= j <= hi,
            hi <= f@.len(),
            a < k <= d < hi,
            s == f@,
            a == skip_dollar(s, lo as int, hi as int),
            k == letters_end(s, a as int, hi as int),
            d == skip_dollar(s, k as int, hi as int),
            column == letters_value(s, a as int, k as int),
            0 <= column <= LAST_COLUMN,
            all_digits(s, d as int, j as int),
            row == digits_value(s, d as int, j as int),
            0 <= row <= LAST_ROW,
        decreases hi - j,
    {
        let c = f.get_char(j);
        if !(48 <= (c as u32) && (c as u32) <= 57) {
            assert(!is_digit(s[j as int]));
            return None;
        }
        row = row * 10 + (c as u32 as i64 - 48);
        j = j + 1;
        assert(row == digits_value(s, d as int, j as int));
        if row > LAST_ROW as i64 {
            proof {
                if all_digits(s, d as int, hi as int) {
                    lemma_digits_grow(s, d as int, j as int, hi as int);
                }
            }
            return None;
        }
    }
    assert(all_digits(s, d as int, hi as int));
    if column < 1 || row < 1 {
        return None;
    }
    Some((row as i32, column as i32))
}

proof fn lemma_colon_at(s: Seq<char>, i: int)
    requires
        0 <= i <= s.len(),
    ensures
        i <= colon_at(s, i) <= s.len(),
        colon_at(s, i) < s.len() ==> s[colon_at(s, i)] == ':',
    decreases s.len() - i,
{
    if i < s.len() && s[i] != ':' {
        lemma_colon_at(s, i + 1);
    }
}

/// The `(width, height)` over which formula `f` spills (exec form of `spill_size`).
pub fn formula_spill_size(f: &str) -> (r: Option<(i32, i32)>)
    ensures
        match spill_size(f@) {
            Some(p) => r == Some((p.0 as i32, p.1 as i32)) && 1 <= p.0 <= LAST_COLUMN && 1 <= p.1 <= LAST_ROW,
            None => r is None,
        },
{
    let ghost s = f@;
    let n = f.unicode_len();
    if n < 1 || f.get_char(0) != '=' {
        return None;
    }
    proof {
        lemma_colon_at(s, 1);
    }
    let mut p: usize = 1;
    loop
        invariant
            1 <= p <= n,
            n == s.len(),
            s == f@,
            colon_at(s, p as int) == colon_at(s, 1),
        ensures
            p == colon_at(s, 1),
        decreases n - p,
    {
        if p >= n {
            break;
        }
        if f.get_char(p) == ':' {
            break;
        }
        p = p + 1;
    }
    if p >= n {
        return None;
    }
    let first = exec_parse_ref(f, 1, p);
    let last = exec_parse_ref(f, p + 1, n);
    match (first, last) {
        (Some(a), Some(b)) => {
            if a.0 <= b.0 && a.1 <= b.1 {
                Some((b.1 - a.1 + 1, b.0 - a.0 + 1))
            } else {
                None
            }
        },
        _ => None,
    }
}

} // verus!
