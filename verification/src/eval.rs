//! The values of cells: formulas are evaluated against the grid as it stands.
//!
//! A formula is `=` followed by an expression over integer literals, cell
//! references (`B1`, `$b$1`), parentheses, unary `-` and the binary operators
//! `+`, `-` and `*`, with the usual precedence and left associativity; spaces
//! may stand around operands. An empty cell reads as blank, which counts as
//! `0` in arithmetic; a text cell reads as its number when it spells an
//! integer, else as text, which arithmetic refuses.
//! A formula that names a range (`=B1:B3`) spills: its own cell shows the
//! first value of the range and the empty cells below and to the right of it
//! show the rest, one for one. An array formula spreads over its range the
//! same way, or shows its one value in every cell of the range. An empty cell
//! that two formulas spread over shows a spill error. Values are computed
//! when they are read, so every edit of the grid, a merge among them, is seen
//! by every formula at once.
use vstd::prelude::*;

use crate::formula::{
    all_digits, colon_at, digits_value, exec_parse_ref, formula_spill_size, is_digit, lemma_digits_grow,
    lemma_digits_nonneg, parse_ref, spill_size,
};
use crate::grid::{entries_wf, has_key, valid_position};
use crate::model::spill_of;
use crate::names::{decimal, number_to_decimal};
use crate::types::{CellContent, Slot, LAST_COLUMN, LAST_ROW};
use crate::worksheet::Worksheet;

verus! {

/// How many formulas deep a value is followed before the chain counts as circular.
pub const EVAL_DEPTH: u32 = 256;

/// The largest magnitude a number may reach.
pub const MAX_NUMBER: i64 = 999_999_999_999_999;

/// Why a value could not be computed.
#[derive(PartialEq, Eq, Structural, Clone, Copy, Debug)]
pub enum ErrorKind {
    /// Arithmetic on text.
    Value,
    /// A formula that depends on itself.
    Circular,
    /// A formula that does not parse.
    Syntax,
    /// A number beyond the largest magnitude.
    Overflow,
    /// Two formulas spread over one cell.
    Spill,
}

/// A computed value.
pub enum Val {
    Blank,
    Num(int),
    Str(Seq<char>),
    Error(ErrorKind),
}

/// A computed value, as the library hands it out.
#[derive(Debug)]
pub enum Value {
    Blank,
    Num(i64),
    Str(String),
    Error(ErrorKind),
}

impl View for Value {
    type V = Val;

    open spec fn view(&self) -> Val {
        match self {
            Value::Blank => Val::Blank,
            Value::Num(n) => Val::Num(*n as int),
            Value::Str(s) => Val::Str(s@),
            Value::Error(e) => Val::Error(*e),
        }
    }
}

pub open spec fn in_range(n: int) -> bool {
    -MAX_NUMBER <= n <= MAX_NUMBER
}

/// Every number a value holds is within range.
pub open spec fn value_ok(v: Val) -> bool {
    v matches Val::Num(n) ==> in_range(n)
}

pub open spec fn number_or_overflow(n: int) -> Val {
    if in_range(n) {
        Val::Num(n)
    } else {
        Val::Error(ErrorKind::Overflow)
    }
}

/// The number a value stands for in arithmetic: blank is `0`, text is refused,
/// an error passes through.
pub open spec fn operand(v: Val) -> Result<int, ErrorKind> {
    match v {
        Val::Blank => Ok(0),
        Val::Num(n) => Ok(n),
        Val::Str(_) => Err(ErrorKind::Value),
        Val::Error(e) => Err(e),
    }
}

/// `a op b` for `op` one of `+`, `-`, `*`; the left operand's error comes first.
pub open spec fn combine(op: char, a: Val, b: Val) -> Val {
    match (operand(a), operand(b)) {
        (Err(e), _) => Val::Error(e),
        (Ok(_), Err(e)) => Val::Error(e),
        (Ok(x), Ok(y)) => number_or_overflow(
            if op == '+' {
                x + y
            } else if op == '-' {
                x - y
            } else {
                x * y
            },
        ),
    }
}

pub open spec fn negate(a: Val) -> Val {
    match operand(a) {
        Err(e) => Val::Error(e),
        Ok(x) => number_or_overflow(-x),
    }
}

pub open spec fn paren_delta(c: char) -> int {
    if c == '(' {
        1
    } else if c == ')' {
        -1
    } else {
        0
    }
}

/// Open parentheses less closed ones in `s[lo..j]`.
pub open spec fn depth(s: Seq<char>, lo: int, j: int) -> int
    decreases j - lo,
{
    if j <= lo {
        0
    } else {
        depth(s, lo, j - 1) + paren_delta(s[j - 1])
    }
}

/// The last place before `i` in `s[lo..]` that is not a space, or `lo - 1`.
pub open spec fn last_nonspace(s: Seq<char>, lo: int, i: int) -> int
    decreases i - lo,
{
    if i <= lo {
        lo - 1
    } else if s[i - 1] != ' ' {
        i - 1
    } else {
        last_nonspace(s, lo, i - 1)
    }
}

/// A sign right after one of these is a unary minus, not a subtraction.
pub open spec fn opens_operand(c: char) -> bool {
    c == '+' || c == '-' || c == '*' || c == '('
}

/// `s[i]` is a binary operator outside all parentheses of `s[lo..]`: a `*`
/// when `mul`, else a `+` or a `-` that follows an operand.
pub open spec fn splits_at(s: Seq<char>, lo: int, i: int, mul: bool) -> bool {
    &&& lo < i
    &&& depth(s, lo, i) == 0
    &&& if mul {
        s[i] == '*'
    } else {
        &&& s[i] == '+' || s[i] == '-'
        &&& last_nonspace(s, lo, i) >= lo
        &&& !opens_operand(s[last_nonspace(s, lo, i)])
    }
}

/// The last place before `j` where `s[lo..]` splits, or `lo` if none.
pub open spec fn last_split(s: Seq<char>, lo: int, j: int, mul: bool) -> int
    decreases j - lo,
{
    if j <= lo {
        lo
    } else if splits_at(s, lo, j - 1, mul) {
        j - 1
    } else {
        last_split(s, lo, j - 1, mul)
    }
}

/// The value of the expression `s[lo..hi]`: `level` 2 is a sum, 1 a product,
/// 0 a single operand.
pub open spec fn eval_expr(
    g: Map<(int, int), Slot>,
    s: Seq<char>,
    lo: int,
    hi: int,
    fuel: nat,
    level: nat,
) -> Val
    decreases fuel, hi - lo, level,
{
    if level >= 2 {
        let k = last_split(s, lo, hi, false);
        if lo < k < hi {
            combine(s[k], eval_expr(g, s, lo, k, fuel, 2), eval_expr(g, s, k + 1, hi, fuel, 1))
        } else {
            eval_expr(g, s, lo, hi, fuel, 1)
        }
    } else if level == 1 {
        let k = last_split(s, lo, hi, true);
        if lo < k < hi {
            combine('*', eval_expr(g, s, lo, k, fuel, 1), eval_expr(g, s, k + 1, hi, fuel, 0))
        } else {
            eval_expr(g, s, lo, hi, fuel, 0)
        }
    } else if hi <= lo {
        Val::Error(ErrorKind::Syntax)
    } else if s[lo] == ' ' {
        eval_expr(g, s, lo + 1, hi, fuel, 0)
    } else if s[hi - 1] == ' ' {
        eval_expr(g, s, lo, hi - 1, fuel, 0)
    } else if s[lo] == '-' {
        negate(eval_expr(g, s, lo + 1, hi, fuel, 0))
    } else if s[lo] == '(' && hi - lo >= 2 && s[hi - 1] == ')' {
        eval_expr(g, s, lo + 1, hi - 1, fuel, 2)
    } else if all_digits(s, lo, hi) {
        number_or_overflow(digits_value(s, lo, hi))
    } else {
        match parse_ref(s, lo, hi) {
            Some(p) => cell_value(g, p, fuel),
            None => Val::Error(ErrorKind::Syntax),
        }
    }
}

/// The value of formula `f` (with its leading `=`).
pub open spec fn formula_value(g: Map<(int, int), Slot>, f: Seq<char>, fuel: nat) -> Val
    decreases fuel, f.len(), 3int,
{
    if f.len() == 0 || f[0] != '=' {
        Val::Error(ErrorKind::Syntax)
    } else if spill_size(f) is Some {
        match parse_ref(f, 1, colon_at(f, 1)) {
            Some(p) => cell_value(g, p, fuel),
            None => Val::Error(ErrorKind::Syntax),
        }
    } else {
        eval_expr(g, f, 1, f.len() as int, fuel, 2)
    }
}

/// The integer that text `t` spells (an optional `-` and digits), if it is one
/// within range.
pub open spec fn text_number(t: Seq<char>) -> Option<int> {
    if t.len() >= 1 && t[0] != '-' && all_digits(t, 0, t.len() as int) && in_range(
        digits_value(t, 0, t.len() as int),
    ) {
        Some(digits_value(t, 0, t.len() as int))
    } else if t.len() >= 2 && t[0] == '-' && all_digits(t, 1, t.len() as int) && in_range(
        digits_value(t, 1, t.len() as int),
    ) {
        Some(-digits_value(t, 1, t.len() as int))
    } else {
        None
    }
}

pub open spec fn text_value(t: Seq<char>) -> Val {
    match text_number(t) {
        Some(n) => Val::Num(n),
        None => Val::Str(t),
    }
}

/// The formula at `a` spreads over `k`, another cell of the sheet: it names
/// a range, or is an array formula, and its range holds `k`.
pub open spec fn spills_over(g: Map<(int, int), Slot>, a: (int, int), k: (int, int)) -> bool {
    &&& valid_position(a.0, a.1)
    &&& valid_position(k.0, k.1)
    &&& a != k
    &&& match spill_of(g[a]) {
        Some(sz) => a.0 <= k.0 < a.0 + sz.1 && a.1 <= k.1 < a.1 + sz.0,
        None => false,
    }
}

/// Some formula spreads over `k`.
pub open spec fn in_spill(g: Map<(int, int), Slot>, k: (int, int)) -> bool {
    exists|a: (int, int)| #[trigger] spills_over(g, a, k)
}

/// A formula that spreads over `k`.
pub open spec fn spill_anchor(g: Map<(int, int), Slot>, k: (int, int)) -> (int, int) {
    choose|a: (int, int)| #[trigger] spills_over(g, a, k)
}

/// No formula but `spill_anchor(g, k)` spreads over `k`.
pub open spec fn spill_unique(g: Map<(int, int), Slot>, k: (int, int)) -> bool {
    forall|b: (int, int)| #[trigger] spills_over(g, b, k) ==> b == spill_anchor(g, k)
}

/// The formula text a slot holds, as typed.
pub open spec fn formula_text(s: Slot) -> Seq<char> {
    match s.cell.content {
        CellContent::Formula(f) => f@,
        CellContent::ArrayFormula { formula, .. } => formula@,
        _ => Seq::empty(),
    }
}

/// The value of the cell at `k`, following formulas at most `fuel` deep.
pub open spec fn cell_value(g: Map<(int, int), Slot>, k: (int, int), fuel: nat) -> Val
    decreases fuel, 0int, 0int,
{
    match g[k].cell.content {
        CellContent::Empty => if !in_spill(g, k) {
            Val::Blank
        } else if !spill_unique(g, k) {
            Val::Error(ErrorKind::Spill)
        } else if fuel == 0 {
            Val::Error(ErrorKind::Circular)
        } else {
            let a = spill_anchor(g, k);
            let f = formula_text(g[a]);
            if spill_size(f) is Some {
                match parse_ref(f, 1, colon_at(f, 1)) {
                    Some(p) => cell_value(g, (p.0 + (k.0 - a.0), p.1 + (k.1 - a.1)), (fuel - 1) as nat),
                    None => Val::Error(ErrorKind::Syntax),
                }
            } else {
                formula_value(g, f, (fuel - 1) as nat)
            }
        },
        CellContent::Text(t) => text_value(t@),
        CellContent::Formula(f) => if fuel == 0 {
            Val::Error(ErrorKind::Circular)
        } else {
            formula_value(g, f@, (fuel - 1) as nat)
        },
        CellContent::ArrayFormula { formula, .. } => if fuel == 0 {
            Val::Error(ErrorKind::Circular)
        } else {
            formula_value(g, formula@, (fuel - 1) as nat)
        },
    }
}

pub open spec fn error_code(e: ErrorKind) -> Seq<char> {
    match e {
        ErrorKind::Value => "#VALUE!"@,
        ErrorKind::Circular => "#CIRC!"@,
        ErrorKind::Syntax => "#ERROR!"@,
        ErrorKind::Overflow => "#NUM!"@,
        ErrorKind::Spill => "#SPILL!"@,
    }
}

pub open spec fn number_text(n: int) -> Seq<char> {
    if n < 0 {
        "-"@ + decimal(-n)
    } else {
        decimal(n)
    }
}

/// How a computed value is shown: a blank result as `0`.
pub open spec fn value_text(v: Val) -> Seq<char> {
    match v {
        Val::Blank => "0"@,
        Val::Num(n) => number_text(n),
        Val::Str(s) => s,
        Val::Error(e) => error_code(e),
    }
}

/// What the cell at `k` shows: its text as typed, the computed value of its
/// formula or of the formula that spreads over it, and nothing otherwise.
pub open spec fn shown_value(g: Map<(int, int), Slot>, k: (int, int)) -> Seq<char> {
    match g[k].cell.content {
        CellContent::Empty => if in_spill(g, k) {
            value_text(cell_value(g, k, EVAL_DEPTH as nat))
        } else {
            Seq::empty()
        },
        CellContent::Text(t) => t@,
        _ => value_text(cell_value(g, k, EVAL_DEPTH as nat)),
    }
}

/// `a op b` (exec form of `combine`).
fn combine_values(op: char, a: Value, b: Value) -> (v: Value)
    requires
        value_ok(a@),
        value_ok(b@),
    ensures
        v@ == combine(op, a@, b@),
        value_ok(v@),
{
    let x: i64 = match a {
        Value::Blank => 0,
        Value::Num(n) => n,
        Value::Str(_) => return Value::Error(ErrorKind::Value),
        Value::Error(e) => return Value::Error(e),
    };
    let y: i64 = match b {
        Value::Blank => 0,
        Value::Num(n) => n,
        Value::Str(_) => return Value::Error(ErrorKind::Value),
        Value::Error(e) => return Value::Error(e),
    };
    let x = x as i128;
    let y = y as i128;
    assert(-MAX_NUMBER * MAX_NUMBER <= x * y <= MAX_NUMBER * MAX_NUMBER) by (nonlinear_arith)
        requires
            -MAX_NUMBER <= x <= MAX_NUMBER,
            -MAX_NUMBER <= y <= MAX_NUMBER,
    ;
    let r: i128 = if op == '+' {
        x + y
    } else if op == '-' {
        x - y
    } else {
        x * y
    };
    if -(MAX_NUMBER as i128) <= r && r <= MAX_NUMBER as i128 {
        Value::Num(r as i64)
    } else {
        Value::Error(ErrorKind::Overflow)
    }
}

/// `-a` (exec form of `negate`).
fn negate_value(a: Value) -> (v: Value)
    requires
        value_ok(a@),
    ensures
        v@ == negate(a@),
        value_ok(v@),
{
    match a {
        Value::Blank => Value::Num(0),
        Value::Num(n) => Value::Num(-n),
        Value::Str(_) => Value::Error(ErrorKind::Value),
        Value::Error(e) => Value::Error(e),
    }
}

/// The last place before `hi` where `f[lo..]` splits (exec form of `last_split`).
fn split_point(f: &str, lo: usize, hi: usize, mul: bool) -> (k: usize)
    requires
        lo <= hi <= f@.len(),
    ensures
        k == last_split(f@, lo as int, hi as int, mul),
{
    let ghost s = f@;
    let mut opens: usize = 0;
    let mut closes: usize = 0;
    let mut last: usize = lo;
    let mut has_prev = false;
    let mut prev: char = ' ';
    let mut i: usize = lo;
    while i < hi
        invariant
            lo <= i <= hi <= f@.len(),
            s == f@,
            opens <= i - lo,
            closes <= i - lo,
            opens - closes == depth(s, lo as int, i as int),
            last == last_split(s, lo as int, i as int, mul),
            has_prev == (last_nonspace(s, lo as int, i as int) >= lo),
            has_prev ==> prev == s[last_nonspace(s, lo as int, i as int)],
            lo - 1 <= last_nonspace(s, lo as int, i as int) < i,
        decreases hi - i,
    {
        let c = f.get_char(i);
        let at = if lo < i && opens == closes {
            if mul {
                c == '*'
            } else {
                (c == '+' || c == '-') && has_prev && !(prev == '+' || prev == '-' || prev == '*' || prev
                    == '(')
            }
        } else {
            false
        };
        assert(at == splits_at(s, lo as int, i as int, mul));
        if at {
            last = i;
        }
        if c == '(' {
            opens = opens + 1;
        } else if c == ')' {
            closes = closes + 1;
        }
        if c != ' ' {
            has_prev = true;
            prev = c;
        }
        i = i + 1;
    }
    last
}

/// Whether `f[lo..hi]` is all digits.
fn digits_only(f: &str, lo: usize, hi: usize) -> (r: bool)
    requires
        lo <= hi <= f@.len(),
    ensures
        r == all_digits(f@, lo as int, hi as int),
{
    let mut i = lo;
    while i < hi
        invariant
            lo <= i <= hi <= f@.len(),
            all_digits(f@, lo as int, i as int),
        decreases hi - i,
    {
        let c = f.get_char(i);
        if !(48 <= (c as u32) && (c as u32) <= 57) {
            assert(!is_digit(f@[i as int]));
            return false;
        }
        i = i + 1;
    }
    true
}

/// The number that the digits `f[lo..hi]` spell, if it is within range.
fn digits_number(f: &str, lo: usize, hi: usize) -> (r: Option<i64>)
    requires
        lo <= hi <= f@.len(),
        all_digits(f@, lo as int, hi as int),
    ensures
        match r {
            Some(n) => n == digits_value(f@, lo as int, hi as int) && in_range(n as int),
            None => !in_range(digits_value(f@, lo as int, hi as int)),
        },
{
    let mut n: i64 = 0;
    let mut i = lo;
    while i < hi
        invariant
            lo <= i <= hi <= f@.len(),
            all_digits(f@, lo as int, hi as int),
            n == digits_value(f@, lo as int, i as int),
            0 <= n <= MAX_NUMBER,
        decreases hi - i,
    {
        let c = f.get_char(i);
        assert(is_digit(f@[i as int]));
        n = n * 10 + (c as u32 as i64 - 48);
        i = i + 1;
        assert(n == digits_value(f@, lo as int, i as int));
        if n > MAX_NUMBER {
            proof {
                lemma_digits_grow(f@, lo as int, i as int, hi as int);
            }
            return None;
        }
    }
    Some(n)
}

/// The value of text `t` (exec form of `text_value`).
fn text_to_value(t: String) -> (v: Value)
    ensures
        v@ == text_value(t@),
        value_ok(v@),
{
    let n = t.unicode_len();
    let s = t.as_str();
    if n >= 1 && s.get_char(0) != '-' && digits_only(s, 0, n) {
        match digits_number(s, 0, n) {
            Some(x) => return Value::Num(x),
            None => {},
        }
    } else if n >= 2 && s.get_char(0) == '-' && digits_only(s, 1, n) {
        proof {
            lemma_digits_nonneg(t@, 1, n as int);
        }
        match digits_number(s, 1, n) {
            Some(x) => return Value::Num(-x),
            None => {},
        }
    }
    Value::Str(t)
}

/// What the search for a formula that spreads over a cell found.
pub enum SpillSearch {
    Nothing,
    One(i32, i32),
    Several,
}

/// The size of the range that what a slot holds spreads over (exec form of
/// `spill_of`).
fn slot_spill(s: &Slot) -> (r: Option<(i32, i32)>)
    ensures
        match spill_of(*s) {
            Some(sz) => r == Some((sz.0 as i32, sz.1 as i32)) && sz.0 == sz.0 as i32 && sz.1 == sz.1 as i32,
            None => r is None,
        },
{
    match &s.cell.content {
        CellContent::Formula(f) => formula_spill_size(f.as_str()),
        CellContent::ArrayFormula { width, height, .. } => Some((*width, *height)),
        _ => None,
    }
}

/// A formula that spreads over a cell holds something, so it is stored.
proof fn lemma_spill_stored(s: Seq<crate::grid::CellEntry>, b: (int, int), k: (int, int))
    requires
        entries_wf(s),
        spills_over(crate::grid::grid_of(s), b, k),
    ensures
        exists|j: int| 0 <= j < s.len() && has_key(#[trigger] s[j], b.0, b.1),
{
    if forall|j: int| 0 <= j < s.len() ==> !has_key(#[trigger] s[j], b.0, b.1) {
        crate::grid::lemma_lookup_absent(s, b.0, b.1);
    }
}

/// The formula that spreads over `(r, c)`, if one does (exec form of
/// `in_spill`, `spill_unique` and `spill_anchor`).
pub fn find_spill(ws: &Worksheet, r: i32, c: i32) -> (res: SpillSearch)
    requires
        ws.wf(),
    ensures
        match res {
            SpillSearch::Nothing => !in_spill(ws.state().grid, (r as int, c as int)),
            SpillSearch::One(a0, a1) => {
                &&& in_spill(ws.state().grid, (r as int, c as int))
                &&& spill_unique(ws.state().grid, (r as int, c as int))
                &&& spill_anchor(ws.state().grid, (r as int, c as int)) == (a0 as int, a1 as int)
            },
            SpillSearch::Several => in_spill(ws.state().grid, (r as int, c as int)) && !spill_unique(
                ws.state().grid,
                (r as int, c as int),
            ),
        },
{
    let ghost g = ws.state().grid;
    let ghost s = ws.cells@;
    let ghost k = (r as int, c as int);
    if !(1 <= r && r <= LAST_ROW && 1 <= c && c <= LAST_COLUMN) {
        return SpillSearch::Nothing;
    }
    let n = ws.cells.len();
    let mut found: Option<(i32, i32)> = None;
    let mut i: usize = 0;
    while i < n
        invariant
            n == s.len(),
            s == ws.cells@,
            g == ws.state().grid,
            g == crate::grid::grid_of(s),
            entries_wf(s),
            i <= n,
            k == (r as int, c as int),
            valid_position(k.0, k.1),
            match found {
                None => forall|j: int|
                    #![trigger s[j]]
                    0 <= j < i ==> !spills_over(g, (s[j].row as int, s[j].column as int), k),
                Some(a) => {
                    &&& spills_over(g, (a.0 as int, a.1 as int), k)
                    &&& forall|j: int|
                        #![trigger s[j]]
                        0 <= j < i && spills_over(g, (s[j].row as int, s[j].column as int), k) ==> s[j].row
                            == a.0 && s[j].column == a.1
                },
            },
        decreases n - i,
    {
        let x = &ws.cells[i];
        proof {
            crate::grid::lemma_lookup_entry(s, i as int);
            assert(valid_position(s[i as int].row as int, s[i as int].column as int));
        }
        let spreads = match slot_spill(&x.slot) {
            Some((w, h)) => !(x.row == r && x.column == c) && x.row as i64 <= r as i64 && (r as i64) < x.row as i64
                + h as i64 && x.column as i64 <= c as i64 && (c as i64) < x.column as i64 + w as i64,
            None => false,
        };
        assert(spreads == spills_over(g, (x.row as int, x.column as int), k));
        if spreads {
            match found {
                None => {
                    found = Some((x.row, x.column));
                },
                Some(a) => {
                    if !(a.0 == x.row && a.1 == x.column) {
                        proof {
                            let a2 = (a.0 as int, a.1 as int);
                            let b2 = (x.row as int, x.column as int);
                            let ch = spill_anchor(g, k);
                            assert(spills_over(g, a2, k));
                            assert(spills_over(g, b2, k));
                            if spill_unique(g, k) {
                                assert(a2 == ch);
                                assert(b2 == ch);
                            }
                        }
                        return SpillSearch::Several;
                    }
                },
            }
        }
        i = i + 1;
    }
    match found {
        None => {
            proof {
                assert forall|b: (int, int)| !#[trigger] spills_over(g, b, k) by {
                    if spills_over(g, b, k) {
                        lemma_spill_stored(s, b, k);
                        let j = choose|j: int| 0 <= j < s.len() && has_key(#[trigger] s[j], b.0, b.1);
                        assert(!spills_over(g, (s[j].row as int, s[j].column as int), k));
                    }
                }
            }
            SpillSearch::Nothing
        },
        Some(a) => {
            proof {
                let a2 = (a.0 as int, a.1 as int);
                assert forall|b: (int, int)| #[trigger] spills_over(g, b, k) implies b == a2 by {
                    lemma_spill_stored(s, b, k);
                    let j = choose|j: int| 0 <= j < s.len() && has_key(#[trigger] s[j], b.0, b.1);
                    assert(spills_over(g, (s[j].row as int, s[j].column as int), k));
                }
                assert(spills_over(g, a2, k));
                assert(spills_over(g, spill_anchor(g, k), k));
            }
            SpillSearch::One(a.0, a.1)
        },
    }
}

/// Where the range of the range formula `f` starts: the first `:` after the
/// leading `=` (exec form of `colon_at(f, 1)`).
fn range_colon(f: &str) -> (p: usize)
    requires
        f@.len() >= 1,
    ensures
        p == colon_at(f@, 1),
        1 <= p <= f@.len(),
{
    let n = f.unicode_len();
    let mut p: usize = 1;
    loop
        invariant
            1 <= p <= n,
            n == f@.len(),
            colon_at(f@, p as int) == colon_at(f@, 1),
        ensures
            p == colon_at(f@, 1),
            1 <= p <= n,
        decreases n - p,
    {
        if p >= n || f.get_char(p) == ':' {
            break;
        }
        p = p + 1;
    }
    p
}

/// The value of the cell at `(row, column)` (exec form of `cell_value`).
pub fn read_value(ws: &Worksheet, row: i32, column: i32, fuel: u32) -> (v: Value)
    requires
        ws.wf(),
    ensures
        v@ == cell_value(ws.state().grid, (row as int, column as int), fuel as nat),
        value_ok(v@),
    decreases fuel, 0int, 0int,
{
    let slot = ws.slot(row, column);
    match slot.cell.content {
        CellContent::Empty => match find_spill(ws, row, column) {
            SpillSearch::Nothing => Value::Blank,
            SpillSearch::Several => Value::Error(ErrorKind::Spill),
            SpillSearch::One(ar, ac) => {
                if fuel == 0 {
                    return Value::Error(ErrorKind::Circular);
                }
                let ghost g = ws.state().grid;
                let anchor = ws.slot(ar, ac);
                let f: String = match anchor.cell.content {
                    CellContent::Formula(f) => f,
                    CellContent::ArrayFormula { formula, .. } => formula,
                    _ => String::new(),
                };
                assert(f@ == formula_text(g[(ar as int, ac as int)]));
                if formula_spill_size(f.as_str()).is_some() {
                    let p = range_colon(f.as_str());
                    match exec_parse_ref(f.as_str(), 1, p) {
                        Some((pr, pc)) => {
                            let tr = pr as i64 + (row as i64 - ar as i64);
                            let tc = pc as i64 + (column as i64 - ac as i64);
                            if 1 <= tr && tr <= LAST_ROW as i64 && 1 <= tc && tc <= LAST_COLUMN as i64 {
                                read_value(ws, tr as i32, tc as i32, fuel - 1)
                            } else {
                                proof {
                                    let t = (tr as int, tc as int);
                                    let s = ws.cells@;
                                    assert forall|j: int| 0 <= j < s.len() implies !has_key(
                                        #[trigger] s[j],
                                        t.0,
                                        t.1,
                                    ) by {
                                        assert(valid_position(s[j].row as int, s[j].column as int));
                                    }
                                    crate::grid::lemma_lookup_absent(s, t.0, t.1);
                                    assert(!in_spill(g, t));
                                }
                                Value::Blank
                            }
                        },
                        None => Value::Error(ErrorKind::Syntax),
                    }
                } else {
                    formula_result(ws, f.as_str(), fuel - 1)
                }
            },
        },
        CellContent::Text(t) => text_to_value(t),
        CellContent::Formula(f) => {
            if fuel == 0 {
                Value::Error(ErrorKind::Circular)
            } else {
                formula_result(ws, f.as_str(), fuel - 1)
            }
        },
        CellContent::ArrayFormula { formula, .. } => {
            if fuel == 0 {
                Value::Error(ErrorKind::Circular)
            } else {
                formula_result(ws, formula.as_str(), fuel - 1)
            }
        },
    }
}

/// The value of formula `f` (exec form of `formula_value`).
pub fn formula_result(ws: &Worksheet, f: &str, fuel: u32) -> (v: Value)
    requires
        ws.wf(),
    ensures
        v@ == formula_value(ws.state().grid, f@, fuel as nat),
        value_ok(v@),
    decreases fuel, f@.len(), 3int,
{
    let n = f.unicode_len();
    if n == 0 || f.get_char(0) != '=' {
        return Value::Error(ErrorKind::Syntax);
    }
    if formula_spill_size(f).is_some() {
        let p = range_colon(f);
        match exec_parse_ref(f, 1, p) {
            Some((r, c)) => read_value(ws, r, c, fuel),
            None => Value::Error(ErrorKind::Syntax),
        }
    } else {
        eval_range(ws, f, 1, n, fuel, 2)
    }
}

/// The value of the expression `f[lo..hi]` (exec form of `eval_expr`).
fn eval_range(ws: &Worksheet, f: &str, lo: usize, hi: usize, fuel: u32, level: u8) -> (v: Value)
    requires
        ws.wf(),
        lo <= hi <= f@.len(),
        level <= 2,
    ensures
        v@ == eval_expr(ws.state().grid, f@, lo as int, hi as int, fuel as nat, level as nat),
        value_ok(v@),
    decreases fuel, hi - lo, level,
{
    if level >= 2 {
        let k = split_point(f, lo, hi, false);
        if lo < k && k < hi {
            let a = eval_range(ws, f, lo, k, fuel, 2);
            let b = eval_range(ws, f, k + 1, hi, fuel, 1);
            combine_values(f.get_char(k), a, b)
        } else {
            eval_range(ws, f, lo, hi, fuel, 1)
        }
    } else if level == 1 {
        let k = split_point(f, lo, hi, true);
        if lo < k && k < hi {
            let a = eval_range(ws, f, lo, k, fuel, 1);
            let b = eval_range(ws, f, k + 1, hi, fuel, 0);
            combine_values('*', a, b)
        } else {
            eval_range(ws, f, lo, hi, fuel, 0)
        }
    } else if hi <= lo {
        Value::Error(ErrorKind::Syntax)
    } else if f.get_char(lo) == ' ' {
        eval_range(ws, f, lo + 1, hi, fuel, 0)
    } else if f.get_char(hi - 1) == ' ' {
        eval_range(ws, f, lo, hi - 1, fuel, 0)
    } else {
        let c = f.get_char(lo);
        if c == '-' {
            negate_value(eval_range(ws, f, lo + 1, hi, fuel, 0))
        } else if c == '(' && hi - lo >= 2 && f.get_char(hi - 1) == ')' {
            eval_range(ws, f, lo + 1, hi - 1, fuel, 2)
        } else if digits_only(f, lo, hi) {
            match digits_number(f, lo, hi) {
                Some(x) => Value::Num(x),
                None => Value::Error(ErrorKind::Overflow),
            }
        } else {
            match exec_parse_ref(f, lo, hi) {
                Some((r, col)) => read_value(ws, r, col, fuel),
                None => Value::Error(ErrorKind::Syntax),
            }
        }
    }
}

/// How a computed value is shown (exec form of `value_text`).
pub fn value_to_text(v: &Value) -> (s: String)
    requires
        value_ok(v@),
    ensures
        s@ == value_text(v@),
{
    match v {
        Value::Blank => String::from_str("0"),
        Value::Num(n) => {
            if *n < 0 {
                let mut s = String::from_str("-");
                let d = number_to_decimal((-*n) as u64);
                s.append(d.as_str());
                s
            } else {
                number_to_decimal(*n as u64)
            }
        },
        Value::Str(t) => t.clone(),
        Value::Error(e) => match e {
            ErrorKind::Value => String::from_str("#VALUE!"),
            ErrorKind::Circular => String::from_str("#CIRC!"),
            ErrorKind::Syntax => String::from_str("#ERROR!"),
            ErrorKind::Overflow => String::from_str("#NUM!"),
            ErrorKind::Spill => String::from_str("#SPILL!"),
        },
    }
}

} // verus!
