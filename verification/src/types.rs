use vstd::prelude::*;

verus! {

/// The last row of a worksheet (rows are 1-based).
pub const LAST_ROW: i32 = 1048576;

/// The last column of a worksheet (columns are 1-based).
pub const LAST_COLUMN: i32 = 16384;

/// A merged region: the anchor at `(row, column)` spanning `width` columns and
/// `height` rows.
#[derive(PartialEq, Eq, Structural, Clone, Copy, Debug)]
pub struct MergeCell {
    pub row: i32,
    pub column: i32,
    pub width: i32,
    pub height: i32,
}

/// A rectangle of cells on a given sheet.
#[derive(PartialEq, Eq, Structural, Clone, Copy, Debug)]
pub struct Area {
    pub sheet: u32,
    pub row: i32,
    pub column: i32,
    pub width: i32,
    pub height: i32,
}

/// Font flags of a cell style.
#[derive(PartialEq, Eq, Structural, Clone, Copy, Debug)]
pub struct Font {
    pub b: bool,
    pub i: bool,
    pub u: bool,
    pub strike: bool,
}

/// The style of a cell.
#[derive(PartialEq, Eq, Structural, Clone, Copy, Debug)]
pub struct Style {
    pub font: Font,
}

/// What a cell holds.
#[derive(Debug, PartialEq, Eq)]
pub enum CellContent {
    Empty,
    /// A plain value, kept as typed.
    Text(String),
    /// A formula, kept as typed (including the leading `=`).
    Formula(String),
    /// A formula entered over a whole range at once (an array formula), kept
    /// in the top-left cell of the range with the range's size.
    ArrayFormula { formula: String, width: i32, height: i32 },
}

/// A cell: its content and its style.
#[derive(Debug, PartialEq, Eq)]
pub struct Cell {
    pub content: CellContent,
    pub style: Style,
}

/// A hyperlink attached to a cell.
#[derive(Debug, PartialEq, Eq)]
pub enum Link {
    External { target: String, tooltip: Option<String> },
}

/// Everything stored at one grid position: the cell and its link.
#[derive(Debug, PartialEq, Eq)]
pub struct Slot {
    pub cell: Cell,
    pub link: Option<Link>,
}

/// How a cell takes part in an array formula.
#[derive(PartialEq, Eq, Structural, Clone, Copy, Debug)]
pub enum CellStructure {
    /// An ordinary cell.
    Single,
    /// The anchor of a dynamic array formula whose result spans `(width, height)`.
    DynamicFormula { width: i32, height: i32 },
    /// The anchor of an array formula entered over `(width, height)` cells.
    ArrayFormula { width: i32, height: i32 },
}

pub open spec fn default_style() -> Style {
    Style { font: Font { b: false, i: false, u: false, strike: false } }
}

pub open spec fn default_cell() -> Cell {
    Cell { content: CellContent::Empty, style: default_style() }
}

/// What an untouched grid position holds.
pub open spec fn default_slot() -> Slot {
    Slot { cell: default_cell(), link: None }
}

pub fn new_default_style() -> (s: Style)
    ensures
        s == default_style(),
{
    Style { font: Font { b: false, i: false, u: false, strike: false } }
}

pub fn new_default_slot() -> (s: Slot)
    ensures
        s == default_slot(),
{
    Slot { cell: Cell { content: CellContent::Empty, style: new_default_style() }, link: None }
}

impl CellContent {
    pub fn duplicate(&self) -> (r: CellContent)
        ensures
            r == *self,
    {
        match self {
            CellContent::Empty => CellContent::Empty,
            CellContent::Text(s) => CellContent::Text(s.clone()),
            CellContent::Formula(s) => CellContent::Formula(s.clone()),
            CellContent::ArrayFormula { formula, width, height } => CellContent::ArrayFormula {
                formula: formula.clone(),
                width: *width,
                height: *height,
            },
        }
    }
}

impl Cell {
    pub fn duplicate(&self) -> (r: Cell)
        ensures
            r == *self,
    {
        Cell { content: self.content.duplicate(), style: self.style }
    }
}

impl Link {
    pub fn duplicate(&self) -> (r: Link)
        ensures
            r == *self,
    {
        match self {
            Link::External { target, tooltip } => {
                let tooltip = match tooltip {
                    Some(t) => Some(t.clone()),
                    None => None,
                };
                Link::External { target: target.clone(), tooltip }
            },
        }
    }
}

pub fn duplicate_link(l: &Option<Link>) -> (r: Option<Link>)
    ensures
        r == *l,
{
    match l {
        Some(x) => Some(x.duplicate()),
        None => None,
    }
}

impl Slot {
    pub fn duplicate(&self) -> (r: Slot)
        ensures
            r == *self,
    {
        Slot { cell: self.cell.duplicate(), link: duplicate_link(&self.link) }
    }
}

} // verus!
