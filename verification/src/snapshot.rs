//! Snapshots: a workbook as plain data, sparse, as it is stored. Numbers in snapshots are
//! numerals, and a numeral is kept as it was given: two numerals of one number are two values here.
//! A caller that wants one numeral for a number turns it into its shortest one, both what it hands
//! in and what comes out of a file.
use crate::style::Style;
use vstd::prelude::*;

verus! {

/// The tag that marks a stored snapshot.
pub fn snapshot_format() -> (r: String)
    ensures
        r@ == "cmx-megasheet"@,
{
    "cmx-megasheet".to_string()
}

/// The version of the snapshot's structure.
pub const SNAPSHOT_VERSION: u32 = 1;

/// What a cell shows.
#[derive(Debug, Clone, PartialEq)]
pub enum CellValue {
    /// A number, as a numeral: that of a file as it stands there. `0.10` and `0.1` are two values;
    /// reading and writing do not turn the one into the other.
    Number(String),
    Bool(bool),
    Text(String),
}

/// The font of a run of rich text.
#[derive(Debug, Clone, PartialEq)]
pub struct RichFont {
    pub bold: Option<bool>,
    pub italic: Option<bool>,
    pub underline: Option<bool>,
    pub strikethrough: Option<bool>,
    pub font_size: Option<String>,
    pub font_family: Option<String>,
    pub fore_color: Option<String>,
}

#[derive(Debug, Clone, PartialEq)]
pub struct RichRun {
    pub text: String,
    pub font: Option<RichFont>,
}

#[derive(Debug, Clone, PartialEq)]
pub struct RichText {
    pub runs: Vec<RichRun>,
}

/// A cell: its place and what it holds.
#[derive(Debug, Clone, PartialEq)]
pub struct CellSnapshot {
    pub r: u32,
    pub c: u32,
    pub v: Option<CellValue>,
    /// The formula, without `=`.
    pub f: Option<String>,
    pub s: Option<Style>,
    pub rich: Option<RichText>,
}

/// A group of rows or columns.
#[derive(Debug, Clone, Copy, PartialEq, Eq, Structural)]
pub struct OutlineGroupSnapshot {
    pub start: u32,
    pub count: u32,
    pub collapsed: bool,
}

/// An index with a numeral.
#[derive(Debug, Clone, PartialEq)]
pub struct NumPair(pub u32, pub String);

/// An index with a style.
#[derive(Debug, Clone, PartialEq)]
pub struct StylePair(pub u32, pub Style);

/// A name with the style that it stands for.
#[derive(Debug, Clone, PartialEq)]
pub struct NamedStyle {
    pub name: String,
    pub style: Style,
}

/// Merged cells.
#[derive(Debug, Clone, Copy, PartialEq, Eq, Structural)]
pub struct Span {
    pub row: u32,
    pub col: u32,
    pub row_count: u32,
    pub col_count: u32,
}

/// A block of cells.
#[derive(Debug, Clone, Copy, PartialEq, Eq, Structural)]
pub struct RegionRect {
    pub row: u32,
    pub col: u32,
    pub row_count: u32,
    pub col_count: u32,
}

impl RegionRect {
    pub fn new(row: u32, col: u32, row_count: u32, col_count: u32) -> (r: Self)
        ensures
            r == (RegionRect { row, col, row_count, col_count }),
    {
        RegionRect { row, col, row_count, col_count }
    }
}

#[derive(Debug, Clone, Copy, PartialEq, Eq, Structural)]
pub enum ValidationType {
    List,
    Whole,
    Decimal,
    Date,
    TextLength,
    Custom,
}

#[derive(Debug, Clone, PartialEq)]
pub struct DataValidation {
    pub range: RegionRect,
    pub validation_type: ValidationType,
    pub operator: Option<String>,
    pub formula1: Option<String>,
    pub formula2: Option<String>,
    pub list: Option<Vec<String>>,
    pub allow_blank: Option<bool>,
    pub prompt: Option<String>,
    pub error: Option<String>,
}

#[derive(Debug, Clone, PartialEq)]
pub struct Hyperlink {
    pub url: String,
    pub tooltip: Option<String>,
}

#[derive(Debug, Clone, PartialEq)]
pub struct CellComment {
    pub text: String,
    pub author: Option<String>,
}

#[derive(Debug, Clone, Copy, PartialEq, Eq, Structural)]
pub enum CondFormatType {
    CellValue,
    ColorScale,
    DataBar,
    IconSet,
    Duplicate,
    Formula,
}

#[derive(Debug, Clone, Copy, PartialEq, Eq, Structural)]
pub enum CondFormatOperator {
    Gt,
    Lt,
    Ge,
    Le,
    Eq,
    Ne,
    Between,
}

#[derive(Debug, Clone, PartialEq)]
pub enum CondValue {
    Number(String),
    Text(String),
}

#[derive(Debug, Clone, PartialEq)]
pub struct ConditionalRule {
    pub range: RegionRect,
    pub rule_type: CondFormatType,
    pub operator: Option<CondFormatOperator>,
    pub value1: Option<CondValue>,
    pub value2: Option<CondValue>,
    pub style: Option<Style>,
    pub colors: Option<Vec<String>>,
    pub bar_color: Option<String>,
    pub icon_set: Option<String>,
}

#[derive(Debug, Clone, Copy, PartialEq, Eq, Structural)]
pub enum ChartType {
    Bar,
    Column,
    Line,
    Area,
    Pie,
    Doughnut,
    Scatter,
    Bubble,
    Radar,
    Stock,
    Combo,
}

#[derive(Debug, Clone, PartialEq)]
pub struct ChartOptions {
    pub legend: Option<bool>,
    pub data_labels: Option<bool>,
    pub trendline: Option<String>,
    pub series_types: Option<Vec<String>>,
    pub secondary_axis: Option<Vec<u32>>,
}

#[derive(Debug, Clone, PartialEq)]
pub struct ChartSpec {
    pub chart_type: ChartType,
    pub data_range: RegionRect,
    pub title: Option<String>,
    pub first_row_header: Option<bool>,
    pub first_col_header: Option<bool>,
    pub options: Option<ChartOptions>,
}

#[derive(Debug, Clone, Copy, PartialEq, Eq, Structural)]
pub enum FloatingKind {
    Image,
    Chart,
    Shape,
}

/// The cells between which a floating object stands, with offsets as numerals.
#[derive(Debug, Clone, PartialEq)]
pub struct ObjAnchor {
    pub from_row: u32,
    pub from_col: u32,
    pub to_row: u32,
    pub to_col: u32,
    pub from_dx: Option<String>,
    pub from_dy: Option<String>,
    pub to_dx: Option<String>,
    pub to_dy: Option<String>,
}

#[derive(Debug, Clone, PartialEq)]
pub struct FloatingObject {
    pub id: String,
    pub kind: FloatingKind,
    pub anchor: ObjAnchor,
    pub src: Option<String>,
    pub chart: Option<ChartSpec>,
    pub shape: Option<String>,
    pub z: Option<String>,
}

#[derive(Debug, Clone, Copy, PartialEq, Eq, Structural)]
pub enum SparklineType {
    Line,
    Column,
    Winloss,
    Area,
    Bar,
    Pie,
    Bullet,
}

#[derive(Debug, Clone, PartialEq)]
pub struct Sparkline {
    pub sparkline_type: SparklineType,
    pub data_range: RegionRect,
    pub color: Option<String>,
    pub negative_color: Option<String>,
    pub markers: Option<bool>,
    pub high_low: Option<bool>,
    pub first_last: Option<bool>,
    pub target: Option<String>,
}

#[derive(Debug, Clone, Copy, PartialEq, Eq, Structural)]
pub enum Orientation {
    Portrait,
    Landscape,
}

/// The margins of a page: inches in a snapshot that goes to a file or comes from one.
#[derive(Debug, Clone, PartialEq)]
pub struct PageMargins {
    pub left: String,
    pub right: String,
    pub top: String,
    pub bottom: String,
}

#[derive(Debug, Clone, Copy, PartialEq, Eq, Structural)]
pub struct FitToPages {
    pub width: u32,
    pub height: u32,
}

#[derive(Debug, Clone, Copy, PartialEq, Eq, Structural)]
pub struct PrintTitles {
    pub row_start: Option<u32>,
    pub row_end: Option<u32>,
    pub col_start: Option<u32>,
    pub col_end: Option<u32>,
}

#[derive(Debug, Clone, PartialEq)]
pub struct PageSetup {
    pub orientation: Option<Orientation>,
    pub paper_size: Option<String>,
    pub margins: Option<PageMargins>,
    pub scale: Option<String>,
    pub fit_to_pages: Option<FitToPages>,
    pub print_area: Option<RegionRect>,
    pub print_titles: Option<PrintTitles>,
}

#[derive(Debug, Clone, Copy, PartialEq, Eq, Structural)]
pub struct SheetProtection {
    pub enabled: bool,
    pub allow_sort: Option<bool>,
    pub allow_filter: Option<bool>,
    pub allow_format_cells: Option<bool>,
    pub allow_insert_delete: Option<bool>,
    pub allow_select_locked: Option<bool>,
}

/// A sparkline with the row and the column of its cell.
#[derive(Debug, Clone, PartialEq)]
pub struct SparklineEntry(pub u32, pub u32, pub Sparkline);

/// A comment with the row and the column of its cell.
#[derive(Debug, Clone, PartialEq)]
pub struct CommentEntry(pub u32, pub u32, pub CellComment);

/// A link with the row and the column of its cell.
#[derive(Debug, Clone, PartialEq)]
pub struct HyperlinkEntry(pub u32, pub u32, pub Hyperlink);

/// A defined name.
#[derive(Debug, Clone, PartialEq)]
pub struct DefinedNameSnapshot {
    pub name: String,
    pub scope: String,
    pub refers_to: String,
}

/// A sheet. What is at its default is left out.
#[derive(Debug, Clone, PartialEq)]
pub struct SheetSnapshot {
    pub name: String,
    pub row_count: u32,
    pub col_count: u32,
    pub cells: Vec<CellSnapshot>,
    pub spans: Vec<Span>,
    /// Heights of rows, which files hold as they are.
    pub row_heights: Vec<NumPair>,
    /// Widths of columns: characters in a snapshot that goes to a file or comes from one.
    pub col_widths: Vec<NumPair>,
    pub row_styles: Vec<StylePair>,
    pub col_styles: Vec<StylePair>,
    pub default_style: Option<Style>,
    pub hidden_rows: Vec<u32>,
    pub hidden_cols: Vec<u32>,
    pub row_outlines: Vec<OutlineGroupSnapshot>,
    pub col_outlines: Vec<OutlineGroupSnapshot>,
    pub summary_below: Option<bool>,
    pub summary_right: Option<bool>,
    /// The zoom, as a numeral; none where it is the numeral `1`.
    pub zoom: Option<String>,
    pub active_row: Option<u32>,
    pub active_col: Option<u32>,
    pub validations: Vec<DataValidation>,
    pub hyperlinks: Vec<HyperlinkEntry>,
    pub conditional_rules: Vec<ConditionalRule>,
    pub comments: Vec<CommentEntry>,
    pub floating_objects: Vec<FloatingObject>,
    pub page_setup: Option<PageSetup>,
    pub protection: Option<SheetProtection>,
    pub sparklines: Vec<SparklineEntry>,
    /// Rows and columns that stay in view, as read from a file; not stored.
    pub frozen_pane: Option<(u32, u32)>,
}

/// A workbook.
#[derive(Debug, Clone, PartialEq)]
pub struct WorkbookSnapshot {
    pub format: String,
    pub version: u32,
    pub active_sheet: Option<usize>,
    pub styles: Option<Vec<NamedStyle>>,
    pub defined_names: Vec<DefinedNameSnapshot>,
    pub frozen_row_count: u32,
    pub frozen_col_count: u32,
    pub trailing_row_count: u32,
    pub trailing_col_count: u32,
    pub split_row: bool,
    pub split_col: bool,
    pub sheets: Vec<SheetSnapshot>,
}

/// Whether a flag is at its default, so that a stored snapshot leaves it out.
pub fn is_false(b: &bool) -> (r: bool)
    ensures
        r == !*b,
{
    !*b
}

/// Whether a count is at its default, so that a stored snapshot leaves it out.
pub fn is_zero(n: &u32) -> (r: bool)
    ensures
        r == (*n == 0),
{
    *n == 0
}

impl SheetSnapshot {
    /// A sheet with a name and a size and all else at its default.
    pub fn sized(name: String, row_count: u32, col_count: u32) -> (r: SheetSnapshot)
        ensures
            r.name == name,
            r.row_count == row_count,
            r.col_count == col_count,
            r.plain(),
    {
        SheetSnapshot {
            name,
            row_count,
            col_count,
            cells: Vec::new(),
            spans: Vec::new(),
            row_heights: Vec::new(),
            col_widths: Vec::new(),
            row_styles: Vec::new(),
            col_styles: Vec::new(),
            default_style: None,
            hidden_rows: Vec::new(),
            hidden_cols: Vec::new(),
            row_outlines: Vec::new(),
            col_outlines: Vec::new(),
            summary_below: None,
            summary_right: None,
            zoom: None,
            active_row: None,
            active_col: None,
            validations: Vec::new(),
            hyperlinks: Vec::new(),
            conditional_rules: Vec::new(),
            comments: Vec::new(),
            floating_objects: Vec::new(),
            page_setup: None,
            protection: None,
            sparklines: Vec::new(),
            frozen_pane: None,
        }
    }

    /// Whether the sheet holds nothing but its name and its size.
    pub open spec fn plain(&self) -> bool {
        &&& self.cells@.len() == 0
        &&& self.spans@.len() == 0
        &&& self.row_heights@.len() == 0
        &&& self.col_widths@.len() == 0
        &&& self.hidden_rows@.len() == 0
        &&& self.hidden_cols@.len() == 0
        &&& self.row_outlines@.len() == 0
        &&& self.col_outlines@.len() == 0
        &&& self.summary_below is None
        &&& self.summary_right is None
        &&& self.protection is None
        &&& self.frozen_pane is None
        &&& self.page_setup is None
        &&& self.rest_plain()
    }

    /// Whether what a spreadsheet file does not carry is at its default.
    pub open spec fn rest_plain(&self) -> bool {
        &&& self.row_styles@.len() == 0
        &&& self.col_styles@.len() == 0
        &&& self.default_style is None
        &&& self.zoom is None
        &&& self.active_row is None
        &&& self.active_col is None
        &&& self.validations@.len() == 0
        &&& self.hyperlinks@.len() == 0
        &&& self.conditional_rules@.len() == 0
        &&& self.comments@.len() == 0
        &&& self.floating_objects@.len() == 0
        &&& self.sparklines@.len() == 0
        &&& forall|i: int| 0 <= i < self.cells@.len() ==> (#[trigger] self.cells@[i]).rich is None
    }
}

impl Default for SheetSnapshot {
    fn default() -> (r: Self)
        ensures
            r.name@ == Seq::<char>::empty(),
            r.row_count == 0,
            r.col_count == 0,
            r.plain(),
    {
        SheetSnapshot::sized(String::new(), 0, 0)
    }
}

impl Default for WorkbookSnapshot {
    fn default() -> (r: Self)
        ensures
            r.format@ == Seq::<char>::empty(),
            r.version == 0,
            r.active_sheet is None,
            r.styles is None,
            r.defined_names@.len() == 0,
            r.frozen_row_count == 0,
            r.frozen_col_count == 0,
            r.trailing_row_count == 0,
            r.trailing_col_count == 0,
            !r.split_row,
            !r.split_col,
            r.sheets@.len() == 0,
    {
        WorkbookSnapshot {
            format: String::new(),
            version: 0,
            active_sheet: None,
            styles: None,
            defined_names: Vec::new(),
            frozen_row_count: 0,
            frozen_col_count: 0,
            trailing_row_count: 0,
            trailing_col_count: 0,
            split_row: false,
            split_col: false,
            sheets: Vec::new(),
        }
    }
}

impl Default for SheetProtection {
    fn default() -> (r: Self)
        ensures
            r == (SheetProtection {
                enabled: false,
                allow_sort: None,
                allow_filter: None,
                allow_format_cells: None,
                allow_insert_delete: None,
                allow_select_locked: None,
            }),
    {
        SheetProtection {
            enabled: false,
            allow_sort: None,
            allow_filter: None,
            allow_format_cells: None,
            allow_insert_delete: None,
            allow_select_locked: None,
        }
    }
}

/// What a cell shows, as text.
pub open spec fn shown(v: CellValue) -> Seq<char> {
    match v {
        CellValue::Number(n) => n@,
        CellValue::Bool(b) => if b {
            "TRUE"@
        } else {
            "FALSE"@
        },
        CellValue::Text(t) => t@,
    }
}

impl CellValue {
    /// What the cell shows, as text.
    pub fn to_text(&self) -> (r: String)
        ensures
            r@ == shown(*self),
    {
        match self {
            CellValue::Number(n) => n.clone(),
            CellValue::Bool(b) => if *b {
                "TRUE".to_string()
            } else {
                "FALSE".to_string()
            },
            CellValue::Text(t) => t.clone(),
        }
    }

    /// The same value again.
    pub fn copied(&self) -> (r: CellValue)
        ensures
            r == *self,
    {
        match self {
            CellValue::Number(n) => CellValue::Number(n.clone()),
            CellValue::Bool(b) => CellValue::Bool(*b),
            CellValue::Text(t) => CellValue::Text(t.clone()),
        }
    }
}

/// Whether a parsed snapshot is one of this format: an error says which tag it has instead.
pub fn check_format(format: &str) -> (r: Result<(), String>)
    ensures
        r is Ok <==> format@ == "cmx-megasheet"@,
        r matches Err(e) ==> e@ == "not a cmx-megasheet snapshot (format="@ + format@ + ")"@,
{
    if crate::text::same_text(format, "cmx-megasheet") {
        Ok(())
    } else {
        let mut e = "not a cmx-megasheet snapshot (format=".to_string();
        e.append(format);
        e.append(")");
        Err(e)
    }
}

} // verus!
