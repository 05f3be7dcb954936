//! Column widths and cell texts of the entry table.
use pad::PadStr;
use vstd::prelude::*;

use crate::column::{Alignment, Column, ColumnType};
use crate::entry::{arrange, display_sorted, shown, EntryType, Item};
use crate::options::ViewOptions;
use crate::size::{size_string, size_text};

verus! {

/// Width of the table's border on each side, and of the separator between two columns.
pub const BORDER_WIDTH: u64 = 1;

/// The width taken by borders and separators around `n` columns.
pub open spec fn border_units(n: nat) -> nat {
    (2 * BORDER_WIDTH + if n > 1 {
        n - 1
    } else {
        0
    }) as nat
}

pub open spec fn fixed_sum(cols: Seq<Column>) -> nat
    decreases cols.len(),
{
    if cols.len() == 0 {
        0
    } else {
        fixed_sum(cols.drop_last()) + if cols.last().is_fixed_width {
            cols.last().width as nat
        } else {
            0
        }
    }
}

pub open spec fn relative_sum(cols: Seq<Column>) -> nat
    decreases cols.len(),
{
    if cols.len() == 0 {
        0
    } else {
        relative_sum(cols.drop_last()) + if cols.last().is_fixed_width {
            0
        } else {
            cols.last().width as nat
        }
    }
}

/// The width left for the columns once borders and separators are taken.
pub open spec fn usable_width(cols: Seq<Column>, available: nat) -> nat {
    if available < border_units(cols.len()) {
        0
    } else {
        (available - border_units(cols.len())) as nat
    }
}

/// The rendered width of one column: a fixed column keeps its width; a relative one
/// gets the floor of its weight's share of what the fixed columns leave, or 0 when
/// they leave nothing or no column is relative.
pub open spec fn column_width(cols: Seq<Column>, available: nat, c: Column) -> nat {
    let usable = usable_width(cols, available);
    let f = fixed_sum(cols);
    let r = relative_sum(cols);
    if c.is_fixed_width {
        c.width as nat
    } else if r == 0 || f >= usable {
        0
    } else {
        (c.width as nat * (usable - f) as nat) / r
    }
}

proof fn lemma_weight_le_relative(cols: Seq<Column>, c: int)
    requires
        0 <= c < cols.len(),
        !cols[c].is_fixed_width,
    ensures
        cols[c].width as nat <= relative_sum(cols),
    decreases cols.len(),
{
    if c < cols.len() - 1 {
        lemma_weight_le_relative(cols.drop_last(), c);
    }
}

/// The rendered width of each declared column, in order, for a table `total_width`
/// characters wide.
pub fn generate_widths(options: &ViewOptions, total_width: u16) -> (r: Vec<u16>)
    ensures
        r@.len() == options.entry_format@.len(),
        forall|i: int| 0 <= i < r@.len() ==> #[trigger] r@[i] as nat == column_width(
            options.entry_format@,
            total_width as nat,
            options.entry_format@[i],
        ),
{
    let cols = &options.entry_format;
    let n = cols.len();
    let border: u128 = 2 * BORDER_WIDTH as u128 + if n > 1 {
        (n - 1) as u128
    } else {
        0
    };
    let usable: u128 = if (total_width as u128) < border {
        0
    } else {
        total_width as u128 - border
    };
    let mut sum_fixed: u128 = 0;
    let mut sum_relative: u128 = 0;
    let mut i: usize = 0;
    while i < n
        invariant
            n == cols@.len(),
            i <= n,
            sum_fixed as nat == fixed_sum(cols@.subrange(0, i as int)),
            sum_relative as nat == relative_sum(cols@.subrange(0, i as int)),
            sum_fixed <= i * 65535,
            sum_relative <= i * 65535,
        decreases n - i,
    {
        let ghost sub = cols@.subrange(0, i + 1);
        assert(sub.drop_last() =~= cols@.subrange(0, i as int));
        assert(i * 65535 + 65535 == (i + 1) * 65535) by (nonlinear_arith);
        if cols[i].is_fixed_width {
            sum_fixed = sum_fixed + cols[i].width as u128;
        } else {
            sum_relative = sum_relative + cols[i].width as u128;
        }
        i = i + 1;
    }
    assert(cols@.subrange(0, n as int) =~= cols@);
    let mut widths: Vec<u16> = Vec::new();
    let mut j: usize = 0;
    while j < n
        invariant
            n == cols@.len(),
            j <= n,
            sum_fixed as nat == fixed_sum(cols@),
            sum_relative as nat == relative_sum(cols@),
            usable as nat == usable_width(cols@, total_width as nat),
            usable <= 65535,
            widths@.len() == j,
            forall|k: int| 0 <= k < j ==> #[trigger] widths@[k] as nat == column_width(
                cols@,
                total_width as nat,
                cols@[k],
            ),
        decreases n - j,
    {
        let c = cols[j];
        let w: u16 = if c.is_fixed_width {
            c.width
        } else if sum_relative == 0 || sum_fixed >= usable {
            0
        } else {
            proof { lemma_weight_le_relative(cols@, j as int); }
            let free = usable - sum_fixed;
            assert(c.width as u128 * free <= 65535 * 65535) by (nonlinear_arith)
                requires
                    c.width <= 65535,
                    free <= 65535,
            {}
            let share = (c.width as u128 * free) / sum_relative;
            let ghost wi = c.width as int;
            let ghost fi = free as int;
            let ghost ri = sum_relative as int;
            assert((wi * fi) / ri <= fi) by (nonlinear_arith)
                requires
                    0 <= wi <= ri,
                    ri > 0,
                    fi >= 0,
            {
                assert(wi * fi <= ri * fi);
            }
            share as u16
        };
        widths.push(w);
        j = j + 1;
    }
    widths
}

/// The size column's text for entries other than files.
pub const DIR_SIZE_PLACEHOLDER: &'static str = "<DIR>";
pub const LINK_SIZE_PLACEHOLDER: &'static str = " --> ";
pub const UNKNOWN_SIZE_PLACEHOLDER: &'static str = "<???>";

/// The text of the size column: the size of a file, else a placeholder of its kind.
pub open spec fn size_cell(item: Item) -> Seq<char> {
    match item.entry_type {
        EntryType::Dir => DIR_SIZE_PLACEHOLDER@,
        EntryType::Link => LINK_SIZE_PLACEHOLDER@,
        EntryType::File => match item.size {
            Some(n) => size_text(n as nat),
            None => UNKNOWN_SIZE_PLACEHOLDER@,
        },
        EntryType::Unknown => UNKNOWN_SIZE_PLACEHOLDER@,
    }
}

/// The unpadded text of one cell.
pub open spec fn cell_text(item: Item, t: ColumnType) -> Seq<char> {
    match t {
        ColumnType::Name => item.name@,
        ColumnType::Size => size_cell(item),
    }
}

/// The name column's text.
pub fn generate_name(item: &Item) -> (r: String)
    ensures
        r@ == item.name@,
{
    item.name.clone()
}

/// The size column's text.
pub fn generate_size(item: &Item) -> (r: String)
    ensures
        r@ == size_cell(*item),
{
    match item.entry_type {
        EntryType::Dir => String::from_str(DIR_SIZE_PLACEHOLDER),
        EntryType::Link => String::from_str(LINK_SIZE_PLACEHOLDER),
        EntryType::File => match item.size {
            Some(n) => size_string(n),
            None => String::from_str(UNKNOWN_SIZE_PLACEHOLDER),
        },
        EntryType::Unknown => String::from_str(UNKNOWN_SIZE_PLACEHOLDER),
    }
}

/// Whether every character is a printable ASCII character (space to '~').
pub open spec fn printable_ascii(s: Seq<char>) -> bool {
    forall|i: int| 0 <= i < s.len() ==> ' ' <= #[trigger] s[i] && s[i] <= '~'
}

pub open spec fn spaces(n: nat) -> Seq<char> {
    Seq::new(n, |i: int| ' ')
}

/// What unicode-width's `UnicodeWidthStr::width` gives for a text: the number of
/// terminal columns it takes.
pub uninterp spec fn display_width(s: Seq<char>) -> nat;

/// Text filled with spaces to `width` terminal columns, on the side(s) that `alignment`
/// leaves open (a centred text takes the odd space on its right), measured by `dw`;
/// text already that wide stays as it is.
pub open spec fn filled(s: Seq<char>, dw: nat, width: nat, alignment: Alignment) -> Seq<char> {
    if dw >= width {
        s
    } else {
        let diff = (width - dw) as nat;
        let left: nat = match alignment {
            Alignment::Left => 0,
            Alignment::Right => diff,
            Alignment::Center => diff / 2,
        };
        spaces(left) + s + spaces((diff - left) as nat)
    }
}

/// Relies on the pad crate's `PadStr::pad` with ' ' and without truncation: it measures
/// the text with unicode-width's `UnicodeWidthStr::width` (one column for each printable
/// ASCII character), returns text at least `width` columns wide unchanged, and else adds
/// the missing columns as spaces as `alignment` says.
#[verifier::external_body]
fn pad_text(s: &str, width: usize, alignment: Alignment) -> (r: String)
    ensures
        r@ == filled(s@, display_width(s@), width as nat, alignment),
        printable_ascii(s@) ==> r@ == filled(s@, s@.len(), width as nat, alignment),
{
    let alignment = match alignment {
        Alignment::Left => pad::Alignment::Left,
        Alignment::Center => pad::Alignment::Middle,
        Alignment::Right => pad::Alignment::Right,
    };
    s.pad(width, ' ', alignment, false)
}

/// Text cut to its first `width` characters when it is longer.
pub open spec fn cut(s: Seq<char>, width: nat) -> Seq<char> {
    if s.len() > width {
        s.subrange(0, width as int)
    } else {
        s
    }
}

fn cut_text(s: &str, width: usize) -> (r: &str)
    ensures
        r@ == cut(s@, width as nat),
{
    let n = s.unicode_len();
    if n > width {
        s.substring_char(0, width)
    } else {
        s
    }
}

/// A cell: its text cut to `width` characters, then filled with spaces to `width`
/// terminal columns.
pub open spec fn cell(item: Item, c: Column, width: nat) -> Seq<char> {
    let t = cut(cell_text(item, c.column_type), width);
    filled(t, display_width(t), width, c.alignment)
}

proof fn lemma_filled_len(s: Seq<char>, width: nat, alignment: Alignment)
    requires
        s.len() <= width,
    ensures
        filled(s, s.len(), width, alignment).len() == width,
{
}

/// The cells of one entry, one for each column and width taken in pairs, as far as the
/// shorter list goes. A cell whose cut text takes one terminal column per character, as
/// printable ASCII text does, is exactly its width long.
pub fn generate_columns(item: &Item, columns: &Vec<Column>, widths: &Vec<u16>) -> (r: Vec<String>)
    ensures
        r@.len() == if columns@.len() <= widths@.len() {
            columns@.len()
        } else {
            widths@.len()
        },
        forall|i: int| 0 <= i < r@.len() ==> (#[trigger] r@[i])@ == cell(*item, columns@[i], widths@[i] as nat),
        forall|i: int|
            0 <= i < r@.len() ==> ({
                let t = cut(cell_text(*item, columns@[i].column_type), widths@[i] as nat);
                (display_width(t) == t.len() || printable_ascii(cell_text(*item, columns@[i].column_type)))
                    ==> (#[trigger] r@[i])@.len() == widths@[i]
            }),
{
    let n = if columns.len() <= widths.len() {
        columns.len()
    } else {
        widths.len()
    };
    let mut cells: Vec<String> = Vec::new();
    let mut i: usize = 0;
    while i < n
        invariant
            n <= columns@.len(),
            n <= widths@.len(),
            i <= n,
            cells@.len() == i,
            forall|k: int| 0 <= k < i ==> (#[trigger] cells@[k])@ == cell(*item, columns@[k], widths@[k] as nat),
            forall|k: int|
                0 <= k < i ==> ({
                    let t = cut(cell_text(*item, columns@[k].column_type), widths@[k] as nat);
                    (display_width(t) == t.len() || printable_ascii(cell_text(*item, columns@[k].column_type)))
                        ==> (#[trigger] cells@[k])@.len() == widths@[k]
                }),
        decreases n - i,
    {
        let column = columns[i];
        let width = widths[i] as usize;
        let text = match column.column_type {
            ColumnType::Name => generate_name(item),
            ColumnType::Size => generate_size(item),
        };
        let t = cut_text(text.as_str(), width);
        let c = pad_text(t, width, column.alignment);
        proof {
            lemma_filled_len(t@, width as nat, column.alignment);
            if printable_ascii(text@) {
                assert(printable_ascii(t@)) by {
                    if text@.len() > width {
                        assert forall|j: int| 0 <= j < t@.len() implies ' ' <= #[trigger] t@[j] && t@[j] <= '~' by {
                            assert(t@[j] == text@[j]);
                        }
                    }
                }
            }
        }
        cells.push(c);
        i = i + 1;
    }
    cells
}

/// One listed entry: its kind (which decides its style) and its cells.
#[derive(Debug)]
pub struct TableRow {
    pub entry_type: EntryType,
    pub cells: Vec<String>,
}

/// The entry table: which entries are listed and in what order, their rows, and the
/// rendered width of each column.
#[derive(Debug)]
pub struct TableData {
    pub positions: Vec<usize>,
    pub rows: Vec<TableRow>,
    pub widths: Vec<u16>,
}

/// Lays out the entry table for a terminal `terminal_width` characters wide: the listed
/// entries in listing order (see `arrange`), each with one cell per declared column.
pub fn get_table_data(items: &Vec<Item>, options: &ViewOptions, terminal_width: u16) -> (r: TableData)
    ensures
        forall|k: int| 0 <= k < r.positions@.len() ==> (#[trigger] r.positions@[k]) < items@.len(),
        forall|y: usize| r.positions@.contains(y) <==> shown(items@, options.show_hidden, y as int),
        display_sorted(items@, r.positions@),
        r.widths@.len() == options.entry_format@.len(),
        forall|i: int| 0 <= i < r.widths@.len() ==> #[trigger] r.widths@[i] as nat == column_width(
            options.entry_format@,
            terminal_width as nat,
            options.entry_format@[i],
        ),
        r.rows@.len() == r.positions@.len(),
        forall|k: int| 0 <= k < r.rows@.len() ==> (#[trigger] r.rows@[k]).entry_type == items@[r.positions@[k] as int].entry_type
            && r.rows@[k].cells@.len() == options.entry_format@.len()
            && forall|i: int| 0 <= i < options.entry_format@.len() ==> (#[trigger] r.rows@[k].cells@[i])@ == cell(
                items@[r.positions@[k] as int],
                options.entry_format@[i],
                r.widths@[i] as nat,
            ),
{
    let positions = arrange(items, options.show_hidden);
    let widths = generate_widths(options, terminal_width);
    let mut rows: Vec<TableRow> = Vec::new();
    let mut k: usize = 0;
    while k < positions.len()
        invariant
            forall|j: int| 0 <= j < positions@.len() ==> (#[trigger] positions@[j]) < items@.len(),
            widths@.len() == options.entry_format@.len(),
            k <= positions@.len(),
            rows@.len() == k,
            forall|j: int| 0 <= j < k ==> (#[trigger] rows@[j]).entry_type == items@[positions@[j] as int].entry_type
                && rows@[j].cells@.len() == options.entry_format@.len()
                && forall|i: int| 0 <= i < options.entry_format@.len() ==> (#[trigger] rows@[j].cells@[i])@ == cell(
                    items@[positions@[j] as int],
                    options.entry_format@[i],
                    widths@[i] as nat,
                ),
        decreases positions@.len() - k,
    {
        let item = &items[positions[k]];
        let cells = generate_columns(item, &options.entry_format, &widths);
        rows.push(TableRow { entry_type: item.entry_type, cells });
        k = k + 1;
    }
    TableData { positions, rows, widths }
}

} // verus!
