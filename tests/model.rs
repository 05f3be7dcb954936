use rsfm::column::{Alignment, Column, ColumnType};
use rsfm::entry::{arrange, split_into_parts, EntryType, Item};
use rsfm::session::{Action, KeyInput, Session};
use rsfm::size::{size_hundredths, size_string};
use rsfm::table::{generate_columns, generate_widths, get_table_data};
use rsfm::ViewOptions;

fn items_of(types: &[EntryType]) -> Vec<Item> {
    types
        .iter()
        .map(|t| Item { name: String::new(), entry_type: *t, size: None })
        .collect()
}

fn item(name: &str, entry_type: EntryType, size: Option<u64>) -> Item {
    Item { name: name.to_string(), entry_type, size }
}

fn check_slices(items: &Vec<Item>) {
    let slices = split_into_parts(items);
    assert_eq!(slices.len(), 3);

    assert_eq!(slices[0].begin, 0);
    assert_eq!(slices[0].end, 3);

    assert_eq!(slices[1].begin, 3);
    assert_eq!(slices[1].end, 5);

    assert_eq!(slices[2].begin, 5);
    assert_eq!(slices[2].end, 8);
}

#[test]
fn model_as_slice_by_type() {
    let items = items_of(&[
        EntryType::Unknown,
        EntryType::Unknown,
        EntryType::Unknown,
        EntryType::Dir,
        EntryType::Dir,
        EntryType::File,
        EntryType::File,
        EntryType::Link,
    ]);
    check_slices(&items);
}

#[test]
fn ui_as_slice_by_type() {
    let items = items_of(&[
        EntryType::Unknown,
        EntryType::Unknown,
        EntryType::Unknown,
        EntryType::Dir,
        EntryType::Dir,
        EntryType::File,
        EntryType::File,
        EntryType::Link,
    ]);
    check_slices(&items);
}

#[test]
fn split_edges() {
    assert!(split_into_parts(&Vec::new()).is_empty());
    let one = split_into_parts(&items_of(&[EntryType::File]));
    assert_eq!((one[0].begin, one[0].end), (0, 1));
}

fn size_in_units(size_in_bytes: u64) -> (f64, String) {
    let (hundredths, unit) = size_hundredths(size_in_bytes);
    (hundredths as f64 / 100.0, unit.to_string())
}

#[test]
fn human_readable_size() {
    assert_eq!((999_f64, "B".into()), size_in_units(999));
    assert_eq!((0.98, "K".into()), size_in_units(1000));
    assert_eq!((999_f64, "K".into()), size_in_units(1022976));
    assert_eq!((0.98, "M".into()), size_in_units(1024000));
    assert_eq!((999_f64, "M".into()), size_in_units(1047527424));
    assert_eq!((0.98, "G".into()), size_in_units(1048576000));
    assert_eq!((16.0, "X".into()), size_in_units(u64::max_value()));
}

#[test]
fn size_text() {
    assert_eq!(size_string(0), "0 B");
    assert_eq!(size_string(999), "999 B");
    assert_eq!(size_string(1000), "0.98 K");
    assert_eq!(size_string(1536), "1.5 K");
    assert_eq!(size_string(1075), "1.05 K");
    assert_eq!(size_string(u64::MAX), "16 X");
    assert_eq!(size_hundredths(1023), (100, "K"));
}

#[test]
fn classify_precedence() {
    assert_eq!(EntryType::new(true, true, true), EntryType::Dir);
    assert_eq!(EntryType::new(false, true, true), EntryType::File);
    assert_eq!(EntryType::new(false, false, true), EntryType::Link);
    assert_eq!(EntryType::new(false, false, false), EntryType::Unknown);
}

#[test]
fn listing_order() {
    let items = vec![
        item("zeta", EntryType::File, Some(1)),
        item("?odd", EntryType::Unknown, None),
        item(".hidden", EntryType::Dir, None),
        item("beta", EntryType::Link, None),
        item("alpha", EntryType::Dir, None),
        item("Beta", EntryType::File, Some(2)),
        item("beta", EntryType::File, Some(3)),
    ];
    assert_eq!(arrange(&items, false), vec![4, 5, 3, 6, 0, 1]);
    assert_eq!(arrange(&items, true), vec![2, 4, 5, 3, 6, 0, 1]);
    assert!(arrange(&Vec::new(), true).is_empty());
}

fn column(column_type: ColumnType, width: u16, is_fixed_width: bool) -> Column {
    Column { column_type, width, is_fixed_width, alignment: Alignment::Left }
}

#[test]
fn widths_share_free_space() {
    let options = ViewOptions {
        show_hidden: false,
        entry_format: vec![column(ColumnType::Name, 1, false), column(ColumnType::Size, 10, true)],
    };
    assert_eq!(generate_widths(&options, 62), vec![49, 10]);
}

#[test]
fn widths_round_down_and_degrade() {
    let options = ViewOptions {
        show_hidden: false,
        entry_format: vec![
            column(ColumnType::Name, 1, false),
            column(ColumnType::Name, 2, false),
            column(ColumnType::Size, 5, true),
        ],
    };
    // usable = 20 - 4 = 16, free = 11, thirds of 11 rounded down: 3 and 7, one left over.
    assert_eq!(generate_widths(&options, 20), vec![3, 7, 5]);
    // The fixed column takes all there is: relative columns get nothing.
    assert_eq!(generate_widths(&options, 9), vec![0, 0, 5]);
    assert_eq!(generate_widths(&options, 0), vec![0, 0, 5]);
    let empty = ViewOptions::default();
    assert!(generate_widths(&empty, 80).is_empty());
}

#[test]
fn cells_are_padded() {
    let columns = vec![
        Column { column_type: ColumnType::Name, width: 6, is_fixed_width: true, alignment: Alignment::Right },
        Column { column_type: ColumnType::Size, width: 8, is_fixed_width: true, alignment: Alignment::Center },
        Column { column_type: ColumnType::Name, width: 3, is_fixed_width: true, alignment: Alignment::Left },
    ];
    let widths = vec![6, 8, 3];
    let cells = generate_columns(&item("abcd", EntryType::File, Some(1000)), &columns, &widths);
    assert_eq!(cells, vec!["  abcd", " 0.98 K ", "abc"]);
    let cells = generate_columns(&item("d", EntryType::Dir, None), &columns, &widths);
    assert_eq!(cells, vec!["     d", " <DIR>  ", "d  "]);
    let cells = generate_columns(&item("l", EntryType::Link, None), &columns, &widths);
    assert_eq!(cells[1], "  -->   ");
    let cells = generate_columns(&item("u", EntryType::Unknown, None), &columns, &widths);
    assert_eq!(cells[1], " <???>  ");
}

#[test]
fn cells_zip_and_cut_by_characters() {
    let columns = vec![
        Column { column_type: ColumnType::Name, width: 3, is_fixed_width: true, alignment: Alignment::Left },
        Column { column_type: ColumnType::Name, width: 6, is_fixed_width: true, alignment: Alignment::Right },
    ];
    let cells = generate_columns(&item("pâtés", EntryType::File, Some(1)), &columns, &vec![3, 6, 9]);
    assert_eq!(cells, vec!["pât", " pâtés"]);
    let cells = generate_columns(&item("abcd", EntryType::File, Some(1)), &columns, &vec![2]);
    assert_eq!(cells, vec!["ab"]);
    assert!(generate_columns(&item("x", EntryType::Dir, None), &Vec::new(), &vec![4]).is_empty());
}

#[test]
fn table_data() {
    let items = vec![
        item("b.txt", EntryType::File, Some(5)),
        item(".git", EntryType::Dir, None),
        item("a", EntryType::Dir, None),
    ];
    let options = ViewOptions {
        show_hidden: false,
        entry_format: vec![column(ColumnType::Name, 1, false), column(ColumnType::Size, 6, true)],
    };
    let data = get_table_data(&items, &options, 20);
    assert_eq!(data.widths, vec![11, 6]);
    assert_eq!(data.positions, vec![2, 0]);
    assert_eq!(data.rows.len(), 2);
    assert_eq!(data.rows[0].entry_type, EntryType::Dir);
    assert_eq!(data.rows[0].cells, vec!["a          ", "<DIR> "]);
    assert_eq!(data.rows[1].cells, vec!["b.txt      ", "5 B   "]);
}

#[test]
fn key_handling() {
    let mut s = Session::new(false);
    assert_eq!(s.handle_key(KeyInput::Char('k')), Action::Redraw);
    assert_eq!(s.selected_index, 0);
    assert_eq!(s.handle_key(KeyInput::Char('j')), Action::Redraw);
    assert_eq!(s.handle_key(KeyInput::Char('j')), Action::Redraw);
    assert_eq!(s.selected_index, 2);
    assert_eq!(s.handle_key(KeyInput::Char('k')), Action::Redraw);
    assert_eq!(s.selected_index, 1);
    assert_eq!(s.handle_key(KeyInput::Char('h')), Action::Reload);
    assert!(s.show_hidden);
    assert_eq!(s.handle_key(KeyInput::Other), Action::Redraw);
    assert_eq!(s.handle_key(KeyInput::Char('q')), Action::Quit);
    assert_eq!(s.handle_key(KeyInput::Esc), Action::Quit);
}
