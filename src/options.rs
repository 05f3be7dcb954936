//! Binding the value tree of a configuration script to typed view options.
use vstd::prelude::*;

use crate::column::{column_type_named, lower_of, Alignment, Column, ColumnType};
use crate::value::{key_text, push_key_text, Key, Value};

verus! {

/// What the browser shows: hidden entries or not, and the declared columns in order.
#[derive(Debug)]
pub struct ViewOptions {
    pub show_hidden: bool,
    pub entry_format: Vec<Column>,
}

impl ViewOptions {
    /// No hidden entries and no columns.
    pub fn default() -> (r: ViewOptions)
        ensures
            r.show_hidden == false,
            r.entry_format@.len() == 0,
    {
        ViewOptions { show_hidden: false, entry_format: Vec::new() }
    }
}

/// The value under the first string key equal to `name`, if any.
pub open spec fn field(es: Seq<(Key, Value)>, name: Seq<char>) -> Option<Value>
    decreases es.len(),
{
    if es.len() == 0 {
        None
    } else if es[0].0 matches Key::Str(s) && s@ == name {
        Some(es[0].1)
    } else {
        field(es.drop_first(), name)
    }
}

/// Why a declared column entry was dropped.
#[derive(PartialEq, Eq, Structural, Clone, Copy, Debug)]
pub enum EntryIssue {
    /// The entry's key is not a list position (an integer from 1).
    NotAnIndex,
    /// The entry is not a table.
    NotATable,
    /// `type` is missing or not a string.
    TypeMissing,
    /// `type` names no known column kind.
    UnknownType,
    /// `width` is missing, not an integer, or out of range.
    WidthInvalid,
    /// `width` is 0.
    WidthZero,
    /// `is_fixed_width` is missing or not a boolean.
    FixedWidthMissing,
}

/// The column that one entry of `entry_format` declares, or why it is dropped.
pub open spec fn bound_column(k: Key, v: Value) -> Result<Column, EntryIssue> {
    if !(k matches Key::Int(i) && i >= 1) {
        Err(EntryIssue::NotAnIndex)
    } else if !(v is Table) {
        Err(EntryIssue::NotATable)
    } else {
        let fs = v->Table_0@;
        if !(field(fs, "type"@) matches Some(Value::Str(_))) {
            Err(EntryIssue::TypeMissing)
        } else if column_type_named(lower_of(field(fs, "type"@)->0->Str_0@)) is None {
            Err(EntryIssue::UnknownType)
        } else if !(field(fs, "width"@) matches Some(Value::Integer(w)) && 0 <= w <= u16::MAX) {
            Err(EntryIssue::WidthInvalid)
        } else if field(fs, "width"@)->0->Integer_0 == 0 {
            Err(EntryIssue::WidthZero)
        } else if !(field(fs, "is_fixed_width"@) matches Some(Value::Boolean(_))) {
            Err(EntryIssue::FixedWidthMissing)
        } else {
            Ok(
                Column {
                    column_type: column_type_named(lower_of(field(fs, "type"@)->0->Str_0@))->0,
                    width: field(fs, "width"@)->0->Integer_0 as u16,
                    is_fixed_width: field(fs, "is_fixed_width"@)->0->Boolean_0,
                    alignment: Alignment::Left,
                },
            )
        }
    }
}

/// The columns that the entries declare, in entry order, the dropped ones left out.
pub open spec fn bound_columns(es: Seq<(Key, Value)>) -> Seq<Column>
    decreases es.len(),
{
    if es.len() == 0 {
        Seq::empty()
    } else {
        let prev = bound_columns(es.drop_last());
        match bound_column(es.last().0, es.last().1) {
            Ok(c) => prev.push(c),
            Err(_) => prev,
        }
    }
}

/// The entries that are dropped, each with its key's text and the reason, in entry order.
pub open spec fn entry_issues(es: Seq<(Key, Value)>) -> Seq<(Seq<char>, EntryIssue)>
    decreases es.len(),
{
    if es.len() == 0 {
        Seq::empty()
    } else {
        let prev = entry_issues(es.drop_last());
        match bound_column(es.last().0, es.last().1) {
            Ok(_) => prev,
            Err(e) => prev.push((key_text(es.last().0), e)),
        }
    }
}

/// Every bound column has a positive width.
pub proof fn lemma_bound_widths_positive(es: Seq<(Key, Value)>)
    ensures
        forall|i: int| 0 <= i < bound_columns(es).len() ==> (#[trigger] bound_columns(es)[i]).width > 0,
    decreases es.len(),
{
    if es.len() > 0 {
        lemma_bound_widths_positive(es.drop_last());
    }
}

/// `show_hidden` when it is a boolean, else false.
pub open spec fn bound_show_hidden(root: Seq<(Key, Value)>) -> bool {
    match field(root, "show_hidden"@) {
        Some(Value::Boolean(b)) => b,
        _ => false,
    }
}

/// The entries of `entry_format` when it is a table, else none.
pub open spec fn entry_format_entries(root: Seq<(Key, Value)>) -> Seq<(Key, Value)> {
    match field(root, "entry_format"@) {
        Some(Value::Table(es)) => es@,
        _ => Seq::empty(),
    }
}

/// A dropped column entry: the text of its key in `entry_format` and the reason.
#[derive(Debug)]
pub struct BindWarning {
    pub index: String,
    pub issue: EntryIssue,
}

impl View for BindWarning {
    type V = (Seq<char>, EntryIssue);

    open spec fn view(&self) -> (Seq<char>, EntryIssue) {
        (self.index@, self.issue)
    }
}

/// The value under the first string key equal to `name`, if any.
fn get_field<'a>(es: &'a Vec<(Key, Value)>, name: &str) -> (r: Option<&'a Value>)
    ensures
        r matches Some(v) ==> field(es@, name@) == Some(*v),
        r is None ==> field(es@, name@) is None,
{
    let mut i: usize = 0;
    assert(es@.subrange(0, es@.len() as int) =~= es@);
    while i < es.len()
        invariant
            i <= es@.len(),
            field(es@, name@) == field(es@.subrange(i as int, es@.len() as int), name@),
        decreases es@.len() - i,
    {
        let ghost rest = es@.subrange(i as int, es@.len() as int);
        assert(rest[0] == es@[i as int]);
        assert(rest.drop_first() =~= es@.subrange(i + 1, es@.len() as int));
        if let Key::Str(s) = &es[i].0 {
            if crate::text::text_eq(s.as_str(), name) {
                return Some(&es[i].1);
            }
        }
        i = i + 1;
    }
    None
}

/// The column that one entry of `entry_format` declares, or why it is dropped.
fn bind_column(key: &Key, value: &Value) -> (r: Result<Column, EntryIssue>)
    ensures
        r == bound_column(*key, *value),
{
    match key {
        Key::Int(i) => {
            if *i < 1 {
                return Err(EntryIssue::NotAnIndex);
            }
        },
        Key::Str(_) => {
            return Err(EntryIssue::NotAnIndex);
        },
    }
    let fields = match value {
        Value::Table(fs) => fs,
        _ => {
            return Err(EntryIssue::NotATable);
        },
    };
    let typename = match get_field(fields, "type") {
        Some(Value::Str(t)) => t,
        _ => {
            return Err(EntryIssue::TypeMissing);
        },
    };
    match ColumnType::from(typename.as_str()) {
        Ok(_) => {},
        Err(()) => {
            return Err(EntryIssue::UnknownType);
        },
    }
    let width: u16 = match get_field(fields, "width") {
        Some(Value::Integer(w)) => {
            if *w < 0 || *w > u16::MAX as i64 {
                return Err(EntryIssue::WidthInvalid);
            }
            *w as u16
        },
        _ => {
            return Err(EntryIssue::WidthInvalid);
        },
    };
    if width == 0 {
        return Err(EntryIssue::WidthZero);
    }
    let is_fixed_width = match get_field(fields, "is_fixed_width") {
        Some(Value::Boolean(b)) => *b,
        _ => {
            return Err(EntryIssue::FixedWidthMissing);
        },
    };
    Ok(Column::new(typename.as_str(), width, is_fixed_width))
}

/// The root value is not a table, so nothing can be bound.
#[derive(PartialEq, Eq, Structural, Clone, Copy, Debug)]
pub enum ConfigError {
    RootNotTable,
}

pub open spec fn warning_views(ws: Seq<BindWarning>) -> Seq<(Seq<char>, EntryIssue)> {
    ws.map_values(|w: BindWarning| w@)
}

/// Binds the value tree of a configuration script to view options: `show_hidden` when
/// it is a boolean (else false), and one column for each well-formed entry of
/// `entry_format`, in entry order. Each dropped entry adds a warning to `warnings`.
/// Fails only when the root is not a table.
pub fn parse_values(root: &Value, warnings: &mut Vec<BindWarning>) -> (r: Result<ViewOptions, ConfigError>)
    ensures
        r is Ok <==> root is Table,
        r matches Ok(o) ==> o.show_hidden == bound_show_hidden(root->Table_0@) && o.entry_format@
            == bound_columns(entry_format_entries(root->Table_0@)),
        r matches Ok(o) ==> forall|i: int| 0 <= i < o.entry_format@.len() ==> (#[trigger] o.entry_format@[i]).width > 0,
        root is Table ==> warning_views(final(warnings)@) == warning_views(old(warnings)@) + entry_issues(
            entry_format_entries(root->Table_0@),
        ),
        !(root is Table) ==> final(warnings)@ == old(warnings)@,
{
    let es = match root {
        Value::Table(es) => es,
        _ => {
            return Err(ConfigError::RootNotTable);
        },
    };
    let mut options = ViewOptions::default();
    match get_field(es, "show_hidden") {
        Some(Value::Boolean(b)) => {
            options.show_hidden = *b;
        },
        _ => {},
    }
    let ghost start = warning_views(warnings@);
    match get_field(es, "entry_format") {
        Some(Value::Table(entries)) => {
            let mut i: usize = 0;
            assert(entries@.subrange(0, 0) =~= Seq::<(Key, Value)>::empty());
            assert(warning_views(warnings@) =~= start + entry_issues(entries@.subrange(0, 0)));
            while i < entries.len()
                invariant
                    i <= entries@.len(),
                    options.show_hidden == bound_show_hidden(es@),
                    options.entry_format@ == bound_columns(entries@.subrange(0, i as int)),
                    warning_views(warnings@) == start + entry_issues(entries@.subrange(0, i as int)),
                decreases entries@.len() - i,
            {
                let (key, value) = &entries[i];
                let ghost sub = entries@.subrange(0, i + 1);
                assert(sub.drop_last() =~= entries@.subrange(0, i as int));
                assert(sub.last() == entries@[i as int]);
                let ghost prev_w = warnings@;
                match bind_column(key, value) {
                    Ok(c) => {
                        options.entry_format.push(c);
                    },
                    Err(issue) => {
                        let mut index = String::new();
                        push_key_text(&mut index, key);
                        warnings.push(BindWarning { index, issue });
                        assert(warning_views(warnings@) =~= warning_views(prev_w).push((key_text(*key), issue)));
                    },
                }
                i = i + 1;
            }
            assert(entries@.subrange(0, entries@.len() as int) =~= entries@);
        },
        _ => {
            assert(warning_views(warnings@) =~= start + entry_issues(Seq::<(Key, Value)>::empty()));
        },
    }
    proof {
        lemma_bound_widths_positive(entry_format_entries(es@));
    }
    Ok(options)
}

/// The field of an entry that an issue concerns, as a path suffix.
pub open spec fn issue_field(issue: EntryIssue) -> Seq<char> {
    match issue {
        EntryIssue::TypeMissing | EntryIssue::UnknownType => ".type"@,
        EntryIssue::WidthInvalid | EntryIssue::WidthZero => ".width"@,
        EntryIssue::FixedWidthMissing => ".is_fixed_width"@,
        _ => Seq::empty(),
    }
}

/// What is wrong, in words.
pub open spec fn issue_text(issue: EntryIssue) -> Seq<char> {
    match issue {
        EntryIssue::NotAnIndex => "key is not a list position"@,
        EntryIssue::NotATable => "value is not a table"@,
        EntryIssue::TypeMissing => "value not found or not a string"@,
        EntryIssue::UnknownType => "unknown column type"@,
        EntryIssue::WidthInvalid => "value not found or not an integer from 0 to 65535"@,
        EntryIssue::WidthZero => "value can not be 0"@,
        EntryIssue::FixedWidthMissing => "value not found or not a boolean"@,
    }
}

pub open spec fn warning_message(w: (Seq<char>, EntryIssue)) -> Seq<char> {
    "Error parsing 'rsfm.entry_format."@ + w.0 + issue_field(w.1) + "': "@ + issue_text(w.1)
}

impl EntryIssue {
    fn field(&self) -> (r: &'static str)
        ensures
            r@ == issue_field(*self),
    {
        match self {
            EntryIssue::TypeMissing | EntryIssue::UnknownType => ".type",
            EntryIssue::WidthInvalid | EntryIssue::WidthZero => ".width",
            EntryIssue::FixedWidthMissing => ".is_fixed_width",
            _ => {
                proof { reveal_strlit(""); }
                ""
            },
        }
    }

    fn text(&self) -> (r: &'static str)
        ensures
            r@ == issue_text(*self),
    {
        match self {
            EntryIssue::NotAnIndex => "key is not a list position",
            EntryIssue::NotATable => "value is not a table",
            EntryIssue::TypeMissing => "value not found or not a string",
            EntryIssue::UnknownType => "unknown column type",
            EntryIssue::WidthInvalid => "value not found or not an integer from 0 to 65535",
            EntryIssue::WidthZero => "value can not be 0",
            EntryIssue::FixedWidthMissing => "value not found or not a boolean",
        }
    }
}

impl BindWarning {
    /// The warning's text, naming the entry's path and what is wrong with it.
    pub fn message(&self) -> (r: String)
        ensures
            r@ == warning_message(self@),
    {
        let mut m = String::from_str("Error parsing 'rsfm.entry_format.");
        m.append(self.index.as_str());
        m.append(self.issue.field());
        m.append("': ");
        m.append(self.issue.text());
        m
    }
}

} // verus!
