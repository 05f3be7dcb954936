//! Column kinds, alignments and declared columns of the entry table.
use vstd::prelude::*;

verus! {

/// What `str::to_lowercase` makes of a string.
pub uninterp spec fn lower_of(s: Seq<char>) -> Seq<char>;

/// Relies on `str::to_lowercase`: the lowercase form, which depends on the characters alone.
#[verifier::external_body]
fn lowercase(s: &str) -> (r: String)
    ensures
        r@ == lower_of(s@),
{
    s.to_lowercase()
}

/// The kind of information a column shows.
#[derive(PartialEq, Eq, Structural, Clone, Copy, Debug)]
pub enum ColumnType {
    Name,
    Size,
}

/// The column kind that a lowercase type name denotes.
pub open spec fn column_type_named(s: Seq<char>) -> Option<ColumnType> {
    if s == "name"@ {
        Some(ColumnType::Name)
    } else if s == "size"@ {
        Some(ColumnType::Size)
    } else {
        None
    }
}

impl ColumnType {
    /// The column kind of a type name, compared without regard to case.
    pub fn from(typename: &str) -> (r: Result<ColumnType, ()>)
        ensures
            r == match column_type_named(lower_of(typename@)) {
                Some(t) => Ok::<ColumnType, ()>(t),
                None => Err(()),
            },
    {
        let lower = lowercase(typename);
        ColumnType::from_lowercase(lower.as_str())
    }

    /// The column kind of a type name that is already in lowercase.
    pub fn from_lowercase(typename: &str) -> (r: Result<ColumnType, ()>)
        ensures
            r == match column_type_named(typename@) {
                Some(t) => Ok::<ColumnType, ()>(t),
                None => Err(()),
            },
    {
        if crate::text::text_eq(typename, "name") {
            Ok(ColumnType::Name)
        } else if crate::text::text_eq(typename, "size") {
            Ok(ColumnType::Size)
        } else {
            Err(())
        }
    }
}

/// How a cell's text stands within its column.
#[derive(PartialEq, Eq, Structural, Clone, Copy, Debug)]
pub enum Alignment {
    Left,
    Center,
    Right,
}

/// The alignment that a lowercase name denotes.
pub open spec fn alignment_named(s: Seq<char>) -> Option<Alignment> {
    if s == "left"@ {
        Some(Alignment::Left)
    } else if s == "center"@ {
        Some(Alignment::Center)
    } else if s == "right"@ {
        Some(Alignment::Right)
    } else {
        None
    }
}

impl Alignment {
    /// The alignment of a name, compared without regard to case.
    pub fn from(typename: &str) -> (r: Result<Alignment, ()>)
        ensures
            r == match alignment_named(lower_of(typename@)) {
                Some(a) => Ok::<Alignment, ()>(a),
                None => Err(()),
            },
    {
        let lower = lowercase(typename);
        Alignment::from_lowercase(lower.as_str())
    }

    /// The alignment of a name that is already in lowercase.
    pub fn from_lowercase(typename: &str) -> (r: Result<Alignment, ()>)
        ensures
            r == match alignment_named(typename@) {
                Some(a) => Ok::<Alignment, ()>(a),
                None => Err(()),
            },
    {
        if crate::text::text_eq(typename, "left") {
            Ok(Alignment::Left)
        } else if crate::text::text_eq(typename, "center") {
            Ok(Alignment::Center)
        } else if crate::text::text_eq(typename, "right") {
            Ok(Alignment::Right)
        } else {
            Err(())
        }
    }
}

/// One declared column: its kind, its width (a character count when fixed, else a
/// weight in the share of the free space), and its alignment.
#[derive(PartialEq, Eq, Structural, Clone, Copy, Debug)]
pub struct Column {
    pub column_type: ColumnType,
    pub width: u16,
    pub is_fixed_width: bool,
    pub alignment: Alignment,
}

impl Column {
    /// A left-aligned column of the kind that `column_typename` names (without regard
    /// to case).
    pub fn new(column_typename: &str, width: u16, is_fixed_width: bool) -> (r: Column)
        requires
            column_type_named(lower_of(column_typename@)) is Some,
        ensures
            r == (Column {
                column_type: column_type_named(lower_of(column_typename@))->0,
                width,
                is_fixed_width,
                alignment: Alignment::Left,
            }),
    {
        let column_type = match ColumnType::from(column_typename) {
            Ok(t) => t,
            Err(()) => ColumnType::Name,
        };
        Column { column_type, width, is_fixed_width, alignment: Alignment::Left }
    }
}

} // verus!
