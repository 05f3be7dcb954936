//! The dynamic value tree that a configuration script leaves behind.
use vstd::prelude::*;

use crate::text::{decimal, push_decimal};

verus! {

/// A table key: a string, or an integer such as the position in a list.
#[derive(Debug)]
pub enum Key {
    Str(String),
    Int(i64),
}

/// A value of the script runtime: nil, a boolean, an integer, a string, or a table
/// whose entries are kept in the runtime's iteration order.
#[derive(Debug)]
pub enum Value {
    Nil,
    Boolean(bool),
    Integer(i64),
    Str(String),
    Table(Vec<(Key, Value)>),
}

/// The runtime type of a value.
#[derive(PartialEq, Eq, Structural, Clone, Copy, Debug)]
pub enum ValueType {
    Nil,
    Boolean,
    Integer,
    String,
    Table,
}

pub open spec fn type_of(v: Value) -> ValueType {
    match v {
        Value::Nil => ValueType::Nil,
        Value::Boolean(_) => ValueType::Boolean,
        Value::Integer(_) => ValueType::Integer,
        Value::Str(_) => ValueType::String,
        Value::Table(_) => ValueType::Table,
    }
}

/// The text of a key inside a dotted path: a string as it is, an integer in decimal.
pub open spec fn key_text(k: Key) -> Seq<char> {
    match k {
        Key::Str(s) => s@,
        Key::Int(i) => if i < 0 {
            seq!['-'] + decimal((-i) as nat)
        } else {
            decimal(i as nat)
        },
    }
}

/// The path of the entry under key `k` of the table at `path`.
pub open spec fn child_path(path: Seq<char>, k: Key) -> Seq<char> {
    path + seq!['.'] + key_text(k)
}

/// Every (path, runtime type) pair below `v`, parent before children, siblings in table order.
pub open spec fn walk(path: Seq<char>, v: Value) -> Seq<(Seq<char>, ValueType)>
    decreases v,
{
    match v {
        Value::Table(es) => walk_entries(path, es@),
        _ => Seq::empty(),
    }
}

pub open spec fn walk_entries(path: Seq<char>, es: Seq<(Key, Value)>) -> Seq<(Seq<char>, ValueType)>
    decreases es,
{
    if es.len() == 0 {
        Seq::empty()
    } else {
        let last = es.last();
        let p = child_path(path, last.0);
        walk_entries(path, es.drop_last()) + seq![(p, type_of(last.1))] + walk(p, last.1)
    }
}

impl ValueType {
    pub open spec fn spec_name(self) -> Seq<char> {
        match self {
            ValueType::Nil => seq!['n', 'i', 'l'],
            ValueType::Boolean => seq!['b', 'o', 'o', 'l', 'e', 'a', 'n'],
            ValueType::Integer => seq!['i', 'n', 't', 'e', 'g', 'e', 'r'],
            ValueType::String => seq!['s', 't', 'r', 'i', 'n', 'g'],
            ValueType::Table => seq!['t', 'a', 'b', 'l', 'e'],
        }
    }

    /// The runtime's own name of the type, as diagnostics print it.
    pub fn name(&self) -> (r: &'static str)
        ensures
            r@ == self.spec_name(),
    {
        match self {
            ValueType::Nil => {
                proof { reveal_strlit("nil"); }
                "nil"
            },
            ValueType::Boolean => {
                proof { reveal_strlit("boolean"); }
                "boolean"
            },
            ValueType::Integer => {
                proof { reveal_strlit("integer"); }
                "integer"
            },
            ValueType::String => {
                proof { reveal_strlit("string"); }
                "string"
            },
            ValueType::Table => {
                proof { reveal_strlit("table"); }
                "table"
            },
        }
    }
}

impl Value {
    /// The runtime type of this value.
    pub fn value_type(&self) -> (r: ValueType)
        ensures
            r == type_of(*self),
    {
        match self {
            Value::Nil => ValueType::Nil,
            Value::Boolean(_) => ValueType::Boolean,
            Value::Integer(_) => ValueType::Integer,
            Value::Str(_) => ValueType::String,
            Value::Table(_) => ValueType::Table,
        }
    }
}

/// Appends the text of key `k` to `out`.
pub fn push_key_text(out: &mut String, k: &Key)
    ensures
        final(out)@ == old(out)@ + key_text(*k),
{
    match k {
        Key::Str(s) => {
            out.append(s.as_str());
        },
        Key::Int(i) => {
            if *i < 0 {
                proof { reveal_strlit("-"); }
                out.append("-");
                let mag: u64 = if *i == i64::MIN {
                    9223372036854775808u64
                } else {
                    (-*i) as u64
                };
                push_decimal(out, mag);
                assert(final(out)@ =~= old(out)@ + key_text(*k));
            } else {
                push_decimal(out, *i as u64);
            }
        },
    }
}

} // verus!
