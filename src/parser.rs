//! Checking the value tree of a configuration script against the schema.
use vstd::prelude::*;

use crate::schema::{
    dot, is_array_element, is_array_element_path, lemma_decimal_is_index, lemma_name_not_index,
    lemma_normalized_child, lemma_plain_normalized, lemma_schema_lookup, lookup_schema, normalized,
    replace_array_index, schema_entries, schema_path_list, schema_paths, schema_type,
};
use crate::text::{decimal, has_no_dot};
use crate::similar::{find_similar, nearest, MAX_SIMILARITY_DISTANCE};
use crate::value::{child_path, key_text, push_key_text, walk, walk_entries, type_of, Key, Value, ValueType};

verus! {

/// One variable found in the value tree: its concrete dotted path and its runtime type.
#[derive(Debug)]
pub struct VarDesc {
    pub name: String,
    pub value_type: ValueType,
}

impl View for VarDesc {
    type V = (Seq<char>, ValueType);

    open spec fn view(&self) -> (Seq<char>, ValueType) {
        (self.name@, self.value_type)
    }
}

pub open spec fn views_of(vars: Seq<VarDesc>) -> Seq<(Seq<char>, ValueType)> {
    vars.map_values(|v: VarDesc| v@)
}

fn parse_tree_impl(name: &str, value: &Value, vector: &mut Vec<VarDesc>)
    ensures
        views_of(final(vector)@) == views_of(old(vector)@) + walk(name@, *value),
    decreases *value,
{
    if let Value::Table(entries) = value {
        let ghost start = views_of(vector@);
        let mut i: usize = 0;
        assert(entries@.subrange(0, 0) =~= Seq::<(Key, Value)>::empty());
        assert(views_of(vector@) =~= start + walk_entries(name@, entries@.subrange(0, 0)));
        while i < entries.len()
            invariant
                i <= entries@.len(),
                *value == Value::Table(*entries),
                views_of(vector@) == start + walk_entries(name@, entries@.subrange(0, i as int)),
            decreases entries@.len() - i,
        {
            let (key, child) = &entries[i];
            let mut path = String::from_str(name);
            proof { reveal_strlit("."); }
            path.append(".");
            push_key_text(&mut path, key);
            assert(path@ =~= child_path(name@, *key));
            let ghost before = vector@;
            vector.push(VarDesc { name: path.clone(), value_type: child.value_type() });
            assert(views_of(vector@) =~= views_of(before).push((path@, type_of(*child))));
            assert(decreases_to!(*value => (*value)->Table_0));
            assert(decreases_to!(*entries => entries@));
            assert(decreases_to!(entries@ => entries@[i as int]));
            assert(decreases_to!(entries@[i as int] => entries@[i as int].1));
            parse_tree_impl(path.as_str(), child, vector);
            let ghost es = entries@.subrange(0, i + 1);
            assert(es.drop_last() =~= entries@.subrange(0, i as int));
            assert(es.last() == entries@[i as int]);
            assert(views_of(vector@) =~= start + walk_entries(name@, es));
            i = i + 1;
        }
        assert(entries@.subrange(0, entries@.len() as int) =~= entries@);
    }
}

/// Every variable below `value`, named by its dotted path from `name`, parent before
/// children and siblings in table order.
pub fn parse_tree(name: &str, value: &Value) -> (r: Vec<VarDesc>)
    ensures
        views_of(r@) == walk(name@, *value),
{
    let mut vars: Vec<VarDesc> = Vec::new();
    parse_tree_impl(name, value, &mut vars);
    assert(views_of(vars@) =~= walk(name@, *value));
    vars
}

/// A finding of the schema check. It is advisory: binding goes on whatever is found.
#[derive(Debug)]
pub enum Diagnostic {
    /// A registered variable holds a value of another type.
    TypeMismatch { path: String, found: ValueType, expected: ValueType },
    /// A variable whose schema path is not registered, with nothing near it.
    UnknownPath { path: String },
    /// A variable whose schema path is not registered, and the nearest registered path.
    UnknownPathWithSuggestion { path: String, suggestion: String },
}

pub enum DiagnosticView {
    TypeMismatch { path: Seq<char>, found: ValueType, expected: ValueType },
    UnknownPath { path: Seq<char> },
    UnknownPathWithSuggestion { path: Seq<char>, suggestion: Seq<char> },
}

impl View for Diagnostic {
    type V = DiagnosticView;

    open spec fn view(&self) -> DiagnosticView {
        match self {
            Diagnostic::TypeMismatch { path, found, expected } => DiagnosticView::TypeMismatch {
                path: path@,
                found: *found,
                expected: *expected,
            },
            Diagnostic::UnknownPath { path } => DiagnosticView::UnknownPath { path: path@ },
            Diagnostic::UnknownPathWithSuggestion { path, suggestion } =>
                DiagnosticView::UnknownPathWithSuggestion { path: path@, suggestion: suggestion@ },
        }
    }
}

pub open spec fn diagnostic_views(ds: Seq<Diagnostic>) -> Seq<DiagnosticView> {
    ds.map_values(|d: Diagnostic| d@)
}

/// What the schema says of one variable, leaving aside where it stands in the tree.
pub open spec fn record_diagnostic(path: Seq<char>, t: ValueType) -> Option<DiagnosticView> {
    let n = normalized(path);
    match schema_type(n) {
        Some(expected) => if expected == t {
            None
        } else {
            Some(DiagnosticView::TypeMismatch { path, found: t, expected })
        },
        None => if is_array_element(path) {
            None
        } else {
            match nearest(n, schema_paths(), MAX_SIMILARITY_DISTANCE as nat) {
                Some(i) => Some(DiagnosticView::UnknownPathWithSuggestion { path: n, suggestion: schema_paths()[i] }),
                None => Some(DiagnosticView::UnknownPath { path: n }),
            }
        },
    }
}

/// Whether `p` lies strictly below the table at path `a`.
pub open spec fn beneath(a: Seq<char>, p: Seq<char>) -> bool {
    &&& p.len() > a.len()
    &&& p.subrange(0, a.len() as int) == a
    &&& p[a.len() as int] == '.'
}

/// Whether `p` lies below one of the paths already reported with a wrong type.
pub open spec fn covered(skips: Seq<Seq<char>>, p: Seq<char>) -> bool {
    exists|j: int| 0 <= j < skips.len() && beneath(#[trigger] skips[j], p)
}

/// The diagnostics of the first `k` records, and the paths reported with a wrong type.
pub open spec fn check_upto(recs: Seq<(Seq<char>, ValueType)>, k: nat) -> (Seq<DiagnosticView>, Seq<Seq<char>>)
    decreases k, 0nat,
{
    if k == 0 || k > recs.len() {
        (Seq::empty(), Seq::empty())
    } else {
        let prev = check_upto(recs, (k - 1) as nat);
        match emitted(recs, (k - 1) as nat) {
            Some(d) => (prev.0.push(d), if d is TypeMismatch {
                prev.1.push(recs[k - 1].0)
            } else {
                prev.1
            }),
            None => prev,
        }
    }
}

/// The diagnostic that record `k` gives, if any: none below a path already reported
/// with a wrong type.
pub open spec fn emitted(recs: Seq<(Seq<char>, ValueType)>, k: nat) -> Option<DiagnosticView>
    decreases k, 1nat,
{
    if k >= recs.len() {
        None
    } else if covered(check_upto(recs, k).1, recs[k as int].0) {
        None
    } else {
        record_diagnostic(recs[k as int].0, recs[k as int].1)
    }
}

/// All diagnostics of a sequence of records, in record order.
pub open spec fn diagnostics(recs: Seq<(Seq<char>, ValueType)>) -> Seq<DiagnosticView> {
    check_upto(recs, recs.len()).0
}

/// Whether `p` lies strictly below the table at path `a`.
fn is_beneath(a: &str, p: &str) -> (r: bool)
    ensures
        r == beneath(a@, p@),
{
    let n = a.unicode_len();
    let m = p.unicode_len();
    if m <= n {
        return false;
    }
    let mut i: usize = 0;
    while i < n
        invariant
            n == a@.len(),
            m == p@.len(),
            n < m,
            i <= n,
            forall|j: int| 0 <= j < i ==> p@[j] == a@[j],
        decreases n - i,
    {
        if a.get_char(i) != p.get_char(i) {
            assert(p@.subrange(0, n as int)[i as int] == p@[i as int]);
            return false;
        }
        i = i + 1;
    }
    assert(p@.subrange(0, n as int) =~= a@);
    p.get_char(n) == '.'
}

/// What the schema says of one variable (see `record_diagnostic`).
fn diagnose(var: &VarDesc) -> (r: Option<Diagnostic>)
    ensures
        r matches Some(d) ==> record_diagnostic(var.name@, var.value_type) == Some(d@),
        r is None ==> record_diagnostic(var.name@, var.value_type) is None,
{
    let n = replace_array_index(var.name.as_str());
    match lookup_schema(n.as_str()) {
        Some(expected) => {
            if expected == var.value_type {
                None
            } else {
                Some(Diagnostic::TypeMismatch { path: var.name.clone(), found: var.value_type, expected })
            }
        },
        None => {
            if matches_array(var) {
                return None;
            }
            let paths = schema_path_list();
            match find_similar(n.as_str(), &paths, MAX_SIMILARITY_DISTANCE) {
                Some(similar) => {
                    Some(
                    Diagnostic::UnknownPathWithSuggestion { path: n, suggestion: String::from_str(similar) },
                    )
                },
                None => Some(Diagnostic::UnknownPath { path: n }),
            }
        },
    }
}

/// Whether the variable is an element of a registered list: its parent's schema path is
/// registered as a table and its last segment reads as a positive index.
pub fn matches_array(var: &VarDesc) -> (r: bool)
    ensures
        r == is_array_element(var.name@),
{
    is_array_element_path(var.name.as_str())
}

/// Whether `path` lies below one of `skips`.
fn is_covered(skips: &Vec<String>, path: &str) -> (r: bool)
    ensures
        r == covered(skips@.map_values(|p: String| p@), path@),
{
    let ghost views = skips@.map_values(|p: String| p@);
    let mut j: usize = 0;
    while j < skips.len()
        invariant
            j <= skips@.len(),
            views == skips@.map_values(|p: String| p@),
            forall|k: int| 0 <= k < j ==> !beneath(#[trigger] views[k], path@),
        decreases skips@.len() - j,
    {
        if is_beneath(skips[j].as_str(), path) {
            assert(beneath(views[j as int], path@));
            return true;
        }
        j = j + 1;
    }
    false
}

/// Checks the value tree below `root_value` against the schema. Every variable is
/// looked up by its schema path: a registered one of another type gives a
/// `TypeMismatch`, and nothing is then reported below it; an unregistered one that is
/// not a list element gives an unknown-path diagnostic, with the nearest registered
/// path when one lies within `MAX_SIMILARITY_DISTANCE` edits.
pub fn validate(root_key: &str, root_value: &Value) -> (r: Vec<Diagnostic>)
    ensures
        diagnostic_views(r@) == diagnostics(walk(root_key@, *root_value)),
{
    let vars = parse_tree(root_key, root_value);
    let ghost recs = walk(root_key@, *root_value);
    let mut out: Vec<Diagnostic> = Vec::new();
    let mut skips: Vec<String> = Vec::new();
    let mut i: usize = 0;
    assert(diagnostic_views(out@) =~= Seq::<DiagnosticView>::empty());
    assert(skips@.map_values(|p: String| p@) =~= Seq::<Seq<char>>::empty());
    while i < vars.len()
        invariant
            i <= vars@.len(),
            views_of(vars@) == recs,
            diagnostic_views(out@) == check_upto(recs, i as nat).0,
            skips@.map_values(|p: String| p@) == check_upto(recs, i as nat).1,
        decreases vars@.len() - i,
    {
        let var = &vars[i];
        assert(recs.len() == vars@.len());
        assert(recs[i as int] == var@);
        let ghost prev_out = out@;
        let ghost prev_skips = skips@;
        let ghost next = check_upto(recs, (i + 1) as nat);
        assert(next == match emitted(recs, i as nat) {
            Some(d) => (check_upto(recs, i as nat).0.push(d), if d is TypeMismatch {
                check_upto(recs, i as nat).1.push(recs[i as int].0)
            } else {
                check_upto(recs, i as nat).1
            }),
            None => check_upto(recs, i as nat),
        });
        if !is_covered(&skips, var.name.as_str()) {
            match diagnose(var) {
                Some(d) => {
                    let mismatch = match &d {
                        Diagnostic::TypeMismatch { .. } => true,
                        _ => false,
                    };
                    out.push(d);
                    assert(diagnostic_views(out@) =~= diagnostic_views(prev_out).push(d@));
                    if mismatch {
                        skips.push(var.name.clone());
                        assert(skips@.map_values(|p: String| p@) =~= prev_skips.map_values(|p: String| p@).push(var.name@));
                    }
                },
                None => {},
            }
        }
        i = i + 1;
    }
    out
}

/// The message text of a diagnostic.
pub open spec fn message(d: DiagnosticView) -> Seq<char> {
    match d {
        DiagnosticView::TypeMismatch { path, found, expected } => "Unexpected type '"@ + found.spec_name()
            + "' for variable '"@ + path + "', use '"@ + expected.spec_name() + "'"@,
        DiagnosticView::UnknownPath { path } => "Unknown variable '"@ + path + "'"@,
        DiagnosticView::UnknownPathWithSuggestion { path, suggestion } => "Unknown variable '"@ + path
            + "'. Did you mean '"@ + suggestion + "'?"@,
    }
}

impl Diagnostic {
    /// The message text of this diagnostic.
    pub fn message(&self) -> (r: String)
        ensures
            r@ == message(self@),
    {
        match self {
            Diagnostic::TypeMismatch { path, found, expected } => {
                let mut m = String::from_str("Unexpected type '");
                m.append(found.name());
                m.append("' for variable '");
                m.append(path.as_str());
                m.append("', use '");
                m.append(expected.name());
                m.append("'");
                m
            },
            Diagnostic::UnknownPath { path } => {
                let mut m = String::from_str("Unknown variable '");
                m.append(path.as_str());
                m.append("'");
                m
            },
            Diagnostic::UnknownPathWithSuggestion { path, suggestion } => {
                let mut m = String::from_str("Unknown variable '");
                m.append(path.as_str());
                m.append("'. Did you mean '");
                m.append(suggestion.as_str());
                m.append("'?");
                m
            },
        }
    }
}

/// The outcome of a schema check: the variables found when nothing was reported, else
/// the diagnostic messages.
pub type CheckResult = Result<Vec<VarDesc>, Vec<String>>;

/// Checks the value tree below `root_value` against the schema (see `validate`), and
/// gives the variables found or the messages of the diagnostics, in record order.
pub fn parse_syntax(root_key: &str, root_value: &Value) -> (r: CheckResult)
    ensures
        match r {
            Ok(vars) => diagnostics(walk(root_key@, *root_value)).len() == 0
                && views_of(vars@) == walk(root_key@, *root_value),
            Err(errors) => diagnostics(walk(root_key@, *root_value)).len() > 0
                && errors@.map_values(|e: String| e@) == diagnostics(walk(root_key@, *root_value)).map_values(
                |d: DiagnosticView| message(d),
            ),
        },
{
    let found = validate(root_key, root_value);
    if found.len() == 0 {
        return Ok(parse_tree(root_key, root_value));
    }
    let mut errors: Vec<String> = Vec::new();
    let mut i: usize = 0;
    while i < found.len()
        invariant
            i <= found@.len(),
            errors@.len() == i,
            forall|j: int| 0 <= j < i ==> (#[trigger] errors@[j])@ == message(found@[j]@),
        decreases found@.len() - i,
    {
        errors.push(found[i].message());
        i = i + 1;
    }
    assert(errors@.map_values(|e: String| e@) =~= diagnostic_views(found@).map_values(|d: DiagnosticView| message(d)));
    Err(errors)
}

/// Whether the schema finds nothing to say about any of the records.
pub open spec fn all_registered(recs: Seq<(Seq<char>, ValueType)>) -> bool {
    forall|n: int| 0 <= n < recs.len() ==> (#[trigger] record_diagnostic(recs[n].0, recs[n].1)) is None
}

proof fn lemma_all_registered_concat(a: Seq<(Seq<char>, ValueType)>, b: Seq<(Seq<char>, ValueType)>)
    requires
        all_registered(a),
        all_registered(b),
    ensures
        all_registered(a + b),
{
    assert forall|n: int| 0 <= n < (a + b).len() implies (#[trigger] record_diagnostic((a + b)[n].0, (a + b)[n].1)) is None by {
        if n < a.len() {
            assert((a + b)[n] == a[n]);
        } else {
            assert((a + b)[n] == b[n - a.len()]);
        }
    }
}

/// Records of which the schema says nothing give no diagnostics.
proof fn lemma_no_diagnostics(recs: Seq<(Seq<char>, ValueType)>, k: nat)
    requires
        all_registered(recs),
        k <= recs.len(),
    ensures
        check_upto(recs, k).0.len() == 0,
    decreases k,
{
    if k > 0 {
        lemma_no_diagnostics(recs, (k - 1) as nat);
        assert(record_diagnostic(recs[k - 1].0, recs[k - 1].1) is None);
        assert(emitted(recs, (k - 1) as nat) is None);
    }
}

/// A field of a declared column as the schema wants it: `type` a string, `width` an
/// integer, `is_fixed_width` a boolean.
pub open spec fn column_field_conforms(k: Key, v: Value) -> bool {
    k matches Key::Str(s) && ((s@ == "type"@ && v is Str) || (s@ == "width"@ && v is Integer) || (s@
        == "is_fixed_width"@ && v is Boolean))
}

/// A declared column as the schema wants it: a table of conforming fields.
pub open spec fn column_conforms(v: Value) -> bool {
    v matches Value::Table(fs) && forall|j: int| 0 <= j < fs@.len() ==> column_field_conforms(
        (#[trigger] fs@[j]).0,
        fs@[j].1,
    )
}

/// A list of conforming columns under 1-based integer keys.
pub open spec fn column_list_conforms(v: Value) -> bool {
    v matches Value::Table(es) && forall|j: int| 0 <= j < es@.len() ==> ((#[trigger] es@[j]).0 matches Key::Int(
        i,
    ) && i >= 1) && column_conforms(es@[j].1)
}

/// An entry of the root table as the schema wants it: `show_hidden` a boolean, or
/// `entry_format` a list of conforming columns.
pub open spec fn root_field_conforms(k: Key, v: Value) -> bool {
    k matches Key::Str(s) && ((s@ == "show_hidden"@ && v is Boolean) || (s@ == "entry_format"@
        && column_list_conforms(v)))
}

/// A root table built only from the shapes that the schema declares.
pub open spec fn conforms(v: Value) -> bool {
    v matches Value::Table(es) && forall|j: int| 0 <= j < es@.len() ==> root_field_conforms(
        (#[trigger] es@[j]).0,
        es@[j].1,
    )
}

proof fn lemma_field_path(parent: Seq<char>, name: Seq<char>, full: Seq<char>)
    requires
        has_no_dot(name),
        name.len() > 0,
        'a' <= name[0] <= 'z',
        full == normalized(parent) + dot() + name,
    ensures
        normalized(parent + seq!['.'] + name) == full,
{
    lemma_normalized_child(parent, name);
    lemma_name_not_index(name);
}

proof fn lemma_column_fields(path: Seq<char>, fs: Seq<(Key, Value)>)
    requires
        normalized(path) == "rsfm.entry_format.{}"@,
        forall|j: int| 0 <= j < fs.len() ==> column_field_conforms((#[trigger] fs[j]).0, fs[j].1),
    ensures
        all_registered(walk_entries(path, fs)),
    decreases fs.len(),
{
    if fs.len() > 0 {
        let last = fs.last();
        assert(column_field_conforms(fs[fs.len() - 1].0, fs[fs.len() - 1].1));
        assert forall|j: int| 0 <= j < fs.drop_last().len() implies column_field_conforms((#[trigger] fs.drop_last()[j]).0, fs.drop_last()[j].1) by {
            assert(fs.drop_last()[j] == fs[j]);
        }
        lemma_column_fields(path, fs.drop_last());
        let name = key_text(last.0);
        let p = child_path(path, last.0);
        reveal_strlit("rsfm.entry_format.{}");
        reveal_strlit("type");
        reveal_strlit("width");
        reveal_strlit("is_fixed_width");
        reveal_strlit("rsfm.entry_format.{}.type");
        reveal_strlit("rsfm.entry_format.{}.width");
        reveal_strlit("rsfm.entry_format.{}.is_fixed_width");
        let i: int = if name == "type"@ {
            2
        } else if name == "width"@ {
            3
        } else {
            4
        };
        assert(schema_entries()[i].0 =~= "rsfm.entry_format.{}"@ + dot() + name);
        lemma_field_path(path, name, schema_entries()[i].0);
        lemma_schema_lookup(i);
        assert(record_diagnostic(p, type_of(last.1)) is None);
        let one = seq![(p, type_of(last.1))];
        assert(all_registered(one));
        assert(walk(p, last.1) =~= Seq::<(Seq<char>, ValueType)>::empty());
        lemma_all_registered_concat(walk_entries(path, fs.drop_last()), one);
        lemma_all_registered_concat(walk_entries(path, fs.drop_last()) + one, walk(p, last.1));
    }
}

proof fn lemma_column_list(path: Seq<char>, es: Seq<(Key, Value)>)
    requires
        normalized(path) == "rsfm.entry_format"@,
        forall|j: int| 0 <= j < es.len() ==> ((#[trigger] es[j]).0 matches Key::Int(i) && i >= 1)
            && column_conforms(es[j].1),
    ensures
        all_registered(walk_entries(path, es)),
    decreases es.len(),
{
    if es.len() > 0 {
        let last = es.last();
        assert(es[es.len() - 1] == last);
        assert forall|j: int| 0 <= j < es.drop_last().len() implies ((#[trigger] es.drop_last()[j]).0 matches Key::Int(i) && i >= 1)
            && column_conforms(es.drop_last()[j].1) by {
            assert(es.drop_last()[j] == es[j]);
        }
        lemma_column_list(path, es.drop_last());
        let i = last.0->Int_0;
        lemma_decimal_is_index(i as nat);
        let p = child_path(path, last.0);
        lemma_normalized_child(path, decimal(i as nat));
        reveal_strlit("rsfm.entry_format");
        reveal_strlit("rsfm.entry_format.{}");
        assert(normalized(p) =~= "rsfm.entry_format.{}"@);
        lemma_schema_lookup(1);
        assert(record_diagnostic(p, type_of(last.1)) is None);
        let one = seq![(p, type_of(last.1))];
        assert(all_registered(one));
        let fs = last.1->Table_0;
        assert forall|j: int| 0 <= j < fs@.len() implies column_field_conforms((#[trigger] fs@[j]).0, fs@[j].1) by {}
        lemma_column_fields(p, fs@);
        lemma_all_registered_concat(walk_entries(path, es.drop_last()), one);
        lemma_all_registered_concat(walk_entries(path, es.drop_last()) + one, walk(p, last.1));
    }
}

proof fn lemma_root_fields(es: Seq<(Key, Value)>)
    requires
        forall|j: int| 0 <= j < es.len() ==> root_field_conforms((#[trigger] es[j]).0, es[j].1),
    ensures
        all_registered(walk_entries("rsfm"@, es)),
    decreases es.len(),
{
    if es.len() > 0 {
        let last = es.last();
        assert(es[es.len() - 1] == last);
        assert forall|j: int| 0 <= j < es.drop_last().len() implies root_field_conforms((#[trigger] es.drop_last()[j]).0, es.drop_last()[j].1) by {
            assert(es.drop_last()[j] == es[j]);
        }
        lemma_root_fields(es.drop_last());
        let root = "rsfm"@;
        reveal_strlit("rsfm");
        reveal_strlit("show_hidden");
        reveal_strlit("entry_format");
        reveal_strlit("rsfm.show_hidden");
        reveal_strlit("rsfm.entry_format");
        assert(has_no_dot(root));
        lemma_name_not_index(root);
        lemma_plain_normalized(root);
        let name = key_text(last.0);
        let p = child_path(root, last.0);
        let i: int = if name == "show_hidden"@ {
            0
        } else {
            5
        };
        assert(schema_entries()[i].0 =~= root + dot() + name);
        lemma_field_path(root, name, schema_entries()[i].0);
        lemma_schema_lookup(i);
        assert(record_diagnostic(p, type_of(last.1)) is None);
        let one = seq![(p, type_of(last.1))];
        assert(all_registered(one));
        if i == 5 {
            let fs = last.1->Table_0;
            lemma_column_list(p, fs@);
        } else {
            assert(walk(p, last.1) =~= Seq::<(Seq<char>, ValueType)>::empty());
        }
        lemma_all_registered_concat(walk_entries(root, es.drop_last()), one);
        lemma_all_registered_concat(walk_entries(root, es.drop_last()) + one, walk(p, last.1));
    }
}

/// A configuration built only from the shapes that the schema declares draws no
/// diagnostic.
pub proof fn lemma_conforming_config_is_clean(root: Value)
    requires
        conforms(root),
    ensures
        diagnostics(walk("rsfm"@, root)).len() == 0,
{
    let es = root->Table_0;
    assert forall|j: int| 0 <= j < es@.len() implies root_field_conforms((#[trigger] es@[j]).0, es@[j].1) by {}
    lemma_root_fields(es@);
    lemma_no_diagnostics(walk("rsfm"@, root), walk("rsfm"@, root).len());
}

proof fn lemma_mismatches_registered(recs: Seq<(Seq<char>, ValueType)>, n: nat)
    ensures
        forall|j: int| 0 <= j < check_upto(recs, n).0.len() ==> ((#[trigger] check_upto(recs, n).0[j]) matches DiagnosticView::TypeMismatch {
            path,
            ..
        } ==> schema_type(normalized(path)) is Some),
    decreases n,
{
    if n > 0 && n <= recs.len() {
        lemma_mismatches_registered(recs, (n - 1) as nat);
        let prev = check_upto(recs, (n - 1) as nat).0;
        let cur = check_upto(recs, n).0;
        assert forall|j: int| 0 <= j < cur.len() implies ((#[trigger] cur[j]) matches DiagnosticView::TypeMismatch {
            path,
            ..
        } ==> schema_type(normalized(path)) is Some) by {
            if j < prev.len() {
                assert(cur[j] == prev[j]);
            } else {
                let r = recs[n - 1];
                assert(emitted(recs, (n - 1) as nat) is Some);
                assert(cur[j] == emitted(recs, (n - 1) as nat)->0);
                assert(record_diagnostic(r.0, r.1) == emitted(recs, (n - 1) as nat));
            }
        }
    }
}

/// A variable whose schema path is not registered, that is no list element and lies
/// below no table already reported with a wrong type, gives exactly one diagnostic, of
/// an unknown path (with or without a suggestion) naming its schema path; and no
/// diagnostic reports a wrong type for that path.
pub proof fn lemma_unknown_path_reported_once(root_key: Seq<char>, root: Value, k: int)
    requires
        0 <= k < walk(root_key, root).len(),
        schema_type(normalized(walk(root_key, root)[k].0)) is None,
        !is_array_element(walk(root_key, root)[k].0),
        !covered(check_upto(walk(root_key, root), k as nat).1, walk(root_key, root)[k].0),
    ensures
        ({
            let recs = walk(root_key, root);
            let n = normalized(recs[k].0);
            match emitted(recs, k as nat) {
                Some(DiagnosticView::UnknownPath { path }) => path == n,
                Some(DiagnosticView::UnknownPathWithSuggestion { path, .. }) => path == n,
                _ => false,
            }
        }),
        forall|j: int| 0 <= j < diagnostics(walk(root_key, root)).len() ==> !((#[trigger] diagnostics(walk(root_key, root))[j]) matches DiagnosticView::TypeMismatch {
            path,
            ..
        } && path == walk(root_key, root)[k].0),
{
    let recs = walk(root_key, root);
    lemma_mismatches_registered(recs, recs.len());
}

proof fn lemma_reported_stays_skipped(recs: Seq<(Seq<char>, ValueType)>, i: nat, j: nat)
    requires
        i < j <= recs.len(),
        emitted(recs, i) matches Some(DiagnosticView::TypeMismatch { .. }),
    ensures
        check_upto(recs, j).1.contains(recs[i as int].0),
    decreases j,
{
    if j == i + 1 {
        let s = check_upto(recs, j).1;
        assert(s.last() == recs[i as int].0);
        assert(s[s.len() - 1] == recs[i as int].0);
    } else {
        lemma_reported_stays_skipped(recs, i, (j - 1) as nat);
        let prev = check_upto(recs, (j - 1) as nat).1;
        let k = choose|k: int| 0 <= k < prev.len() && prev[k] == recs[i as int].0;
        let s = check_upto(recs, j).1;
        assert(s[k] == prev[k]);
    }
}

/// Once a variable is reported with a wrong type, no variable below it draws a
/// diagnostic.
pub proof fn lemma_nothing_below_mismatch(root_key: Seq<char>, root: Value, i: int, j: int)
    requires
        0 <= i < j < walk(root_key, root).len(),
        emitted(walk(root_key, root), i as nat) matches Some(DiagnosticView::TypeMismatch { .. }),
        beneath(walk(root_key, root)[i].0, walk(root_key, root)[j].0),
    ensures
        emitted(walk(root_key, root), j as nat) is None,
{
    let recs = walk(root_key, root);
    lemma_reported_stays_skipped(recs, i as nat, j as nat);
    let skips = check_upto(recs, j as nat).1;
    let m = choose|m: int| 0 <= m < skips.len() && skips[m] == recs[i].0;
    assert(beneath(skips[m], recs[j].0));
}

proof fn lemma_emitted_kept(recs: Seq<(Seq<char>, ValueType)>, i: nat, n: nat)
    requires
        i < n <= recs.len(),
        emitted(recs, i) is Some,
    ensures
        check_upto(recs, n).0.contains(emitted(recs, i)->0),
    decreases n,
{
    let d = check_upto(recs, n).0;
    if n == i + 1 {
        assert(d[d.len() - 1] == emitted(recs, i)->0);
    } else {
        lemma_emitted_kept(recs, i, (n - 1) as nat);
        let prev = check_upto(recs, (n - 1) as nat).0;
        let k = choose|k: int| 0 <= k < prev.len() && prev[k] == emitted(recs, i)->0;
        assert(d[k] == prev[k]);
    }
}

/// A registered variable of another type, below no table already reported, is
/// reported with a wrong type under its concrete path, and that diagnostic is among
/// the diagnostics of the tree.
pub proof fn lemma_mismatch_reported(root_key: Seq<char>, root: Value, i: int)
    requires
        0 <= i < walk(root_key, root).len(),
        schema_type(normalized(walk(root_key, root)[i].0)) matches Some(e) && e != walk(root_key, root)[i].1,
        !covered(check_upto(walk(root_key, root), i as nat).1, walk(root_key, root)[i].0),
    ensures
        emitted(walk(root_key, root), i as nat) == Some(
            DiagnosticView::TypeMismatch {
                path: walk(root_key, root)[i].0,
                found: walk(root_key, root)[i].1,
                expected: schema_type(normalized(walk(root_key, root)[i].0))->0,
            },
        ),
        diagnostics(walk(root_key, root)).contains(emitted(walk(root_key, root), i as nat)->0),
{
    let recs = walk(root_key, root);
    lemma_emitted_kept(recs, i as nat, recs.len());
}

} // verus!
