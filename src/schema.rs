//! The fixed schema of configuration paths, and the mapping of concrete paths onto it.
use itertools::Itertools;
use vstd::prelude::*;

use crate::text::{
    decimal, digit_char, has_no_dot, joined, lemma_joined_push, lemma_split_child, lemma_split_no_dot,
    lemma_split_nonempty, split_dots,
};
use crate::value::ValueType;

verus! {

/// The digits of an index segment: a leading '+' is allowed and dropped.
pub open spec fn index_digits(s: Seq<char>) -> Seq<char> {
    if s.len() > 0 && s[0] == '+' {
        s.drop_first()
    } else {
        s
    }
}

pub open spec fn all_digits(s: Seq<char>) -> bool {
    forall|i: int| 0 <= i < s.len() ==> '0' <= #[trigger] s[i] && s[i] <= '9'
}

/// The number that a string of decimal digits denotes.
pub open spec fn digits_value(s: Seq<char>) -> nat
    decreases s.len(),
{
    if s.len() == 0 {
        0
    } else {
        digits_value(s.drop_last()) * 10 + ((s.last() as u32 - '0' as u32) as nat)
    }
}

/// Whether a path segment reads as a list index: a non-negative decimal integer, that
/// is one or more digits, optionally after a '+'.
pub open spec fn is_index_segment(s: Seq<char>) -> bool {
    let d = index_digits(s);
    d.len() > 0 && all_digits(d)
}

/// The wildcard that stands for any list index in a schema path.
pub open spec fn wildcard() -> Seq<char> {
    seq!['{', '}']
}

pub open spec fn dot() -> Seq<char> {
    seq!['.']
}

/// A segment as it stands in a schema path.
pub open spec fn schema_segment(s: Seq<char>) -> Seq<char> {
    if is_index_segment(s) {
        wildcard()
    } else {
        s
    }
}

pub open spec fn schema_segments(segs: Seq<Seq<char>>) -> Seq<Seq<char>> {
    segs.map_values(|s: Seq<char>| schema_segment(s))
}

/// The schema path of a concrete path: each index segment replaced by the wildcard.
pub open spec fn normalized(path: Seq<char>) -> Seq<char> {
    joined(schema_segments(split_dots(path)), dot())
}

/// The registered schema, in the order in which suggestions scan it (element paths
/// before the list itself, so that a tie goes to the more specific path).
pub open spec fn schema_entries() -> Seq<(Seq<char>, ValueType)> {
    seq![
        ("rsfm.show_hidden"@, ValueType::Boolean),
        ("rsfm.entry_format.{}"@, ValueType::Table),
        ("rsfm.entry_format.{}.type"@, ValueType::String),
        ("rsfm.entry_format.{}.width"@, ValueType::Integer),
        ("rsfm.entry_format.{}.is_fixed_width"@, ValueType::Boolean),
        ("rsfm.entry_format"@, ValueType::Table),
    ]
}

pub open spec fn schema_paths() -> Seq<Seq<char>> {
    schema_entries().map_values(|e: (Seq<char>, ValueType)| e.0)
}

/// The type registered for a schema path, if any.
pub open spec fn schema_type(path: Seq<char>) -> Option<ValueType> {
    schema_type_from(path, 0)
}

pub open spec fn schema_type_from(path: Seq<char>, i: nat) -> Option<ValueType>
    decreases schema_entries().len() - i,
{
    if i >= schema_entries().len() {
        None
    } else if schema_entries()[i as int].0 == path {
        Some(schema_entries()[i as int].1)
    } else {
        schema_type_from(path, i + 1)
    }
}

/// Normalizing a child path: the parent's schema path, a '.', and the key's schema segment.
pub proof fn lemma_normalized_child(p: Seq<char>, k: Seq<char>)
    requires
        has_no_dot(k),
    ensures
        normalized(p + seq!['.'] + k) == normalized(p) + dot() + schema_segment(k),
{
    lemma_split_child(p, k);
    lemma_split_nonempty(p);
    let segs = split_dots(p);
    assert(schema_segments(segs.push(k)) =~= schema_segments(segs).push(schema_segment(k)));
    lemma_joined_push(schema_segments(segs), dot(), schema_segment(k));
}

/// Relies on itertools' `Itertools::join`: each item's text, with `sep` between each two.
#[verifier::external_body]
fn join_with(parts: &Vec<String>, sep: &str) -> (r: String)
    ensures
        r@ == joined(parts@.map_values(|p: String| p@), sep@),
{
    parts.iter().join(sep)
}

/// The '.'-separated segments of `s`.
pub fn split_segments(s: &str) -> (r: Vec<String>)
    ensures
        r@.map_values(|p: String| p@) == split_dots(s@),
{
    let n = s.unicode_len();
    let mut segs: Vec<String> = Vec::new();
    let mut start: usize = 0;
    let mut i: usize = 0;
    assert(s@.subrange(0, 0) =~= Seq::<char>::empty());
    assert(segs@.map_values(|p: String| p@).push(s@.subrange(0, 0)) =~= seq![Seq::<char>::empty()]);
    while i < n
        invariant
            n == s@.len(),
            start <= i <= n,
            split_dots(s@.subrange(0, i as int)) == segs@.map_values(|p: String| p@).push(
                s@.subrange(start as int, i as int),
            ),
        decreases n - i,
    {
        let c = s.get_char(i);
        let ghost prev = s@.subrange(0, i as int);
        assert(s@.subrange(0, i + 1) =~= prev.push(c));
        assert(s@.subrange(0, i + 1).drop_last() =~= prev);
        if c == '.' {
            let seg = s.substring_char(start, i);
            let ghost old_segs = segs@;
            segs.push(String::from_str(seg));
            assert(segs@.map_values(|p: String| p@) =~= old_segs.map_values(|p: String| p@).push(seg@));
            start = i + 1;
            assert(s@.subrange(start as int, i + 1) =~= Seq::<char>::empty());
        } else {
            assert(s@.subrange(start as int, i + 1) =~= s@.subrange(start as int, i as int).push(c));
            let ghost t = split_dots(prev);
            assert(t.update(t.len() - 1, t.last().push(c)) =~= segs@.map_values(|p: String| p@).push(
                s@.subrange(start as int, i + 1),
            ));
        }
        i = i + 1;
    }
    let seg = s.substring_char(start, n);
    let ghost old_segs = segs@;
    segs.push(String::from_str(seg));
    assert(segs@.map_values(|p: String| p@) =~= old_segs.map_values(|p: String| p@).push(seg@));
    assert(s@.subrange(0, n as int) =~= s@);
    segs
}

/// When a path segment reads as a list index, whether that index is above 0.
pub fn parse_index(seg: &str) -> (r: Option<bool>)
    ensures
        r is Some <==> is_index_segment(seg@),
        r matches Some(positive) ==> positive == (digits_value(index_digits(seg@)) > 0),
{
    let n = seg.unicode_len();
    let mut start: usize = 0;
    if n > 0 && seg.get_char(0) == '+' {
        start = 1;
    }
    let ghost d = index_digits(seg@);
    assert(d =~= seg@.subrange(start as int, n as int));
    if start == n {
        return None;
    }
    let mut positive = false;
    let mut i: usize = start;
    assert(d.subrange(0, 0) =~= Seq::<char>::empty());
    while i < n
        invariant
            n == seg@.len(),
            start <= i <= n,
            d == seg@.subrange(start as int, n as int),
            d == index_digits(seg@),
            all_digits(d.subrange(0, i - start)),
            positive == (digits_value(d.subrange(0, i - start)) > 0),
        decreases n - i,
    {
        let c = seg.get_char(i);
        let ghost pre = d.subrange(0, i - start);
        let ghost next = d.subrange(0, i - start + 1);
        assert(next =~= pre.push(c));
        assert(next.drop_last() =~= pre);
        if c < '0' || c > '9' {
            assert(!all_digits(d)) by {
                assert(d[i - start] == c);
            }
            return None;
        }
        let ghost v = digits_value(pre);
        let ghost dg = (c as u32 - '0' as u32) as nat;
        assert(digits_value(next) == v * 10 + dg);
        assert((v * 10 + dg > 0) == (v > 0 || dg > 0)) by (nonlinear_arith);
        positive = positive || c != '0';
        assert(all_digits(next)) by {
            assert forall|k: int| 0 <= k < next.len() implies '0' <= #[trigger] next[k] && next[k] <= '9' by {
                if k < pre.len() {
                    assert(next[k] == pre[k]);
                }
            }
        }
        i = i + 1;
    }
    assert(d.subrange(0, n - start) =~= d);
    Some(positive)
}

/// A segment as it stands in a schema path: the wildcard for an index, else itself.
fn schema_segment_of(seg: String) -> (r: String)
    ensures
        r@ == schema_segment(seg@),
{
    match parse_index(seg.as_str()) {
        Some(_) => {
            proof { reveal_strlit("{}"); }
            String::from_str("{}")
        },
        None => seg,
    }
}

/// The schema segments of the first `count` segments.
fn schema_segments_of(segs: &Vec<String>, count: usize) -> (r: Vec<String>)
    requires
        count <= segs@.len(),
    ensures
        r@.map_values(|p: String| p@) == schema_segments(segs@.map_values(|p: String| p@).subrange(0, count as int)),
{
    let mut out: Vec<String> = Vec::new();
    let mut i: usize = 0;
    while i < count
        invariant
            i <= count <= segs@.len(),
            out@.len() == i,
            forall|j: int| 0 <= j < i ==> (#[trigger] out@[j])@ == schema_segment(segs@[j]@),
        decreases count - i,
    {
        out.push(schema_segment_of(segs[i].clone()));
        i = i + 1;
    }
    assert(out@.map_values(|p: String| p@) =~= schema_segments(segs@.map_values(|p: String| p@).subrange(0, count as int)));
    out
}

/// The schema path of a concrete path: every segment that reads as a list index
/// becomes "{}", the others stay as they are.
pub fn replace_array_index(var: &str) -> (r: String)
    ensures
        r@ == normalized(var@),
{
    let segs = split_segments(var);
    let mapped = schema_segments_of(&segs, segs.len());
    assert(segs@.map_values(|p: String| p@).subrange(0, segs@.len() as int) =~= segs@.map_values(|p: String| p@));
    proof { reveal_strlit("."); }
    assert("."@ =~= dot());
    join_with(&mapped, ".")
}

/// Whether a concrete path is an element of a registered list: its parent's schema
/// path is registered as a table, and its last segment reads as a positive index.
pub open spec fn is_array_element(path: Seq<char>) -> bool {
    let segs = split_dots(path);
    &&& segs.len() >= 2
    &&& is_index_segment(segs.last())
    &&& digits_value(index_digits(segs.last())) > 0
    &&& schema_type(joined(schema_segments(segs.drop_last()), dot())) == Some(ValueType::Table)
}

/// Entry `i` of the registered schema.
pub fn schema_entry(i: usize) -> (r: (&'static str, ValueType))
    requires
        i < schema_entries().len(),
    ensures
        r.0@ == schema_entries()[i as int].0,
        r.1 == schema_entries()[i as int].1,
{
    if i == 0 {
        ("rsfm.show_hidden", ValueType::Boolean)
    } else if i == 1 {
        ("rsfm.entry_format.{}", ValueType::Table)
    } else if i == 2 {
        ("rsfm.entry_format.{}.type", ValueType::String)
    } else if i == 3 {
        ("rsfm.entry_format.{}.width", ValueType::Integer)
    } else if i == 4 {
        ("rsfm.entry_format.{}.is_fixed_width", ValueType::Boolean)
    } else {
        ("rsfm.entry_format", ValueType::Table)
    }
}

/// Number of registered schema paths.
pub const SCHEMA_LEN: usize = 6;

/// The registered schema paths, in scan order.
pub fn schema_path_list() -> (r: Vec<&'static str>)
    ensures
        r@.map_values(|p: &str| p@) == schema_paths(),
{
    let mut out: Vec<&'static str> = Vec::new();
    let mut i: usize = 0;
    while i < SCHEMA_LEN
        invariant
            i <= SCHEMA_LEN == schema_entries().len(),
            out@.len() == i,
            forall|j: int| 0 <= j < i ==> (#[trigger] out@[j])@ == schema_entries()[j].0,
        decreases SCHEMA_LEN - i,
    {
        out.push(schema_entry(i).0);
        i = i + 1;
    }
    assert(out@.map_values(|p: &str| p@) =~= schema_paths());
    out
}

/// The type registered for a schema path, if any.
pub fn lookup_schema(path: &str) -> (r: Option<ValueType>)
    ensures
        r == schema_type(path@),
{
    let mut i: usize = 0;
    while i < SCHEMA_LEN
        invariant
            i <= SCHEMA_LEN == schema_entries().len(),
            schema_type(path@) == schema_type_from(path@, i as nat),
        decreases SCHEMA_LEN - i,
    {
        let (p, t) = schema_entry(i);
        if crate::text::text_eq(p, path) {
            return Some(t);
        }
        i = i + 1;
    }
    None
}

/// Whether a concrete path is an element of a registered list (see `is_array_element`).
pub fn is_array_element_path(path: &str) -> (r: bool)
    ensures
        r == is_array_element(path@),
{
    let segs = split_segments(path);
    let n = segs.len();
    proof { lemma_split_nonempty(path@); }
    if n < 2 {
        return false;
    }
    let ghost views = segs@.map_values(|p: String| p@);
    assert(views.last() == segs@[n - 1]@);
    match parse_index(segs[n - 1].as_str()) {
        Some(positive) => {
            if !positive {
                return false;
            }
        },
        None => {
            return false;
        },
    }
    let parent = schema_segments_of(&segs, n - 1);
    assert(views.subrange(0, n - 1) =~= views.drop_last());
    proof { reveal_strlit("."); }
    assert("."@ =~= dot());
    let joined_parent = join_with(&parent, ".");
    lookup_schema(joined_parent.as_str()) == Some(ValueType::Table)
}

/// A path of one segment that is no index is its own schema path.
pub proof fn lemma_plain_normalized(s: Seq<char>)
    requires
        has_no_dot(s),
        !is_index_segment(s),
    ensures
        normalized(s) == s,
{
    lemma_split_no_dot(s);
    assert(schema_segments(seq![s]) =~= seq![s]);
}

/// A name that starts with a letter is no index.
pub proof fn lemma_name_not_index(s: Seq<char>)
    requires
        s.len() > 0,
        'a' <= s[0] <= 'z',
    ensures
        !is_index_segment(s),
{
    assert(index_digits(s) == s);
}

proof fn lemma_decimal_digits(n: nat)
    ensures
        all_digits(decimal(n)),
        has_no_dot(decimal(n)),
        digits_value(decimal(n)) == n,
        decimal(n).len() > 0,
        decimal(n)[0] != '+',
    decreases n,
{
    let d = decimal(n);
    if n >= 10 {
        lemma_decimal_digits(n / 10);
        let p = decimal(n / 10);
        assert(d == p.push(digit_char(n % 10)));
        assert(d.drop_last() =~= p);
        assert(d[0] == p[0]);
        assert forall|i: int| 0 <= i < d.len() implies '0' <= #[trigger] d[i] && d[i] <= '9' && d[i] != '.' by {
            if i < p.len() {
                assert(d[i] == p[i]);
            }
        }
        assert((digit_char(n % 10) as u32 - '0' as u32) == n % 10);
        assert(d.last() == digit_char(n % 10));
        assert(digits_value(d) == digits_value(p) * 10 + (n % 10));
        assert((n / 10) * 10 + n % 10 == n);
        assert(digits_value(d) == n);
    } else {
        assert((digit_char(n) as u32 - '0' as u32) == n);
        assert(d.drop_last() =~= Seq::<char>::empty());
        assert(d.last() == digit_char(n));
        assert(digits_value(d.drop_last()) == 0);
        assert(digits_value(d) == n);
    }
}

/// The decimal text of a natural number is an index segment.
pub proof fn lemma_decimal_is_index(n: nat)
    ensures
        is_index_segment(decimal(n)),
        has_no_dot(decimal(n)),
{
    lemma_decimal_digits(n);
    assert(index_digits(decimal(n)) == decimal(n));
}

/// Each registered path is found with its registered type.
pub proof fn lemma_schema_lookup(i: int)
    requires
        0 <= i < schema_entries().len(),
    ensures
        schema_type(schema_entries()[i].0) == Some(schema_entries()[i].1),
{
    reveal_strlit("rsfm.show_hidden");
    reveal_strlit("rsfm.entry_format.{}");
    reveal_strlit("rsfm.entry_format.{}.type");
    reveal_strlit("rsfm.entry_format.{}.width");
    reveal_strlit("rsfm.entry_format.{}.is_fixed_width");
    reveal_strlit("rsfm.entry_format");
    let e = schema_entries();
    let p = e[i].0;
    assert(forall|j: int| 0 <= j < i ==> e[j].0.len() != p.len());
    reveal_with_fuel(schema_type_from, 7);
}

} // verus!
