//! Directory entries: their kinds, and the order in which the browser lists them.
use vstd::prelude::*;

verus! {

/// The kind of a directory entry.
#[derive(PartialEq, Eq, Structural, Clone, Copy, Debug, Hash)]
pub enum EntryType {
    Dir,
    File,
    Link,
    Unknown,
}

/// The sorting tier of a kind: directories first, then files and links together,
/// then entries of unknown kind.
pub open spec fn tier(t: EntryType) -> u8 {
    match t {
        EntryType::Dir => 0,
        EntryType::File => 1,
        EntryType::Link => 1,
        EntryType::Unknown => 2,
    }
}

impl EntryType {
    /// The kind of an entry from what its metadata says, tested in this order: a
    /// directory, a regular file, a symbolic link; anything else is unknown.
    pub fn new(is_dir: bool, is_file: bool, is_symlink: bool) -> (r: EntryType)
        ensures
            r == if is_dir {
                EntryType::Dir
            } else if is_file {
                EntryType::File
            } else if is_symlink {
                EntryType::Link
            } else {
                EntryType::Unknown
            },
    {
        if is_dir {
            EntryType::Dir
        } else if is_file {
            EntryType::File
        } else if is_symlink {
            EntryType::Link
        } else {
            EntryType::Unknown
        }
    }

    /// The sorting tier of this kind (see `tier`).
    pub fn priority(&self) -> (r: u8)
        ensures
            r == tier(*self),
    {
        match self {
            EntryType::Dir => 0,
            EntryType::File => 1,
            EntryType::Link => 1,
            EntryType::Unknown => 2,
        }
    }
}

/// One directory entry: its name, its kind, and its length in bytes when known.
#[derive(Debug)]
pub struct Item {
    pub name: String,
    pub entry_type: EntryType,
    pub size: Option<u64>,
}

/// Lexicographic order of names, character by character by code point (the order of
/// their UTF-8 bytes).
pub open spec fn name_lt(a: Seq<char>, b: Seq<char>) -> bool
    decreases a.len(),
{
    if a.len() == 0 {
        b.len() > 0
    } else if b.len() == 0 {
        false
    } else if a[0] != b[0] {
        a[0] < b[0]
    } else {
        name_lt(a.drop_first(), b.drop_first())
    }
}

pub proof fn lemma_name_lt_irreflexive(a: Seq<char>)
    ensures
        !name_lt(a, a),
    decreases a.len(),
{
    if a.len() > 0 {
        lemma_name_lt_irreflexive(a.drop_first());
    }
}

pub proof fn lemma_name_lt_total(a: Seq<char>, b: Seq<char>)
    ensures
        a == b || name_lt(a, b) || name_lt(b, a),
    decreases a.len(),
{
    if a.len() > 0 && b.len() > 0 && a[0] == b[0] {
        lemma_name_lt_total(a.drop_first(), b.drop_first());
        if a.drop_first() == b.drop_first() {
            assert(a =~= seq![a[0]] + a.drop_first());
            assert(b =~= seq![b[0]] + b.drop_first());
        }
    } else if a.len() == 0 && b.len() == 0 {
        assert(a =~= b);
    }
}

pub proof fn lemma_name_lt_transitive(a: Seq<char>, b: Seq<char>, c: Seq<char>)
    requires
        name_lt(a, b),
        name_lt(b, c),
    ensures
        name_lt(a, c),
    decreases a.len(),
{
    if a.len() > 0 && b.len() > 0 && c.len() > 0 && a[0] == b[0] && b[0] == c[0] {
        lemma_name_lt_transitive(a.drop_first(), b.drop_first(), c.drop_first());
    }
}

/// Whether `a` comes before `b` in name order.
pub fn name_less(a: &str, b: &str) -> (r: bool)
    ensures
        r == name_lt(a@, b@),
{
    let n = a.unicode_len();
    let m = b.unicode_len();
    let mut i: usize = 0;
    assert(a@.subrange(0, n as int) =~= a@);
    assert(b@.subrange(0, m as int) =~= b@);
    while i < n && i < m
        invariant
            n == a@.len(),
            m == b@.len(),
            i <= n,
            i <= m,
            name_lt(a@, b@) == name_lt(a@.subrange(i as int, n as int), b@.subrange(i as int, m as int)),
        decreases n - i,
    {
        let x = a.get_char(i);
        let y = b.get_char(i);
        let ghost sa = a@.subrange(i as int, n as int);
        let ghost sb = b@.subrange(i as int, m as int);
        assert(sa[0] == x && sb[0] == y);
        if x != y {
            return x < y;
        }
        assert(sa.drop_first() =~= a@.subrange(i + 1, n as int));
        assert(sb.drop_first() =~= b@.subrange(i + 1, m as int));
        i = i + 1;
    }
    i < m
}

/// Whether a name marks a hidden entry (it starts with '.').
pub open spec fn is_hidden(name: Seq<char>) -> bool {
    name.len() > 0 && name[0] == '.'
}

/// Whether entry `i` is listed: hidden entries only when `show_hidden` is set.
pub open spec fn shown(items: Seq<Item>, show_hidden: bool, i: int) -> bool {
    0 <= i < items.len() && (show_hidden || !is_hidden(items[i].name@))
}

pub open spec fn tier_at(items: Seq<Item>, i: int) -> u8 {
    tier(items[i].entry_type)
}

/// Order by tier, entries of one tier kept in their given order.
pub open spec fn tier_before(items: Seq<Item>, a: int, b: int) -> bool {
    tier_at(items, a) < tier_at(items, b) || (tier_at(items, a) == tier_at(items, b) && a < b)
}

/// Order by name, entries of one name kept in their given order.
pub open spec fn name_before(items: Seq<Item>, a: int, b: int) -> bool {
    name_lt(items[a].name@, items[b].name@) || (items[a].name@ == items[b].name@ && a < b)
}

/// The listing order: by tier, then by name, then by given position.
pub open spec fn display_before(items: Seq<Item>, a: int, b: int) -> bool {
    tier_at(items, a) < tier_at(items, b) || (tier_at(items, a) == tier_at(items, b) && name_before(
        items,
        a,
        b,
    ))
}

pub open spec fn before(items: Seq<Item>, by_name: bool, a: int, b: int) -> bool {
    if by_name {
        name_before(items, a, b)
    } else {
        tier_before(items, a, b)
    }
}

pub open spec fn sorted_by(items: Seq<Item>, by_name: bool, s: Seq<usize>) -> bool {
    forall|a: int, b: int| 0 <= a < b < s.len() ==> before(items, by_name, #[trigger] s[a] as int, #[trigger] s[b] as int)
}

pub open spec fn display_sorted(items: Seq<Item>, s: Seq<usize>) -> bool {
    forall|a: int, b: int| 0 <= a < b < s.len() ==> display_before(items, #[trigger] s[a] as int, #[trigger] s[b] as int)
}

proof fn lemma_before_order(items: Seq<Item>, by_name: bool, a: int, b: int, c: int)
    ensures
        !before(items, by_name, a, a),
        a != b ==> before(items, by_name, a, b) || before(items, by_name, b, a),
        before(items, by_name, a, b) && before(items, by_name, b, c) ==> before(items, by_name, a, c),
{
    lemma_name_lt_irreflexive(items[a].name@);
    lemma_name_lt_total(items[a].name@, items[b].name@);
    if name_lt(items[a].name@, items[b].name@) && name_lt(items[b].name@, items[c].name@) {
        lemma_name_lt_transitive(items[a].name@, items[b].name@, items[c].name@);
    }
    if name_lt(items[a].name@, items[b].name@) && name_lt(items[b].name@, items[a].name@) {
        lemma_name_lt_transitive(items[a].name@, items[b].name@, items[a].name@);
    }
}

fn before_exec(items: &Vec<Item>, by_name: bool, a: usize, b: usize) -> (r: bool)
    requires
        a < items@.len(),
        b < items@.len(),
    ensures
        r == before(items@, by_name, a as int, b as int),
{
    if by_name {
        let na = items[a].name.as_str();
        let nb = items[b].name.as_str();
        if name_less(na, nb) {
            true
        } else {
            crate::text::text_eq(na, nb) && a < b
        }
    } else {
        let ta = items[a].entry_type.priority();
        let tb = items[b].entry_type.priority();
        ta < tb || (ta == tb && a < b)
    }
}

/// Inserts `x` into `out`, which is sorted and stays sorted.
fn insert_sorted(out: &mut Vec<usize>, x: usize, items: &Vec<Item>, by_name: bool)
    requires
        x < items@.len(),
        forall|k: int| 0 <= k < old(out)@.len() ==> (#[trigger] old(out)@[k]) < items@.len(),
        sorted_by(items@, by_name, old(out)@),
        !old(out)@.contains(x),
    ensures
        sorted_by(items@, by_name, final(out)@),
        forall|k: int| 0 <= k < final(out)@.len() ==> (#[trigger] final(out)@[k]) < items@.len(),
        forall|y: usize| final(out)@.contains(y) <==> (old(out)@.contains(y) || y == x),
        final(out)@.len() == old(out)@.len() + 1,
{
    let ghost prev = out@;
    let mut pos: usize = 0;
    while pos < out.len() && !before_exec(items, by_name, x, out[pos])
        invariant
            x < items@.len(),
            pos <= out@.len(),
            out@ == prev,
            forall|k: int| 0 <= k < out@.len() ==> (#[trigger] out@[k]) < items@.len(),
            forall|k: int| 0 <= k < pos ==> !before(items@, by_name, x as int, #[trigger] out@[k] as int),
        decreases out@.len() - pos,
    {
        pos = pos + 1;
    }
    out.insert(pos, x);
    assert forall|a: int, b: int| 0 <= a < b < out@.len() implies before(items@, by_name, #[trigger] out@[a] as int, #[trigger] out@[b] as int) by {
        if a < pos && b == pos {
            assert(out@[a] == prev[a]);
            assert(prev[a] != x) by {
                assert(prev.contains(prev[a]));
            }
            lemma_before_order(items@, by_name, x as int, prev[a] as int, x as int);
        } else if a == pos {
            if b > pos + 1 {
                assert(before(items@, by_name, prev[pos as int] as int, prev[b - 1] as int));
                lemma_before_order(items@, by_name, x as int, prev[pos as int] as int, prev[b - 1] as int);
            }
        } else if a < pos && b > pos {
            assert(out@[a] == prev[a]);
            assert(out@[b] == prev[b - 1]);
        } else if a > pos {
            assert(out@[a] == prev[a - 1]);
            assert(out@[b] == prev[b - 1]);
        }
    }
    assert forall|y: usize| out@.contains(y) <==> (prev.contains(y) || y == x) by {
        if out@.contains(y) {
            let k = choose|k: int| 0 <= k < out@.len() && out@[k] == y;
            if k < pos {
                assert(prev[k] == y);
            } else if k > pos {
                assert(prev[k - 1] == y);
            }
        }
        if prev.contains(y) {
            let k = choose|k: int| 0 <= k < prev.len() && prev[k] == y;
            if k < pos {
                assert(out@[k] == y);
            } else {
                assert(out@[k + 1] == y);
            }
        }
        if y == x {
            assert(out@[pos as int] == x);
        }
    }
}

/// A run of positions `begin..end`.
#[derive(PartialEq, Eq, Structural, Clone, Copy, Debug)]
pub struct Part {
    pub begin: usize,
    pub end: usize,
}

/// `parts` cuts `tiers` into its maximal runs of equal tier, in order.
pub open spec fn runs_of(tiers: Seq<u8>, parts: Seq<Part>) -> bool {
    &&& tiers.len() == 0 ==> parts.len() == 0
    &&& tiers.len() > 0 ==> parts.len() > 0 && parts[0].begin == 0 && parts.last().end == tiers.len()
    &&& forall|j: int| 0 <= j < parts.len() ==> (#[trigger] parts[j]).begin < parts[j].end <= tiers.len()
    &&& forall|j: int| 0 <= j < parts.len() - 1 ==> (#[trigger] parts[j]).end == parts[j + 1].begin
    &&& forall|j: int, k: int| 0 <= j < parts.len() && parts[j].begin <= k < parts[j].end ==> #[trigger] tiers[k]
        == tiers[(#[trigger] parts[j]).begin as int]
    &&& forall|j: int| 0 <= j < parts.len() - 1 ==> tiers[(#[trigger] parts[j]).end as int] != tiers[parts[j].end - 1]
}

fn split_tiers(tiers: &Vec<u8>) -> (r: Vec<Part>)
    ensures
        runs_of(tiers@, r@),
{
    let n = tiers.len();
    let mut result: Vec<Part> = Vec::new();
    if n == 0 {
        return result;
    }
    let mut begin: usize = 0;
    let mut i: usize = 1;
    while i < n
        invariant
            n == tiers@.len(),
            begin < i <= n,
            result@.len() > 0 ==> result@[0].begin == 0 && result@.last().end == begin,
            result@.len() == 0 ==> begin == 0,
            forall|j: int| 0 <= j < result@.len() ==> (#[trigger] result@[j]).begin < result@[j].end <= begin,
            forall|j: int| 0 <= j < result@.len() - 1 ==> (#[trigger] result@[j]).end == result@[j + 1].begin,
            forall|j: int, k: int| 0 <= j < result@.len() && result@[j].begin <= k < result@[j].end ==> #[trigger] tiers@[k]
                == tiers@[(#[trigger] result@[j]).begin as int],
            forall|j: int| 0 <= j < result@.len() ==> tiers@[(#[trigger] result@[j]).end as int] != tiers@[result@[j].end - 1],
            forall|k: int| begin <= k < i ==> #[trigger] tiers@[k] == tiers@[begin as int],
        decreases n - i,
    {
        if tiers[i] != tiers[i - 1] {
            result.push(Part { begin, end: i });
            begin = i;
        }
        i = i + 1;
    }
    result.push(Part { begin, end: n });
    result
}

/// The tiers of the items, in order.
fn tiers_of(items: &Vec<Item>) -> (r: Vec<u8>)
    ensures
        r@.len() == items@.len(),
        forall|k: int| 0 <= k < items@.len() ==> #[trigger] r@[k] == tier_at(items@, k),
{
    let mut r: Vec<u8> = Vec::new();
    let mut i: usize = 0;
    while i < items.len()
        invariant
            i <= items@.len(),
            r@.len() == i,
            forall|k: int| 0 <= k < i ==> #[trigger] r@[k] == tier_at(items@, k),
        decreases items@.len() - i,
    {
        r.push(items[i].entry_type.priority());
        i = i + 1;
    }
    r
}

/// Cuts a listing into its maximal runs of entries of equal tier.
pub fn split_into_parts(items: &Vec<Item>) -> (r: Vec<Part>)
    ensures
        runs_of(items@.map_values(|it: Item| tier(it.entry_type)), r@),
{
    let tiers = tiers_of(items);
    assert(tiers@ =~= items@.map_values(|it: Item| tier(it.entry_type)));
    split_tiers(&tiers)
}

/// Distinct positions, in tier order.
pub open spec fn tier_listing(items: Seq<Item>, ord: Seq<usize>) -> bool {
    &&& forall|j: int| 0 <= j < ord.len() ==> (#[trigger] ord[j]) < items.len()
    &&& forall|a: int, b: int| 0 <= a < b < ord.len() ==> #[trigger] ord[a] != #[trigger] ord[b] && tier_at(
        items,
        ord[a] as int,
    ) <= tier_at(items, ord[b] as int)
}

/// The positions `ord[begin..end]` in name order.
fn sort_group(items: &Vec<Item>, ord: &Vec<usize>, begin: usize, end: usize) -> (r: Vec<usize>)
    requires
        tier_listing(items@, ord@),
        begin <= end <= ord@.len(),
    ensures
        forall|j: int| 0 <= j < r@.len() ==> (#[trigger] r@[j]) < items@.len(),
        sorted_by(items@, true, r@),
        forall|y: usize| r@.contains(y) <==> (exists|j: int| begin <= j < end && #[trigger] ord@[j] == y),
{
    let mut group: Vec<usize> = Vec::new();
    let mut k: usize = begin;
    while k < end
        invariant
            tier_listing(items@, ord@),
            begin <= k <= end <= ord@.len(),
            forall|j: int| 0 <= j < group@.len() ==> (#[trigger] group@[j]) < items@.len(),
            sorted_by(items@, true, group@),
            forall|y: usize| group@.contains(y) <==> (exists|j: int| begin <= j < k && #[trigger] ord@[j] == y),
        decreases end - k,
    {
        assert(!group@.contains(ord@[k as int])) by {
            if group@.contains(ord@[k as int]) {
                let j = choose|j: int| begin <= j < k && #[trigger] ord@[j] == ord@[k as int];
                assert(ord@[j] != ord@[k as int]);
            }
        }
        let x = ord[k];
        let ghost prev = group@;
        insert_sorted(&mut group, x, items, true);
        assert forall|y: usize| group@.contains(y) <==> (exists|j: int| begin <= j < k + 1 && #[trigger] ord@[j] == y) by {
            if y == x {
                assert(ord@[k as int] == y);
            }
            if exists|j: int| begin <= j < k + 1 && #[trigger] ord@[j] == y {
                let j = choose|j: int| begin <= j < k + 1 && #[trigger] ord@[j] == y;
                if j < k {
                    assert(prev.contains(y));
                }
            }
        }
        k = k + 1;
    }
    group
}

/// Appending the name-sorted run `begin..end` to a listing of the positions before it
/// keeps the listing sorted.
proof fn lemma_extend_listing(
    items: Seq<Item>,
    ord: Seq<usize>,
    tiers: Seq<u8>,
    old_out: Seq<usize>,
    grp: Seq<usize>,
    begin: int,
    end: int,
    last_run: bool,
)
    requires
        tier_listing(items, ord),
        tiers.len() == ord.len(),
        forall|j: int| 0 <= j < ord.len() ==> #[trigger] tiers[j] == tier_at(items, ord[j] as int),
        0 <= begin < end <= ord.len(),
        forall|k: int| begin <= k < end ==> #[trigger] tiers[k] == tiers[begin],
        last_run ==> end == ord.len(),
        !last_run ==> end < ord.len() && tiers[end] != tiers[end - 1],
        forall|j: int| 0 <= j < old_out.len() ==> (#[trigger] old_out[j]) < items.len(),
        display_sorted(items, old_out),
        forall|y: usize| old_out.contains(y) <==> (exists|j: int| 0 <= j < begin && #[trigger] ord[j] == y),
        forall|a: int, j: int| 0 <= a < old_out.len() && begin <= j < ord.len() ==> tier_at(items, #[trigger] old_out[a] as int)
            < tier_at(items, #[trigger] ord[j] as int),
        forall|j: int| 0 <= j < grp.len() ==> (#[trigger] grp[j]) < items.len(),
        sorted_by(items, true, grp),
        forall|y: usize| grp.contains(y) <==> (exists|j: int| begin <= j < end && #[trigger] ord[j] == y),
    ensures
        forall|j: int| 0 <= j < (old_out + grp).len() ==> (#[trigger] (old_out + grp)[j]) < items.len(),
        display_sorted(items, old_out + grp),
        forall|y: usize| (old_out + grp).contains(y) <==> (exists|j: int| 0 <= j < end && #[trigger] ord[j] == y),
        forall|a: int, j: int| 0 <= a < (old_out + grp).len() && end <= j < ord.len() ==> tier_at(items, #[trigger] (old_out + grp)[a] as int)
            < tier_at(items, #[trigger] ord[j] as int),
{
    let out = old_out + grp;
    let t = tiers[begin];
    assert forall|y: usize| grp.contains(y) implies tier_at(items, y as int) == t by {
        let j = choose|j: int| begin <= j < end && #[trigger] ord[j] == y;
        assert(tiers[j] == t);
    }
    assert forall|j: int| 0 <= j < out.len() implies (#[trigger] out[j]) < items.len() by {
        if j >= old_out.len() {
            assert(out[j] == grp[j - old_out.len()]);
        }
    }
    assert forall|a: int, b: int| 0 <= a < b < out.len() implies display_before(items, #[trigger] out[a] as int, #[trigger] out[b] as int) by {
        if b < old_out.len() {
            assert(out[a] == old_out[a] && out[b] == old_out[b]);
        } else if a >= old_out.len() {
            assert(out[a] == grp[a - old_out.len()] && out[b] == grp[b - old_out.len()]);
            assert(grp.contains(grp[a - old_out.len()]));
            assert(grp.contains(grp[b - old_out.len()]));
        } else {
            let y = grp[b - old_out.len()];
            assert(out[b] == y);
            assert(grp.contains(y));
            let j = choose|j: int| begin <= j < end && #[trigger] ord[j] == y;
            assert(out[a] == old_out[a]);
            assert(tier_at(items, old_out[a] as int) < tier_at(items, ord[j] as int));
        }
    }
    assert forall|a: int, j: int| 0 <= a < out.len() && end <= j < ord.len() implies tier_at(items, #[trigger] out[a] as int)
        < tier_at(items, #[trigger] ord[j] as int) by {
        if a < old_out.len() {
            assert(out[a] == old_out[a]);
            assert(tier_at(items, old_out[a] as int) < tier_at(items, ord[j] as int));
        } else {
            let y = grp[a - old_out.len()];
            assert(out[a] == y);
            assert(grp.contains(y));
            assert(tiers[end] != tiers[end - 1]);
            assert(tiers[end - 1] == t);
            assert(tier_at(items, ord[end - 1] as int) <= tier_at(items, ord[end] as int));
            if j > end {
                assert(tier_at(items, ord[end] as int) <= tier_at(items, ord[j] as int));
            }
        }
    }
    assert forall|y: usize| out.contains(y) <==> (exists|j: int| 0 <= j < end && #[trigger] ord[j] == y) by {
        if out.contains(y) {
            let a = choose|a: int| 0 <= a < out.len() && out[a] == y;
            if a < old_out.len() {
                assert(old_out[a] == y);
                assert(old_out.contains(y));
            } else {
                assert(grp[a - old_out.len()] == y);
                assert(grp.contains(y));
            }
        }
        if exists|j: int| 0 <= j < end && #[trigger] ord[j] == y {
            let j = choose|j: int| 0 <= j < end && #[trigger] ord[j] == y;
            if j < begin {
                assert(old_out.contains(y));
                let a = choose|a: int| 0 <= a < old_out.len() && old_out[a] == y;
                assert(out[a] == y);
            } else {
                assert(grp.contains(y));
                let a = choose|a: int| 0 <= a < grp.len() && grp[a] == y;
                assert(out[old_out.len() + a] == y);
            }
        }
    }
}

/// The positions of the listed entries in listing order: hidden entries (names that
/// start with '.') only when `show_hidden` is set; directories first, then files and
/// links, then entries of unknown kind; each tier by name, equal names in their given
/// order. The entries are first put in tier order, keeping their given order within a
/// tier, and then each maximal run of one tier is put in name order.
pub fn arrange(items: &Vec<Item>, show_hidden: bool) -> (r: Vec<usize>)
    ensures
        forall|k: int| 0 <= k < r@.len() ==> (#[trigger] r@[k]) < items@.len(),
        forall|y: usize| r@.contains(y) <==> shown(items@, show_hidden, y as int),
        display_sorted(items@, r@),
{
    let n = items.len();
    let mut order: Vec<usize> = Vec::new();
    let mut i: usize = 0;
    while i < n
        invariant
            n == items@.len(),
            i <= n,
            forall|k: int| 0 <= k < order@.len() ==> (#[trigger] order@[k]) < items@.len(),
            sorted_by(items@, false, order@),
            forall|y: usize| order@.contains(y) <==> (y < i && shown(items@, show_hidden, y as int)),
        decreases n - i,
    {
        let hidden = {
            let name = items[i].name.as_str();
            name.unicode_len() > 0 && name.get_char(0) == '.'
        };
        if show_hidden || !hidden {
            insert_sorted(&mut order, i, items, false);
        }
        i = i + 1;
    }
    let ghost ord = order@;
    assert forall|a: int, b: int| 0 <= a < b < ord.len() implies #[trigger] ord[a] != #[trigger] ord[b]
        && tier_at(items@, ord[a] as int) <= tier_at(items@, ord[b] as int) by {
        lemma_before_order(items@, false, ord[a] as int, ord[b] as int, ord[a] as int);
    }
    let mut tiers: Vec<u8> = Vec::new();
    let mut k: usize = 0;
    while k < order.len()
        invariant
            order@ == ord,
            tier_listing(items@, ord),
            k <= ord.len(),
            tiers@.len() == k,
            forall|j: int| 0 <= j < k ==> #[trigger] tiers@[j] == tier_at(items@, ord[j] as int),
        decreases ord.len() - k,
    {
        tiers.push(items[order[k]].entry_type.priority());
        k = k + 1;
    }
    let parts = split_tiers(&tiers);
    let mut out: Vec<usize> = Vec::new();
    let mut p: usize = 0;
    let mut cur: usize = 0;
    while p < parts.len()
        invariant
            order@ == ord,
            tier_listing(items@, ord),
            tiers@.len() == ord.len(),
            forall|j: int| 0 <= j < ord.len() ==> #[trigger] tiers@[j] == tier_at(items@, ord[j] as int),
            runs_of(tiers@, parts@),
            p <= parts@.len(),
            p < parts@.len() ==> cur == parts@[p as int].begin,
            p == parts@.len() ==> cur == ord.len(),
            cur <= ord.len(),
            forall|j: int| 0 <= j < out@.len() ==> (#[trigger] out@[j]) < items@.len(),
            display_sorted(items@, out@),
            forall|y: usize| out@.contains(y) <==> (exists|j: int| 0 <= j < cur && #[trigger] ord[j] == y),
            forall|a: int, j: int| 0 <= a < out@.len() && cur <= j < ord.len() ==> tier_at(items@, #[trigger] out@[a] as int)
                < tier_at(items@, #[trigger] ord[j] as int),
        decreases parts@.len() - p,
    {
        let part = parts[p];
        assert(part.begin < part.end);
        let last_run = p + 1 == parts.len();
        proof {
            if !last_run {
                assert(parts@[p as int].end == parts@[p + 1].begin);
                assert(parts@[p + 1].begin < parts@[p + 1].end);
            }
        }
        let mut group = sort_group(items, &order, part.begin, part.end);
        let ghost old_out = out@;
        let ghost grp = group@;
        proof {
            lemma_extend_listing(items@, ord, tiers@, old_out, grp, part.begin as int, part.end as int, last_run);
        }
        out.append(&mut group);
        assert(out@ =~= old_out + grp);
        p = p + 1;
        cur = part.end;
    }
    assert forall|y: usize| out@.contains(y) <==> shown(items@, show_hidden, y as int) by {
        if shown(items@, show_hidden, y as int) {
            assert(ord.contains(y));
            let j = choose|j: int| 0 <= j < ord.len() && ord[j] == y;
            assert(0 <= j < cur && ord[j] == y);
        }
        if out@.contains(y) {
            let j = choose|j: int| 0 <= j < cur && #[trigger] ord[j] == y;
            assert(ord.contains(y));
        }
    }
    out
}

} // verus!
