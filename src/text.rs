//! Character-sequence helpers shared by the configuration and layout code.
use vstd::prelude::*;

verus! {

/// The character of one decimal digit.
pub open spec fn digit_char(d: nat) -> char {
    if d == 0 {
        '0'
    } else if d == 1 {
        '1'
    } else if d == 2 {
        '2'
    } else if d == 3 {
        '3'
    } else if d == 4 {
        '4'
    } else if d == 5 {
        '5'
    } else if d == 6 {
        '6'
    } else if d == 7 {
        '7'
    } else if d == 8 {
        '8'
    } else {
        '9'
    }
}

/// Decimal notation of a natural number, without leading zeros.
pub open spec fn decimal(n: nat) -> Seq<char>
    decreases n,
{
    if n < 10 {
        seq![digit_char(n)]
    } else {
        decimal(n / 10).push(digit_char(n % 10))
    }
}

fn digit_str(d: u64) -> (r: &'static str)
    requires
        d < 10,
    ensures
        r@ == seq![digit_char(d as nat)],
{
    if d == 0 {
        proof { reveal_strlit("0"); }
        "0"
    } else if d == 1 {
        proof { reveal_strlit("1"); }
        "1"
    } else if d == 2 {
        proof { reveal_strlit("2"); }
        "2"
    } else if d == 3 {
        proof { reveal_strlit("3"); }
        "3"
    } else if d == 4 {
        proof { reveal_strlit("4"); }
        "4"
    } else if d == 5 {
        proof { reveal_strlit("5"); }
        "5"
    } else if d == 6 {
        proof { reveal_strlit("6"); }
        "6"
    } else if d == 7 {
        proof { reveal_strlit("7"); }
        "7"
    } else if d == 8 {
        proof { reveal_strlit("8"); }
        "8"
    } else {
        proof { reveal_strlit("9"); }
        "9"
    }
}

/// Appends the decimal notation of `n` to `out`.
pub fn push_decimal(out: &mut String, n: u64)
    ensures
        final(out)@ == old(out)@ + decimal(n as nat),
    decreases n,
{
    if n < 10 {
        out.append(digit_str(n));
    } else {
        push_decimal(out, n / 10);
        out.append(digit_str(n % 10));
        assert(decimal(n as nat) == decimal((n / 10) as nat).push(digit_char((n % 10) as nat)));
        assert(final(out)@ =~= old(out)@ + decimal(n as nat));
    }
}

} // verus!

verus! {

pub open spec fn has_no_dot(s: Seq<char>) -> bool {
    forall|i: int| 0 <= i < s.len() ==> s[i] != '.'
}

/// The '.'-separated segments of `s`; there is always at least one.
pub open spec fn split_dots(s: Seq<char>) -> Seq<Seq<char>>
    decreases s.len(),
{
    if s.len() == 0 {
        seq![Seq::empty()]
    } else if s.last() == '.' {
        split_dots(s.drop_last()).push(Seq::empty())
    } else {
        let t = split_dots(s.drop_last());
        t.update(t.len() - 1, t.last().push(s.last()))
    }
}

/// The parts put one after another with `sep` between each two.
pub open spec fn joined(parts: Seq<Seq<char>>, sep: Seq<char>) -> Seq<char>
    decreases parts.len(),
{
    if parts.len() == 0 {
        Seq::empty()
    } else if parts.len() == 1 {
        parts[0]
    } else {
        joined(parts.drop_last(), sep) + sep + parts.last()
    }
}

pub proof fn lemma_split_nonempty(s: Seq<char>)
    ensures
        split_dots(s).len() >= 1,
    decreases s.len(),
{
    if s.len() > 0 {
        lemma_split_nonempty(s.drop_last());
    }
}

/// Text without a '.' is a single segment.
pub proof fn lemma_split_no_dot(s: Seq<char>)
    requires
        has_no_dot(s),
    ensures
        split_dots(s) == seq![s],
    decreases s.len(),
{
    if s.len() > 0 {
        assert(s.last() == s[s.len() - 1]);
        assert(has_no_dot(s.drop_last())) by {
            assert forall|i: int| 0 <= i < s.len() - 1 implies s.drop_last()[i] != '.' by {
                assert(s.drop_last()[i] == s[i]);
            }
        }
        lemma_split_no_dot(s.drop_last());
        assert(s.last() != '.');
        let t = split_dots(s.drop_last());
        assert(t.last() == s.drop_last());
        assert(s.drop_last().push(s.last()) =~= s);
        assert(t.update(t.len() - 1, t.last().push(s.last())) =~= seq![s]);
    } else {
        assert(s =~= Seq::empty());
    }
}

/// Splitting `p` + "." + `k` gives the segments of `p` and then `k`, when `k` holds no '.'.
pub proof fn lemma_split_child(p: Seq<char>, k: Seq<char>)
    requires
        has_no_dot(k),
    ensures
        split_dots(p + seq!['.'] + k) == split_dots(p).push(k),
    decreases k.len(),
{
    let s = p + seq!['.'] + k;
    if k.len() == 0 {
        assert(s.drop_last() =~= p);
        assert(s =~= p + seq!['.']);
        assert(k =~= Seq::empty());
    } else {
        assert(s.drop_last() =~= p + seq!['.'] + k.drop_last());
        assert(s.last() == k.last());
        assert(k.last() == k[k.len() - 1]);
        assert(has_no_dot(k.drop_last())) by {
            assert forall|i: int| 0 <= i < k.len() - 1 implies k.drop_last()[i] != '.' by {
                assert(k.drop_last()[i] == k[i]);
            }
        }
        lemma_split_child(p, k.drop_last());
        assert(k.drop_last().push(k.last()) =~= k);
        assert(s.last() != '.');
        let t = split_dots(p).push(k.drop_last());
        assert(split_dots(s.drop_last()) == t);
        assert(t.last() == k.drop_last());
        assert(t.update(t.len() - 1, t.last().push(k.last())) =~= split_dots(p).push(k));
    }
}

/// Adding one more part puts `sep` and the part at the end.
pub proof fn lemma_joined_push(parts: Seq<Seq<char>>, sep: Seq<char>, x: Seq<char>)
    requires
        parts.len() >= 1,
    ensures
        joined(parts.push(x), sep) == joined(parts, sep) + sep + x,
{
    assert(parts.push(x).drop_last() =~= parts);
}

/// Whether `a` and `b` hold the same characters.
pub fn text_eq(a: &str, b: &str) -> (r: bool)
    ensures
        r == (a@ == b@),
{
    let n = a.unicode_len();
    if n != b.unicode_len() {
        return false;
    }
    let mut i: usize = 0;
    while i < n
        invariant
            n == a@.len(),
            n == b@.len(),
            i <= n,
            forall|j: int| 0 <= j < i ==> a@[j] == b@[j],
        decreases n - i,
    {
        if a.get_char(i) != b.get_char(i) {
            return false;
        }
        i = i + 1;
    }
    assert(a@ =~= b@);
    true
}

} // verus!
