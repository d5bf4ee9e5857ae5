//! Ordering text: the lexicographic order of strings (by code point, which
//! is the byte order of their UTF-8 encoding) and a stable sort of stations
//! by their ASCII-lowercased names.

use vstd::prelude::*;
use crate::station::{Station, StationView, stations_view};
use crate::text::{lower_seq, chars_of, lower_chars};

verus! {

/// `a` comes before `b`: at the first place they differ `a` has the smaller
/// character, or `a` is a proper prefix of `b`.
pub open spec fn chars_lt(a: Seq<char>, b: Seq<char>) -> bool
    decreases a.len(),
{
    if a.len() == 0 {
        b.len() > 0
    } else if b.len() == 0 {
        false
    } else if a[0] != b[0] {
        (a[0] as u32) < (b[0] as u32)
    } else {
        chars_lt(a.drop_first(), b.drop_first())
    }
}

/// Does `a` come before `b`?
pub fn chars_less(a: &[char], b: &[char]) -> (r: bool)
    ensures
        r == chars_lt(a@, b@),
{
    let mut i: usize = 0;
    assert(a@.skip(0) =~= a@);
    assert(b@.skip(0) =~= b@);
    while i < a.len() && i < b.len()
        invariant
            i <= a@.len(),
            i <= b@.len(),
            chars_lt(a@, b@) == chars_lt(a@.skip(i as int), b@.skip(i as int)),
        decreases a@.len() - i,
    {
        if a[i] != b[i] {
            let x: u32 = a[i] as u32;
            let y: u32 = b[i] as u32;
            assert(a@.skip(i as int)[0] == a@[i as int]);
            assert(b@.skip(i as int)[0] == b@[i as int]);
            return x < y;
        }
        assert(a@.skip(i as int).drop_first() =~= a@.skip(i + 1));
        assert(b@.skip(i as int).drop_first() =~= b@.skip(i + 1));
        i = i + 1;
    }
    a.len() < b.len()
}

/// The key stations are sorted by: the name, ASCII-lowercased.
pub open spec fn name_key(s: StationView) -> Seq<char> {
    lower_seq(s.name)
}

/// Where `x` is inserted into `t`: before the first station whose key comes
/// after the key of `x`.
pub open spec fn insert_pos(t: Seq<StationView>, x: StationView) -> nat
    decreases t.len(),
{
    if t.len() == 0 {
        0
    } else if chars_lt(name_key(x), name_key(t[0])) {
        0
    } else {
        1 + insert_pos(t.drop_first(), x)
    }
}

/// The stations sorted by key; stations with the same key keep their order.
pub open spec fn sort_by_name(s: Seq<StationView>) -> Seq<StationView>
    decreases s.len(),
{
    if s.len() == 0 {
        s
    } else {
        let t = sort_by_name(s.drop_last());
        t.insert(insert_pos(t, s.last()) as int, s.last())
    }
}

proof fn lemma_insert_pos_bound(t: Seq<StationView>, x: StationView)
    ensures
        insert_pos(t, x) <= t.len(),
    decreases t.len(),
{
    if t.len() > 0 {
        lemma_insert_pos_bound(t.drop_first(), x);
    }
}

pub proof fn lemma_sort_len(s: Seq<StationView>)
    ensures
        sort_by_name(s).len() == s.len(),
    decreases s.len(),
{
    if s.len() > 0 {
        lemma_sort_len(s.drop_last());
        lemma_insert_pos_bound(sort_by_name(s.drop_last()), s.last());
    }
}

fn key_of(s: &Station) -> (k: Vec<char>)
    ensures
        k@ == name_key(s@),
{
    lower_chars(&chars_of(s.name.as_str()))
}

/// Sorts stations by ASCII-lowercased name, keeping the order of stations
/// with the same key.
pub fn sort_stations_by_name(stations: Vec<Station>) -> (out: Vec<Station>)
    ensures
        stations_view(out@) == sort_by_name(stations_view(stations@)),
{
    let ghost sv = stations_view(stations@);
    let n: usize = stations.len();
    let mut out: Vec<Station> = Vec::new();
    let mut keys: Vec<Vec<char>> = Vec::new();
    let mut rest = stations;
    let mut taken: Vec<Station> = Vec::new();
    // reverse, so that popping gives the stations in order
    while rest.len() > 0
        invariant
            taken@.len() + rest@.len() == sv.len(),
            forall|j: int| 0 <= j < rest@.len() ==> #[trigger] rest@[j]@ == sv[j],
            forall|j: int| 0 <= j < taken@.len() ==> #[trigger] taken@[j]@ == sv[sv.len() - 1 - j],
        decreases rest@.len(),
    {
        let x = rest.pop().unwrap();
        taken.push(x);
    }
    let mut i: usize = 0;
    assert(stations_view(out@) =~= sort_by_name(sv.take(0)));
    while taken.len() > 0
        invariant
            n == sv.len(),
            i + taken@.len() == sv.len(),
            forall|j: int| 0 <= j < taken@.len() ==> #[trigger] taken@[j]@ == sv[sv.len() - 1 - j],
            stations_view(out@) == sort_by_name(sv.take(i as int)),
            keys@.len() == out@.len(),
            forall|j: int| 0 <= j < out@.len() ==> #[trigger] keys@[j]@ == name_key(out@[j]@),
        decreases taken@.len(),
    {
        let x = taken.pop().unwrap();
        assert(x@ == sv[i as int]);
        let kx = key_of(&x);
        let ghost t = stations_view(out@);
        let mut p: usize = 0;
        assert(t.skip(0) =~= t);
        while p < out.len() && !chars_less(kx.as_slice(), keys[p].as_slice())
            invariant
                p <= out@.len(),
                t == stations_view(out@),
                keys@.len() == out@.len(),
                forall|j: int| 0 <= j < out@.len() ==> #[trigger] keys@[j]@ == name_key(out@[j]@),
                kx@ == name_key(x@),
                insert_pos(t, x@) == p + insert_pos(t.skip(p as int), x@),
            decreases out@.len() - p,
        {
            assert(t.skip(p as int)[0] == t[p as int]);
            assert(t.skip(p as int).drop_first() =~= t.skip(p + 1));
            p = p + 1;
        }
        proof {
            if p < out@.len() {
                assert(t.skip(p as int)[0] == t[p as int]);
            } else {
                assert(t.skip(p as int).len() == 0);
            }
            let nx = sv.take(i + 1);
            assert(nx.drop_last() =~= sv.take(i as int));
            assert(nx.last() == sv[i as int]);
        }
        let ghost before = out@;
        out.insert(p, x);
        keys.insert(p, kx);
        assert(stations_view(out@) =~= t.insert(p as int, sv[i as int]));
        assert forall|j: int| 0 <= j < out@.len() implies #[trigger] keys@[j]@ == name_key(out@[j]@) by {
            if j < p {
                assert(out@[j] == before[j]);
            } else if j > p {
                assert(out@[j] == before[j - 1]);
            }
        }
        i = i + 1;
    }
    assert(sv.take(sv.len() as int) =~= sv);
    out
}


// ---------------------------------------------------------------------------
// Laws
// ---------------------------------------------------------------------------

/// No text comes before itself.
pub proof fn lemma_chars_lt_irreflexive(a: Seq<char>)
    ensures
        !chars_lt(a, a),
    decreases a.len(),
{
    if a.len() > 0 {
        lemma_chars_lt_irreflexive(a.drop_first());
    }
}

/// If `a` comes before `b`, `b` does not come before `a`.
pub proof fn lemma_chars_lt_asymmetric(a: Seq<char>, b: Seq<char>)
    requires
        chars_lt(a, b),
    ensures
        !chars_lt(b, a),
    decreases a.len(),
{
    if a.len() > 0 && b.len() > 0 && a[0] == b[0] {
        lemma_chars_lt_asymmetric(a.drop_first(), b.drop_first());
    }
}

/// The order of texts is transitive.
pub proof fn lemma_chars_lt_transitive(a: Seq<char>, b: Seq<char>, c: Seq<char>)
    requires
        chars_lt(a, b),
        chars_lt(b, c),
    ensures
        chars_lt(a, c),
    decreases a.len(),
{
    if a.len() > 0 && b.len() > 0 && c.len() > 0 && a[0] == b[0] && b[0] == c[0] {
        lemma_chars_lt_transitive(a.drop_first(), b.drop_first(), c.drop_first());
    }
}

/// No station comes after a later one.
pub open spec fn sorted_by_name(s: Seq<StationView>) -> bool {
    forall|i: int, j: int| 0 <= i < j < s.len() ==> !chars_lt(name_key(s[j]), name_key(s[i]))
}

proof fn lemma_insert_pos_facts(t: Seq<StationView>, x: StationView)
    ensures
        insert_pos(t, x) <= t.len(),
        forall|i: int| 0 <= i < insert_pos(t, x) ==> !chars_lt(name_key(x), name_key(#[trigger] t[i])),
        insert_pos(t, x) < t.len() ==> chars_lt(name_key(x), name_key(t[insert_pos(t, x) as int])),
    decreases t.len(),
{
    if t.len() > 0 && !chars_lt(name_key(x), name_key(t[0])) {
        let d = t.drop_first();
        lemma_insert_pos_facts(d, x);
        assert forall|i: int| 0 <= i < insert_pos(t, x) implies !chars_lt(name_key(x), name_key(#[trigger] t[i])) by {
            if i > 0 {
                assert(t[i] == d[i - 1]);
            }
        }
        if insert_pos(t, x) < t.len() {
            assert(t[insert_pos(t, x) as int] == d[insert_pos(d, x) as int]);
        }
    }
}

proof fn lemma_insert_keeps_sorted(t: Seq<StationView>, x: StationView)
    requires
        sorted_by_name(t),
    ensures
        sorted_by_name(t.insert(insert_pos(t, x) as int, x)),
{
    lemma_insert_pos_facts(t, x);
    let p = insert_pos(t, x) as int;
    let r = t.insert(p, x);
    assert forall|i: int, j: int| 0 <= i < j < r.len() implies !chars_lt(name_key(r[j]), name_key(r[i])) by {
        if j < p {
            assert(r[i] == t[i] && r[j] == t[j]);
        } else if j == p {
            assert(r[i] == t[i]);
        } else if i == p {
            assert(r[j] == t[j - 1]);
            if chars_lt(name_key(t[j - 1]), name_key(x)) {
                if j - 1 == p {
                    lemma_chars_lt_asymmetric(name_key(x), name_key(t[p]));
                } else {
                    lemma_chars_lt_transitive(name_key(t[j - 1]), name_key(x), name_key(t[p]));
                }
            }
        } else if i < p {
            assert(r[i] == t[i] && r[j] == t[j - 1]);
        } else {
            assert(r[i] == t[i - 1] && r[j] == t[j - 1]);
        }
    }
}

/// Sorting by name gives the same stations, none after a later one.
pub proof fn lemma_sort_by_name_sorted(s: Seq<StationView>)
    ensures
        sorted_by_name(sort_by_name(s)),
        sort_by_name(s).to_multiset() == s.to_multiset(),
    decreases s.len(),
{
    broadcast use vstd::seq_lib::group_to_multiset_ensures;

    if s.len() > 0 {
        let d = s.drop_last();
        lemma_sort_by_name_sorted(d);
        let t = sort_by_name(d);
        lemma_insert_keeps_sorted(t, s.last());
        lemma_insert_pos_bound(t, s.last());
        vstd::seq_lib::to_multiset_insert(t, insert_pos(t, s.last()) as int, s.last());
        assert(d.push(s.last()) =~= s);
    }
}

} // verus!
