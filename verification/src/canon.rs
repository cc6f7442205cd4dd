//! Canonical form of a record's address list: duplicate network prefixes
//! are dropped (first occurrence wins) and the remaining pairs are sorted
//! ascending by prefix, so that two submissions of the same set are
//! observably equivalent to readers.

use vstd::prelude::*;
use vstd::relations::sorted_by;
use vstd::seq_lib::lemma_sorted_unique;

use crate::order::{lemma_pair_le_total_ordering, pair_le, str_eq};
use crate::state::pairs_view;

verus! {

/// The pair ordering as a single named relation, so that every use refers
/// to one value.
pub open spec fn pair_le_ord() -> spec_fn(
    (Seq<char>, Seq<char>),
    (Seq<char>, Seq<char>),
) -> bool {
    |p: (Seq<char>, Seq<char>), q: (Seq<char>, Seq<char>)| pair_le(p, q)
}

/// No two pairs claim the same network prefix.
pub open spec fn unique_prefixes(s: Seq<(Seq<char>, Seq<char>)>) -> bool {
    forall|i: int, j: int| 0 <= i < j < s.len() ==> s[i].0 != s[j].0
}

/// Drops every pair whose prefix is in `seen` or appeared earlier in `s`.
pub open spec fn dedup_rec(
    s: Seq<(Seq<char>, Seq<char>)>,
    seen: Set<Seq<char>>,
) -> Seq<(Seq<char>, Seq<char>)>
    decreases s.len(),
{
    if s.len() == 0 {
        Seq::empty()
    } else if seen.contains(s[0].0) {
        dedup_rec(s.drop_first(), seen)
    } else {
        seq![s[0]] + dedup_rec(s.drop_first(), seen.insert(s[0].0))
    }
}

/// Keeps the first pair of each prefix, in submission order.
pub open spec fn dedup_prefixes(s: Seq<(Seq<char>, Seq<char>)>) -> Seq<(Seq<char>, Seq<char>)> {
    dedup_rec(s, Set::empty())
}

/// The canonical form: deduplicated, then sorted ascending by prefix.
pub open spec fn canon(s: Seq<(Seq<char>, Seq<char>)>) -> Seq<(Seq<char>, Seq<char>)> {
    dedup_prefixes(s).sort_by(pair_le_ord())
}

pub proof fn lemma_dedup_rec_props(s: Seq<(Seq<char>, Seq<char>)>, seen: Set<Seq<char>>)
    ensures
        unique_prefixes(dedup_rec(s, seen)),
        forall|k: int|
            0 <= k < dedup_rec(s, seen).len() ==> s.contains(#[trigger] dedup_rec(s, seen)[k])
                && !seen.contains(dedup_rec(s, seen)[k].0),
    decreases s.len(),
{
    if s.len() == 0 {
    } else if seen.contains(s[0].0) {
        lemma_dedup_rec_props(s.drop_first(), seen);
        assert forall|k: int| 0 <= k < dedup_rec(s, seen).len() implies s.contains(
            #[trigger] dedup_rec(s, seen)[k],
        ) && !seen.contains(dedup_rec(s, seen)[k].0) by {
            let x = dedup_rec(s, seen)[k];
            assert(s.drop_first().contains(x));
            let i = choose|i: int| 0 <= i < s.drop_first().len() && s.drop_first()[i] == x;
            assert(s[i + 1] == x);
        }
    } else {
        let rest = dedup_rec(s.drop_first(), seen.insert(s[0].0));
        lemma_dedup_rec_props(s.drop_first(), seen.insert(s[0].0));
        let d = dedup_rec(s, seen);
        assert(d == seq![s[0]] + rest);
        assert(d[0] == s[0]);
        assert forall|k: int| 0 <= k < d.len() implies s.contains(#[trigger] d[k])
            && !seen.contains(d[k].0) by {
            if k == 0 {
                assert(s[0] == d[0]);
                assert(s.contains(s[0]));
            } else {
                let x = rest[k - 1];
                assert(d[k] == x);
                assert(s.drop_first().contains(x));
                let i = choose|i: int| 0 <= i < s.drop_first().len() && s.drop_first()[i] == x;
                assert(s[i + 1] == x);
                assert(!seen.insert(s[0].0).contains(x.0));
            }
        }
        assert forall|i: int, j: int| 0 <= i < j < d.len() implies d[i].0 != d[j].0 by {
            if i == 0 {
                assert(d[j] == rest[j - 1]);
                assert(!seen.insert(s[0].0).contains(rest[j - 1].0));
            } else {
                assert(d[i] == rest[i - 1]);
                assert(d[j] == rest[j - 1]);
            }
        }
    }
}

pub proof fn lemma_dedup_rec_noop(s: Seq<(Seq<char>, Seq<char>)>, seen: Set<Seq<char>>)
    requires
        unique_prefixes(s),
        forall|k: int| 0 <= k < s.len() ==> !seen.contains(#[trigger] s[k].0),
    ensures
        dedup_rec(s, seen) == s,
    decreases s.len(),
{
    if s.len() == 0 {
        assert(dedup_rec(s, seen) =~= s);
    } else {
        assert(!seen.contains(s[0].0));
        let seen1 = seen.insert(s[0].0);
        assert forall|k: int| 0 <= k < s.drop_first().len() implies !seen1.contains(
            #[trigger] s.drop_first()[k].0,
        ) by {
            assert(s.drop_first()[k] == s[k + 1]);
        }
        lemma_dedup_rec_noop(s.drop_first(), seen1);
        assert(dedup_rec(s, seen) =~= s);
    }
}

/// Deduplication leaves a list with unique prefixes unchanged.
pub proof fn lemma_dedup_noop(s: Seq<(Seq<char>, Seq<char>)>)
    requires
        unique_prefixes(s),
    ensures
        dedup_prefixes(s) == s,
{
    lemma_dedup_rec_noop(s, Set::empty());
}

/// Canonical ordering: two submissions holding the same pairs (in any
/// order), each without duplicate prefixes, canonicalize to the same list.
pub proof fn lemma_canonical_ordering(
    a1: Seq<(Seq<char>, Seq<char>)>,
    a2: Seq<(Seq<char>, Seq<char>)>,
)
    requires
        a1.to_multiset() == a2.to_multiset(),
        unique_prefixes(a1),
        unique_prefixes(a2),
    ensures
        canon(a1) == canon(a2),
{
    lemma_dedup_noop(a1);
    lemma_dedup_noop(a2);
    lemma_pair_le_total_ordering();
    a1.lemma_sort_by_ensures(pair_le_ord());
    a2.lemma_sort_by_ensures(pair_le_ord());
    lemma_sorted_unique(a1.sort_by(pair_le_ord()), a2.sort_by(pair_le_ord()), pair_le_ord());
}

/// Canonical lists are sorted: every stored record reads back ascending
/// by prefix, whatever the submission order was.
pub proof fn lemma_canon_sorted(s: Seq<(Seq<char>, Seq<char>)>)
    ensures
        sorted_by(canon(s), pair_le_ord()),
{
    lemma_pair_le_total_ordering();
    dedup_prefixes(s).lemma_sort_by_ensures(pair_le_ord());
}

/// Prefixes stay unique within a canonical list: whatever is submitted,
/// the stored record claims each network prefix at most once.
pub proof fn lemma_canon_unique_prefixes(s: Seq<(Seq<char>, Seq<char>)>)
    ensures
        unique_prefixes(canon(s)),
{
    broadcast use vstd::seq_lib::group_to_multiset_ensures;
    broadcast use vstd::multiset::group_multiset_axioms;

    let dd = dedup_prefixes(s);
    let c = canon(s);
    lemma_dedup_rec_props(s, Set::empty());
    lemma_pair_le_total_ordering();
    dd.lemma_sort_by_ensures(pair_le_ord());
    assert forall|i: int, j: int| 0 <= i < j < c.len() implies c[i].0 != c[j].0 by {
        if c[i].0 == c[j].0 {
            if c[i] == c[j] {
                // the same pair twice: its count is at least two, but a
                // deduplicated list holds each pair at most once
                let x = c[i];
                let c1 = c.remove(i);
                assert(c1[j - 1] == c[j]);
                assert(c1.contains(x));
                assert(c1.to_multiset().count(x) > 0);
                assert(dd.to_multiset().count(x) >= 2);
                assert(dd.to_multiset().count(x) > 0);
                assert(dd.contains(x));
                let k1 = choose|k: int| 0 <= k < dd.len() && dd[k] == x;
                let d1 = dd.remove(k1);
                assert(d1.to_multiset().count(x) > 0);
                assert(d1.contains(x));
                let k2 = choose|k: int| 0 <= k < d1.len() && d1[k] == x;
                if k2 < k1 {
                    assert(dd[k2] == x);
                    assert(dd[k2].0 != dd[k1].0);
                } else {
                    assert(dd[k2 + 1] == x);
                    assert(dd[k1].0 != dd[k2 + 1].0);
                }
            } else {
                // two distinct pairs with one prefix: both come from the
                // deduplicated list, which keeps prefixes unique
                assert(c.contains(c[i]));
                assert(c.contains(c[j]));
                assert(c.to_multiset().count(c[i]) > 0);
                assert(c.to_multiset().count(c[j]) > 0);
                assert(dd.contains(c[i]));
                assert(dd.contains(c[j]));
                let k1 = choose|k: int| 0 <= k < dd.len() && dd[k] == c[i];
                let k2 = choose|k: int| 0 <= k < dd.len() && dd[k] == c[j];
                assert(k1 != k2);
                if k1 < k2 {
                    assert(dd[k1].0 != dd[k2].0);
                } else {
                    assert(dd[k2].0 != dd[k1].0);
                }
            }
        }
    }
}

/// The set of network prefixes claimed in `s`.
pub open spec fn prefix_set(s: Seq<(Seq<char>, Seq<char>)>) -> Set<Seq<char>> {
    Set::new(|x: Seq<char>| exists|k: int| 0 <= k < s.len() && s[k].0 == x)
}

/// Whether some pair of `v` claims the prefix `prefix`.
fn contains_prefix(v: &Vec<(String, String)>, prefix: &String) -> (r: bool)
    ensures
        r == prefix_set(pairs_view(v@)).contains(prefix@),
{
    let n = v.len();
    let mut i: usize = 0;
    while i < n
        invariant
            i <= n,
            n == v@.len(),
            forall|k: int| 0 <= k < i ==> v@[k].0@ != prefix@,
        decreases n - i,
    {
        if str_eq(v[i].0.as_str(), prefix.as_str()) {
            proof {
                assert(pairs_view(v@)[i as int].0 == v@[i as int].0@);
            }
            return true;
        }
        i = i + 1;
    }
    proof {
        assert forall|k: int| 0 <= k < pairs_view(v@).len() implies pairs_view(v@)[k].0
            != prefix@ by {
            assert(pairs_view(v@)[k].0 == v@[k].0@);
        }
    }
    false
}

/// A copy of `p` with the same character sequences.
pub fn clone_pair(p: &(String, String)) -> (r: (String, String))
    ensures
        r == *p,
{
    let r = (p.0.clone(), p.1.clone());
    proof {
        assert(r =~= *p);
    }
    r
}

/// Keeps the first pair of each prefix, dropping later duplicates.
pub fn dedup_by_prefix(addresses: &Vec<(String, String)>) -> (r: Vec<(String, String)>)
    ensures
        pairs_view(r@) == dedup_prefixes(pairs_view(addresses@)),
{
    let ghost vv = pairs_view(addresses@);
    let mut out: Vec<(String, String)> = Vec::new();
    let n = addresses.len();
    let mut i: usize = 0;
    proof {
        assert(pairs_view(out@) =~= Seq::<(Seq<char>, Seq<char>)>::empty());
        assert(prefix_set(pairs_view(out@)) =~= Set::<Seq<char>>::empty());
        assert(vv.skip(0) =~= vv);
        assert(dedup_prefixes(vv) =~= pairs_view(out@) + dedup_rec(
            vv.skip(0),
            prefix_set(pairs_view(out@)),
        ));
    }
    while i < n
        invariant
            i <= n,
            n == addresses@.len(),
            vv == pairs_view(addresses@),
            dedup_prefixes(vv) == pairs_view(out@) + dedup_rec(
                vv.skip(i as int),
                prefix_set(pairs_view(out@)),
            ),
        decreases n - i,
    {
        let ghost tail = vv.skip(i as int);
        let ghost seen = prefix_set(pairs_view(out@));
        proof {
            assert(tail[0] == vv[i as int]);
            assert(vv[i as int] == (addresses@[i as int].0@, addresses@[i as int].1@));
            assert(tail.drop_first() =~= vv.skip(i as int + 1));
        }
        if contains_prefix(&out, &addresses[i].0) {
            proof {
                assert(seen.contains(tail[0].0));
                assert(dedup_rec(tail, seen) == dedup_rec(vv.skip(i as int + 1), seen));
            }
        } else {
            let p = clone_pair(&addresses[i]);
            let ghost pv = pairs_view(out@);
            out.push(p);
            proof {
                assert(pairs_view(out@) =~= pv + seq![tail[0]]);
                assert forall|x: Seq<char>| prefix_set(pairs_view(out@)).contains(x) implies seen
                    .insert(tail[0].0).contains(x) by {
                    let k = choose|k: int|
                        0 <= k < pairs_view(out@).len() && pairs_view(out@)[k].0 == x;
                    if k < pv.len() {
                        assert(pv[k].0 == x);
                    }
                }
                assert forall|x: Seq<char>| seen.insert(tail[0].0).contains(x) implies prefix_set(
                    pairs_view(out@),
                ).contains(x) by {
                    if x == tail[0].0 {
                        assert(pairs_view(out@)[pv.len() as int].0 == x);
                    } else {
                        let k = choose|k: int| 0 <= k < pv.len() && pv[k].0 == x;
                        assert(pairs_view(out@)[k].0 == x);
                    }
                }
                assert(prefix_set(pairs_view(out@)) =~= seen.insert(tail[0].0));
                assert(dedup_rec(tail, seen) == seq![tail[0]] + dedup_rec(
                    vv.skip(i as int + 1),
                    seen.insert(tail[0].0),
                ));
                assert(pv + (seq![tail[0]] + dedup_rec(
                    vv.skip(i as int + 1),
                    seen.insert(tail[0].0),
                )) =~= pairs_view(out@) + dedup_rec(
                    vv.skip(i as int + 1),
                    prefix_set(pairs_view(out@)),
                ));
            }
        }
        i = i + 1;
    }
    proof {
        assert(vv.skip(n as int) =~= Seq::<(Seq<char>, Seq<char>)>::empty());
        assert(pairs_view(out@) + dedup_rec(vv.skip(n as int), prefix_set(pairs_view(out@)))
            =~= pairs_view(out@));
    }
    out
}

/// Whether `p` precedes (or equals) `q` in the canonical order.
fn pair_le_exec(p: &(String, String), q: &(String, String)) -> (r: bool)
    ensures
        r == pair_le((p.0@, p.1@), (q.0@, q.1@)),
{
    if str_eq(p.0.as_str(), q.0.as_str()) {
        crate::order::str_le(p.1.as_str(), q.1.as_str())
    } else {
        crate::order::str_le(p.0.as_str(), q.0.as_str())
    }
}

/// Inserting an element between its lower and upper neighbours keeps a
/// sequence sorted.
proof fn lemma_sorted_insert(
    s: Seq<(Seq<char>, Seq<char>)>,
    j: int,
    x: (Seq<char>, Seq<char>),
)
    requires
        sorted_by(s, pair_le_ord()),
        0 <= j <= s.len(),
        forall|k: int| 0 <= k < j ==> pair_le(#[trigger] s[k], x),
        forall|k: int| j <= k < s.len() ==> pair_le(x, #[trigger] s[k]),
    ensures
        sorted_by(s.insert(j, x), pair_le_ord()),
{
    let t = s.insert(j, x);
    let leq = pair_le_ord();
    assert forall|a: int, b: int| 0 <= a < b < t.len() implies #[trigger] leq(t[a], t[b]) by {
        if a < j && b < j {
            assert(leq(s[a], s[b]));
        } else if a < j && b == j {
            assert(pair_le(s[a], x));
        } else if a < j && b > j {
            assert(leq(s[a], s[b - 1]));
        } else if a == j && b > j {
            assert(pair_le(x, s[b - 1]));
        } else if a > j && b > j {
            assert(leq(s[a - 1], s[b - 1]));
        }
    }
}

/// Sorts the pairs ascending by prefix (ties by address).
fn sort_pairs(input: &Vec<(String, String)>) -> (r: Vec<(String, String)>)
    ensures
        pairs_view(r@).to_multiset() == pairs_view(input@).to_multiset(),
        sorted_by(pairs_view(r@), pair_le_ord()),
{
    broadcast use vstd::seq_lib::group_to_multiset_ensures;

    let mut out: Vec<(String, String)> = Vec::new();
    let n = input.len();
    let mut i: usize = 0;
    proof {
        assert(pairs_view(out@) =~= Seq::<(Seq<char>, Seq<char>)>::empty());
        assert(pairs_view(input@.take(0)) =~= Seq::<(Seq<char>, Seq<char>)>::empty());
        assert(pairs_view(out@).to_multiset() =~= pairs_view(input@.take(0)).to_multiset());
    }
    while i < n
        invariant
            i <= n,
            n == input@.len(),
            sorted_by(pairs_view(out@), pair_le_ord()),
            pairs_view(out@).to_multiset() == pairs_view(input@.take(i as int)).to_multiset(),
        decreases n - i,
    {
        broadcast use vstd::seq_lib::group_to_multiset_ensures;

        let p = clone_pair(&input[i]);
        let ghost px = (p.0@, p.1@);
        let m = out.len();
        let mut j: usize = 0;
        while j < m && pair_le_exec(&out[j], &p)
            invariant
                j <= m,
                m == out@.len(),
                n == input@.len(),
                i < n,
                p == input@[i as int],
                px == (p.0@, p.1@),
                sorted_by(pairs_view(out@), pair_le_ord()),
                forall|k: int| 0 <= k < j ==> pair_le(#[trigger] pairs_view(out@)[k], px),
            decreases m - j,
        {
            proof {
                assert(pairs_view(out@)[j as int] == (out@[j as int].0@, out@[j as int].1@));
            }
            j = j + 1;
        }
        let ghost opv = pairs_view(out@);
        proof {
            crate::order::lemma_pair_le_total_ordering();
            if j < m {
                assert(opv[j as int] == (out@[j as int].0@, out@[j as int].1@));
                assert(!pair_le(opv[j as int], px));
                assert(pair_le_ord()(opv[j as int], px) || pair_le_ord()(px, opv[j as int]));
                assert(pair_le(px, opv[j as int]));
            }
            assert forall|k: int| j <= k < opv.len() implies pair_le(px, #[trigger] opv[k]) by {
                if k > j {
                    assert(pair_le_ord()(opv[j as int], opv[k]));
                    assert(pair_le_ord()(px, opv[j as int]) && pair_le_ord()(opv[j as int], opv[k])
                        ==> pair_le_ord()(px, opv[k]));
                }
            }
            lemma_sorted_insert(opv, j as int, px);
        }
        out.insert(j, p);
        proof {
            assert(pairs_view(out@) =~= opv.insert(j as int, px));
            assert(pairs_view(out@).to_multiset() == opv.to_multiset().insert(px));
            assert(input@.take(i as int + 1) =~= input@.take(i as int).push(input@[i as int]));
            assert(pairs_view(input@.take(i as int + 1)) =~= pairs_view(input@.take(i as int)).push(
                px,
            ));
            assert(pairs_view(input@.take(i as int + 1)).to_multiset() == pairs_view(
                input@.take(i as int),
            ).to_multiset().insert(px));
        }
        i = i + 1;
    }
    proof {
        assert(input@.take(n as int) =~= input@);
    }
    out
}

/// The canonical form of a submitted address list: duplicate prefixes
/// dropped (first occurrence wins), then sorted ascending by prefix.
pub fn canonicalize(addresses: &Vec<(String, String)>) -> (r: Vec<(String, String)>)
    ensures
        pairs_view(r@) == canon(pairs_view(addresses@)),
{
    let deduped = dedup_by_prefix(addresses);
    let r = sort_pairs(&deduped);
    proof {
        let dd = dedup_prefixes(pairs_view(addresses@));
        lemma_pair_le_total_ordering();
        dd.lemma_sort_by_ensures(pair_le_ord());
        lemma_sorted_unique(pairs_view(r@), dd.sort_by(pair_le_ord()), pair_le_ord());
    }
    r
}

} // verus!
