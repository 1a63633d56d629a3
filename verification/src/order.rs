//! Putting things in order.

use crate::text;
use vstd::prelude::*;

verus! {

/// Position `a` comes before position `b` in the stable ascending order of `keys`.
pub open spec fn before(keys: Seq<i128>, a: int, b: int) -> bool {
    keys[a] < keys[b] || (keys[a] == keys[b] && a < b)
}

/// `order` lists every position of `keys` once, in stable ascending order.
pub open spec fn is_ascending(keys: Seq<i128>, order: Seq<usize>) -> bool {
    &&& order.len() == keys.len()
    &&& forall|i: int| 0 <= i < order.len() ==> #[trigger] order[i] < keys.len()
    &&& forall|i: int, j: int|
        #![trigger order[i], order[j]]
        0 <= i < j < order.len() ==> before(keys, order[i] as int, order[j] as int)
    &&& forall|k: usize| k < keys.len() ==> #[trigger] order.contains(k)
}

/// The positions of `keys` in stable ascending order.
pub fn ascending(keys: &Vec<i128>) -> (r: Vec<usize>)
    ensures
        is_ascending(keys@, r@),
{
    let mut r: Vec<usize> = Vec::new();
    for n in 0..keys.len()
        invariant
            r@.len() == n,
            forall|i: int| 0 <= i < r@.len() ==> #[trigger] r@[i] < n,
            forall|i: int, j: int|
                #![trigger r@[i], r@[j]]
                0 <= i < j < r@.len() ==> before(keys@, r@[i] as int, r@[j] as int),
            forall|k: usize| k < n ==> #[trigger] r@.contains(k),
    {
        let mut p: usize = r.len();
        while p > 0 && keys[r[p - 1]] > keys[n]
            invariant
                p <= r@.len(),
                n < keys@.len(),
                forall|i: int| 0 <= i < r@.len() ==> #[trigger] r@[i] < n,
                forall|i: int| p <= i < r@.len() ==> keys@[#[trigger] r@[i] as int] > keys@[n as int],
            decreases p,
        {
            p = p - 1;
        }
        let ghost old_r = r@;
        assert forall|i: int| 0 <= i < p implies keys@[#[trigger] old_r[i] as int] <= keys@[n as int] by {
            if i < p - 1 {
                assert(before(keys@, old_r[i] as int, old_r[p - 1] as int));
            }
        }
        r.insert(p, n);
        assert forall|i: int, j: int|
            #![trigger r@[i], r@[j]]
            0 <= i < j < r@.len() implies before(keys@, r@[i] as int, r@[j] as int) by {
            let a = if i < p {
                i
            } else {
                i - 1
            };
            let b = if j < p {
                j
            } else {
                j - 1
            };
            if i != p && j != p {
                assert(r@[i] == old_r[a] && r@[j] == old_r[b]);
            } else if i == p {
                assert(r@[j] == old_r[b]);
            } else {
                assert(r@[i] == old_r[a]);
            }
        }
        assert forall|k: usize| k < n + 1 implies #[trigger] r@.contains(k) by {
            if k < n {
                assert(old_r.contains(k));
                let i = choose|i: int| 0 <= i < old_r.len() && old_r[i] == k;
                if i < p {
                    assert(r@[i] == k);
                } else {
                    assert(r@[i + 1] == k);
                }
            } else {
                assert(r@[p as int] == k);
            }
        }
    }
    r
}

/// Distinct texts in ascending order.
pub open spec fn strictly_sorted(v: Seq<Seq<char>>) -> bool {
    forall|i: int, j: int| #![trigger v[i], v[j]] 0 <= i < j < v.len() ==> text::text_lt(v[i], v[j])
}

/// Puts a text into a list of distinct texts in ascending order, unless it is there.
pub fn insert_text(v: &mut Vec<String>, s: &str)
    requires
        strictly_sorted(text::texts(old(v)@)),
    ensures
        strictly_sorted(text::texts(final(v)@)),
        text::texts(final(v)@).to_set() == text::texts(old(v)@).to_set().insert(s@),
{
    let ghost was = text::texts(v@);
    let key = text::chars(s);
    let mut p: usize = v.len();
    while p > 0
        invariant
            v@ == old(v)@,
            was == text::texts(v@),
            strictly_sorted(was),
            key@ == s@,
            p <= v@.len(),
            forall|i: int| p <= i < was.len() ==> text::text_lt(s@, #[trigger] was[i]),
        ensures
            p == 0 || text::text_lt(was[p - 1], s@),
        decreases p,
    {
        let there = text::chars(v[p - 1].as_str());
        assert(there@ == was[p - 1]);
        if text::same(&there, &key) {
            proof {
                assert(was.contains(s@));
                assert(was.to_set().insert(s@) =~= was.to_set());
            }
            return;
        }
        if text::comes_before(&there, &key) {
            break;
        }
        proof {
            text::lemma_text_lt_total(was[p - 1], s@);
        }
        p = p - 1;
    }
    let word = text::string(&key);
    v.insert(p, word);
    proof {
        let now = text::texts(v@);
        assert(now =~= was.insert(p as int, s@));
        assert forall|i: int| 0 <= i < p implies text::text_lt(#[trigger] was[i], s@) by {
            if i < p - 1 {
                text::lemma_text_lt_transitive(was[i], was[p - 1], s@);
            }
        }
        assert forall|i: int, j: int|
            #![trigger now[i], now[j]]
            0 <= i < j < now.len() implies text::text_lt(now[i], now[j]) by {
            let a = if i < p {
                i
            } else {
                i - 1
            };
            let b = if j < p {
                j
            } else {
                j - 1
            };
            if i != p && j != p {
                assert(now[i] == was[a] && now[j] == was[b]);
            } else if i == p {
                assert(now[j] == was[b]);
            } else {
                assert(now[i] == was[a]);
            }
        }
        assert forall|x: Seq<char>| now.to_set().contains(x) == was.to_set().insert(s@).contains(x) by {
            if now.contains(x) {
                let i = choose|i: int| 0 <= i < now.len() && now[i] == x;
                if i < p {
                    assert(was[i] == x);
                } else if i > p {
                    assert(was[i - 1] == x);
                }
            }
            if was.contains(x) {
                let i = choose|i: int| 0 <= i < was.len() && was[i] == x;
                if i < p {
                    assert(now[i] == x);
                } else {
                    assert(now[i + 1] == x);
                }
            }
            if x == s@ {
                assert(now[p as int] == x);
            }
        }
        assert(now.to_set() =~= was.to_set().insert(s@));
    }
}

/// What passes a filter among the first `i + 1` items.
pub proof fn lemma_filter_step<A>(s: Seq<A>, p: spec_fn(A) -> bool, i: int)
    requires
        0 <= i < s.len(),
    ensures
        s.take(i + 1).filter(p) == if p(s[i]) {
            s.take(i).filter(p).push(s[i])
        } else {
            s.take(i).filter(p)
        },
{
    reveal(Seq::filter);
    assert(s.take(i + 1).drop_last() =~= s.take(i));
}

} // verus!
