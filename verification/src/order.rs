//! Lexicographic order on strings (the order of `str`'s `Ord`, which compares
//! code points left to right) and strictly sorted string lists, the model of
//! the ordered sets and maps the tools report from.

use vstd::prelude::*;

verus! {

/// `a` sorts strictly before `b`: at the first differing position `a` has
/// the smaller code point, or `a` is a proper prefix of `b`.
pub open spec fn seq_lt(a: Seq<char>, b: Seq<char>) -> bool
    decreases a.len(),
{
    if a.len() == 0 {
        b.len() > 0
    } else if b.len() == 0 {
        false
    } else if a[0] != b[0] {
        (a[0] as int) < (b[0] as int)
    } else {
        seq_lt(a.drop_first(), b.drop_first())
    }
}

/// No string sorts before itself.
pub proof fn lemma_lt_irreflexive(a: Seq<char>)
    ensures
        !seq_lt(a, a),
    decreases a.len(),
{
    if a.len() > 0 {
        lemma_lt_irreflexive(a.drop_first());
    }
}

/// Two distinct strings are ordered one way or the other, never both.
pub proof fn lemma_lt_total(a: Seq<char>, b: Seq<char>)
    ensures
        a != b ==> (seq_lt(a, b) || seq_lt(b, a)),
        !(seq_lt(a, b) && seq_lt(b, a)),
        seq_lt(a, b) ==> a != b,
    decreases a.len(),
{
    if a.len() == 0 {
        if b.len() == 0 {
            assert(a =~= b);
        }
    } else if b.len() == 0 {
    } else if a[0] != b[0] {
        assert((a[0] as int) != (b[0] as int));
    } else {
        lemma_lt_total(a.drop_first(), b.drop_first());
        if a != b {
            assert(a.drop_first() != b.drop_first()) by {
                if a.drop_first() == b.drop_first() {
                    assert(a =~= b) by {
                        assert forall|i: int| 0 <= i < a.len() implies a[i] == b[i] by {
                            if i > 0 {
                                assert(a[i] == a.drop_first()[i - 1]);
                                assert(b[i] == b.drop_first()[i - 1]);
                            }
                        }
                    }
                }
            }
        }
        lemma_lt_irreflexive(a);
    }
}

/// The order is transitive.
pub proof fn lemma_lt_transitive(a: Seq<char>, b: Seq<char>, c: Seq<char>)
    requires
        seq_lt(a, b),
        seq_lt(b, c),
    ensures
        seq_lt(a, c),
    decreases a.len(),
{
    if a.len() > 0 && b.len() > 0 && c.len() > 0 && a[0] == b[0] && b[0] == c[0] {
        lemma_lt_transitive(a.drop_first(), b.drop_first(), c.drop_first());
    }
}

/// Decides `seq_lt` on two character slices.
pub fn chars_lt(a: &[char], b: &[char]) -> (r: bool)
    ensures
        r == seq_lt(a@, b@),
{
    let mut i: usize = 0;
    assert(a@.skip(0) =~= a@);
    assert(b@.skip(0) =~= b@);
    while i < a.len() && i < b.len()
        invariant
            i <= a.len(),
            i <= b.len(),
            forall|j: int| 0 <= j < i ==> a@[j] == b@[j],
            seq_lt(a@, b@) == seq_lt(a@.skip(i as int), b@.skip(i as int)),
        decreases a.len() - i,
    {
        proof {
            assert(a@.skip(i as int)[0] == a@[i as int]);
            assert(b@.skip(i as int)[0] == b@[i as int]);
            assert(a@.skip(i as int).drop_first() =~= a@.skip(i + 1));
            assert(b@.skip(i as int).drop_first() =~= b@.skip(i + 1));
        }
        if a[i] != b[i] {
            return a[i] < b[i];
        }
        i = i + 1;
    }
    proof {
        assert(a@.skip(i as int).len() == a.len() - i);
        assert(b@.skip(i as int).len() == b.len() - i);
    }
    i < b.len()
}

/// Decides `seq_lt` on two strings.
pub fn str_lt(a: &str, b: &str) -> (r: bool)
    ensures
        r == seq_lt(a@, b@),
{
    let x = crate::text::chars_of(a);
    let y = crate::text::chars_of(b);
    chars_lt(&x, &y)
}

/// The views of a list of strings.
pub open spec fn views(v: Seq<String>) -> Seq<Seq<char>> {
    v.map_values(|s: String| s@)
}

/// Every element sorts strictly before every later one (so the list is
/// sorted and free of duplicates).
pub open spec fn strictly_sorted(s: Seq<Seq<char>>) -> bool {
    forall|i: int, j: int| 0 <= i < j < s.len() ==> seq_lt(#[trigger] s[i], #[trigger] s[j])
}

/// Inserts `k` into a strictly sorted list at its place, unless present.
pub fn insert_sorted(v: &mut Vec<String>, k: String)
    requires
        strictly_sorted(views(old(v)@)),
    ensures
        strictly_sorted(views(final(v)@)),
        views(final(v)@).to_set() == views(old(v)@).to_set().insert(k@),
{
    let ghost before = views(v@);
    let mut p: usize = 0;
    let mut stop = false;
    while p < v.len() && !stop
        invariant
            p <= v.len(),
            v@ == old(v)@,
            before == views(v@),
            strictly_sorted(before),
            forall|j: int| 0 <= j < p ==> seq_lt(#[trigger] before[j], k@),
            stop ==> p < v.len() && seq_lt(k@, before[p as int]),
        decreases v.len() - p, (if stop { 0int } else { 1int }),
    {
        let ge = str_lt(k.as_str(), v[p].as_str());
        let same = crate::text::eq(
            &crate::text::chars_of(k.as_str()),
            &crate::text::chars_of(v[p].as_str()),
        );
        assert(before[p as int] == v@[p as int]@);
        if same {
            proof {
                assert(before.to_set().contains(k@)) by {
                    assert(before.contains(before[p as int]));
                }
                assert(views(v@).to_set() =~= before.to_set().insert(k@));
            }
            return;
        }
        if ge {
            stop = true;
        } else {
            proof {
                lemma_lt_total(k@, before[p as int]);
            }
            p = p + 1;
        }
    }
    let ghost at_p = p;
    v.insert(p, k);
    proof {
        let after = views(v@);
        assert(after =~= before.insert(at_p as int, k@));
        assert forall|i: int, j: int| 0 <= i < j < after.len() implies seq_lt(
            #[trigger] after[i],
            #[trigger] after[j],
        ) by {
            if j < at_p {
                assert(after[i] == before[i] && after[j] == before[j]);
            } else if j == at_p {
                assert(after[i] == before[i]);
            } else if i == at_p {
                assert(after[j] == before[j - 1]);
                if j - 1 > at_p {
                    lemma_lt_transitive(k@, before[at_p as int], before[j - 1]);
                }
            } else if i < at_p {
                assert(after[i] == before[i] && after[j] == before[j - 1]);
            } else {
                assert(after[i] == before[i - 1] && after[j] == before[j - 1]);
            }
        }
        assert(after.to_set() =~= before.to_set().insert(k@)) by {
            assert forall|x: Seq<char>| after.to_set().contains(x) implies before.to_set().insert(
                k@,
            ).contains(x) by {
                let i = choose|i: int| 0 <= i < after.len() && after[i] == x;
                if i < at_p {
                    assert(before[i] == x);
                } else if i > at_p {
                    assert(before[i - 1] == x);
                }
            }
            assert forall|x: Seq<char>| before.to_set().insert(k@).contains(x) implies after.to_set().contains(
                x,
            ) by {
                if x == k@ {
                    assert(after[at_p as int] == x);
                } else {
                    let i = choose|i: int| 0 <= i < before.len() && before[i] == x;
                    if i < at_p {
                        assert(after[i] == x);
                    } else {
                        assert(after[i + 1] == x);
                    }
                }
            }
        }
    }
}

// ---------------------------------------------------------------------------
// Stable sorting by name

/// Values that have a name to sort by.
pub trait Named {
    /// The name.
    spec fn name_of(self) -> Seq<char>;

    /// The name's characters.
    fn name_chars(&self) -> (r: Vec<char>)
        ensures
            r@ == self.name_of(),
    ;
}

/// Element `x` of `s` comes before element `y` when sorting by name and
/// keeping equal names in their order: its name sorts first, or the names
/// are equal and it stands earlier.
pub open spec fn key_lt<T: Named>(s: Seq<T>, x: int, y: int) -> bool {
    ||| seq_lt(s[x].name_of(), s[y].name_of())
    ||| (s[x].name_of() == s[y].name_of() && x < y)
}

/// Position `k` occurs in `q`.
pub open spec fn lists(q: Seq<int>, k: int) -> bool {
    exists|a: int| 0 <= a < q.len() && #[trigger] q[a] == k
}

/// `q` lists positions of `s` below `n`, each once, in key order.
pub open spec fn orders_prefix<T: Named>(s: Seq<T>, q: Seq<int>, n: int) -> bool {
    &&& q.len() == n
    &&& forall|a: int| 0 <= a < q.len() ==> 0 <= #[trigger] q[a] < n
    &&& forall|k: int| 0 <= k < n ==> #[trigger] lists(q, k)
    &&& forall|a: int, b: int| #![trigger q[a], q[b]] 0 <= a < b < q.len() ==> key_lt(s, q[a], q[b])
}

/// `q` is the order in which a stable sort by name puts the elements of
/// `s`: every position once, by name, equal names in their order.
pub open spec fn stable_order<T: Named>(s: Seq<T>, q: Seq<int>) -> bool {
    orders_prefix(s, q, s.len() as int)
}

/// `r` is `s` sorted by name, elements with equal names in their order.
pub open spec fn sorted_by_name<T: Named>(s: Seq<T>, r: Seq<T>) -> bool {
    exists|q: Seq<int>|
        #![trigger stable_order(s, q)]
        stable_order(s, q) && r.len() == s.len() && forall|t: int| 0 <= t < r.len() ==> r[t] == s[q[t]]
}

/// Inserting position `i` at `p` of an order of the first `i` positions,
/// where `p` follows every element whose name does not sort after element
/// `i`'s and precedes the first whose name does, orders the first `i + 1`.
pub(crate) proof fn lemma_insert_in_order<T: Named>(s: Seq<T>, q: Seq<int>, i: int, p: int)
    requires
        0 <= i < s.len(),
        orders_prefix(s, q, i),
        0 <= p <= q.len(),
        forall|a: int| 0 <= a < p ==> !seq_lt(s[i].name_of(), #[trigger] s[q[a]].name_of()),
        p < q.len() ==> seq_lt(s[i].name_of(), s[q[p]].name_of()),
    ensures
        orders_prefix(s, q.insert(p, i), i + 1),
{
    let q2 = q.insert(p, i);
    assert forall|a: int| 0 <= a < q2.len() implies 0 <= #[trigger] q2[a] < i + 1 by {
        if a < p {
            assert(q2[a] == q[a]);
        } else if a > p {
            assert(q2[a] == q[a - 1]);
        }
    }
    assert forall|k: int| 0 <= k < i + 1 implies #[trigger] lists(q2, k) by {
        if k == i {
            assert(q2[p] == i);
        } else {
            assert(lists(q, k));
            let a = choose|a: int| 0 <= a < q.len() && #[trigger] q[a] == k;
            if a < p {
                assert(q2[a] == k);
            } else {
                assert(q2[a + 1] == k);
            }
        }
    }
    assert forall|a: int, b: int| #![trigger q2[a], q2[b]] 0 <= a < b < q2.len() implies key_lt(s, q2[a], q2[b]) by {
        if a < p && b < p {
            assert(q2[a] == q[a] && q2[b] == q[b]);
        } else if a > p && b > p {
            assert(q2[a] == q[a - 1] && q2[b] == q[b - 1]);
        } else if a < p && b > p {
            assert(q2[a] == q[a] && q2[b] == q[b - 1]);
        } else if a < p && b == p {
            assert(q2[a] == q[a] && q2[b] == i);
            lemma_lt_total(s[i].name_of(), s[q[a]].name_of());
            assert(!seq_lt(s[i].name_of(), s[q[a]].name_of()));
        } else {
            assert(a == p && b > p);
            assert(q2[a] == i && q2[b] == q[b - 1]);
            let c = b - 1;
            assert(p < q.len());
            if c > p {
                assert(key_lt(s, q[p], q[c]));
                if seq_lt(s[q[p]].name_of(), s[q[c]].name_of()) {
                    lemma_lt_transitive(s[i].name_of(), s[q[p]].name_of(), s[q[c]].name_of());
                }
            }
        }
    }
}

/// Sorts by name, keeping elements with equal names in their order
/// (`sort_by` on the names).
pub fn sort_by_name<T: Named>(v: Vec<T>) -> (r: Vec<T>)
    ensures
        sorted_by_name(v@, r@),
{
    let ghost s = v@;
    let n = v.len();
    let mut rest = v;
    let mut out: Vec<T> = Vec::new();
    let ghost mut q: Seq<int> = Seq::empty();
    let mut i: usize = 0;
    while i < n
        invariant
            n == s.len(),
            i <= n,
            rest@ == s.skip(i as int),
            out@.len() == i,
            orders_prefix(s, q, i as int),
            forall|t: int| 0 <= t < i ==> out@[t] == s[q[t]],
        decreases n - i,
    {
        assert(rest@[0] == s[i as int]);
        let x = rest.remove(0);
        assert(rest@ =~= s.skip(i + 1));
        let xn = x.name_chars();
        let mut p: usize = 0;
        while p < out.len() && !chars_lt(&xn, &out[p].name_chars())
            invariant
                p <= out.len(),
                out@.len() == i,
                q.len() == i,
                xn@ == s[i as int].name_of(),
                forall|t: int| 0 <= t < i ==> out@[t] == s[q[t]],
                forall|a: int| 0 <= a < p ==> !seq_lt(s[i as int].name_of(), #[trigger] s[q[a]].name_of()),
            decreases out.len() - p,
        {
            p = p + 1;
        }
        proof {
            lemma_insert_in_order(s, q, i as int, p as int);
        }
        let ghost out_before = out@;
        out.insert(p, x);
        proof {
            let q2 = q.insert(p as int, i as int);
            assert forall|t: int| 0 <= t < i + 1 implies out@[t] == s[q2[t]] by {
                if t < p {
                    assert(out@[t] == out_before[t]);
                } else if t > p {
                    assert(out@[t] == out_before[t - 1]);
                }
            }
            q = q2;
        }
        i = i + 1;
    }
    assert(stable_order(s, q));
    out
}

/// An order of the first `n` positions stays one when more elements follow.
pub proof fn lemma_orders_prefix_push<T: Named>(s: Seq<T>, x: T, q: Seq<int>, n: int)
    requires
        orders_prefix(s, q, n),
        n <= s.len(),
    ensures
        orders_prefix(s.push(x), q, n),
{
    let s2 = s.push(x);
    assert forall|a: int, b: int| #![trigger q[a], q[b]] 0 <= a < b < q.len() implies key_lt(s2, q[a], q[b]) by {
        assert(key_lt(s, q[a], q[b]));
        assert(s2[q[a]] == s[q[a]] && s2[q[b]] == s[q[b]]);
    }
}

} // verus!
