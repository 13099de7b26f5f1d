//! Ordering of entries by name: a stable insertion sort over indices.

use vstd::prelude::*;

verus! {

/// Lexicographic order of names by character code.
pub open spec fn name_lt(a: Seq<char>, b: Seq<char>) -> bool
    decreases a.len(),
{
    if a.len() == 0 {
        b.len() > 0
    } else if b.len() == 0 {
        false
    } else if a[0] != b[0] {
        a[0] < b[0]
    } else {
        name_lt(a.drop_first(), b.drop_first())
    }
}

/// Inserts index `k` into `sorted` after every name not greater than its own.
pub open spec fn insert_index(names: Seq<Seq<char>>, sorted: Seq<int>, k: int) -> Seq<int>
    decreases sorted.len(),
{
    if sorted.len() == 0 {
        seq![k]
    } else if name_lt(names[k], names[sorted[0]]) {
        seq![k] + sorted
    } else {
        seq![sorted[0]] + insert_index(names, sorted.drop_first(), k)
    }
}

/// The indices `0..n` ordered by name, equal names keeping their order.
pub open spec fn sort_indices(names: Seq<Seq<char>>, n: nat) -> Seq<int>
    decreases n,
{
    if n == 0 {
        Seq::empty()
    } else {
        insert_index(names, sort_indices(names, (n - 1) as nat), n - 1)
    }
}

pub open spec fn as_ints(s: Seq<usize>) -> Seq<int> {
    s.map_values(|i: usize| i as int)
}

/// Whether name `a` sorts strictly before name `b`.
pub fn names_lt(a: &str, b: &str) -> (r: bool)
    ensures
        r == name_lt(a@, b@),
{
    let na = a.unicode_len();
    let nb = b.unicode_len();
    let mut i: usize = 0;
    assert(a@.subrange(0, na as int) =~= a@);
    assert(b@.subrange(0, nb as int) =~= b@);
    while i < na && i < nb
        invariant
            na == a@.len(),
            nb == b@.len(),
            i <= na,
            i <= nb,
            name_lt(a@, b@) == name_lt(a@.subrange(i as int, na as int), b@.subrange(i as int, nb as int)),
        decreases na - i,
    {
        let ca = a.get_char(i);
        let cb = b.get_char(i);
        let ghost sa = a@.subrange(i as int, na as int);
        let ghost sb = b@.subrange(i as int, nb as int);
        assert(sa[0] == ca && sb[0] == cb);
        if ca != cb {
            return ca < cb;
        }
        assert(sa.drop_first() =~= a@.subrange(i + 1, na as int));
        assert(sb.drop_first() =~= b@.subrange(i + 1, nb as int));
        i = i + 1;
    }
    i == na && i < nb
}

proof fn lemma_insert_at(names: Seq<Seq<char>>, s: Seq<int>, k: int, p: int)
    requires
        0 <= p <= s.len(),
        forall|j: int| 0 <= j < p ==> !name_lt(names[k], #[trigger] names[s[j]]),
        p == s.len() || name_lt(names[k], names[s[p]]),
    ensures
        insert_index(names, s, k) == s.subrange(0, p) + seq![k] + s.subrange(p, s.len() as int),
    decreases s.len(),
{
    if s.len() == 0 {
        assert(s.subrange(0, p) + seq![k] + s.subrange(p, s.len() as int) =~= seq![k]);
    } else if p == 0 {
        assert(s.subrange(0, p) + seq![k] + s.subrange(p, s.len() as int) =~= seq![k] + s);
    } else {
        let t = s.drop_first();
        assert forall|j: int| 0 <= j < p - 1 implies !name_lt(names[k], #[trigger] names[t[j]]) by {
            assert(t[j] == s[j + 1]);
        }
        assert(!name_lt(names[k], names[s[0]]));
        if p < s.len() {
            assert(t[p - 1] == s[p]);
        }
        lemma_insert_at(names, t, k, p - 1);
        assert(seq![s[0]] + (t.subrange(0, p - 1) + seq![k] + t.subrange(p - 1, t.len() as int))
            =~= s.subrange(0, p) + seq![k] + s.subrange(p, s.len() as int));
    }
}

/// The names of `names` (one per entry) ordered by name, as indices.
pub fn sort_order(names: &Vec<String>) -> (r: Vec<usize>)
    ensures
        as_ints(r@) == sort_indices(names@.map_values(|s: String| s@), names@.len() as nat),
        forall|j: int| 0 <= j < r@.len() ==> #[trigger] r@[j] < names@.len(),
{
    let ghost ns = names@.map_values(|s: String| s@);
    let mut order: Vec<usize> = Vec::new();
    let n = names.len();
    let mut k: usize = 0;
    assert(as_ints(order@) =~= sort_indices(ns, 0));
    while k < n
        invariant
            n == names@.len(),
            k <= n,
            ns == names@.map_values(|s: String| s@),
            as_ints(order@) == sort_indices(ns, k as nat),
            forall|j: int| 0 <= j < order@.len() ==> #[trigger] order@[j] < k,
        decreases n - k,
    {
        let mut p: usize = 0;
        while p < order.len() && !names_lt(names[k].as_str(), names[order[p]].as_str())
            invariant
                n == names@.len(),
                k < n,
                p <= order@.len(),
                ns == names@.map_values(|s: String| s@),
                forall|j: int| 0 <= j < order@.len() ==> #[trigger] order@[j] < k,
                forall|j: int| 0 <= j < p ==> !name_lt(ns[k as int], #[trigger] ns[as_ints(order@)[j]]),
            decreases order@.len() - p,
        {
            assert(as_ints(order@)[p as int] == order@[p as int] as int);
            p = p + 1;
        }
        let ghost before = as_ints(order@);
        proof {
            if p < order@.len() {
                assert(before[p as int] == order@[p as int] as int);
            }
            lemma_insert_at(ns, before, k as int, p as int);
        }
        order.insert(p, k);
        assert(as_ints(order@) =~= before.subrange(0, p as int) + seq![k as int] + before.subrange(p as int, before.len() as int));
        assert(sort_indices(ns, (k + 1) as nat) == insert_index(ns, sort_indices(ns, k as nat), k as int));
        k = k + 1;
    }
    order
}

} // verus!
