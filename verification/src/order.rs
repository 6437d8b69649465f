//! Orders and sorting.
use crate::text::chars_of;
use vstd::prelude::*;
use vstd::relations::sorted_by;
use vstd::relations::total_ordering;

verus! {

/// The order of texts by their characters' code points: the first difference decides,
/// and a proper beginning comes first.
pub open spec fn text_less(a: Seq<char>, b: Seq<char>) -> bool
    decreases a.len(),
{
    if b.len() == 0 {
        false
    } else if a.len() == 0 {
        true
    } else if a[0] != b[0] {
        a[0] < b[0]
    } else {
        text_less(a.drop_first(), b.drop_first())
    }
}

/// Whether the text `a` comes before the text `b`.
pub fn text_before(a: &str, b: &str) -> (r: bool)
    ensures
        r == text_less(a@, b@),
{
    let x: Vec<char> = chars_of(a);
    let y: Vec<char> = chars_of(b);
    let mut i: usize = 0;
    assert(a@.skip(0) =~= a@);
    assert(b@.skip(0) =~= b@);
    while i < x.len() && i < y.len() && x[i] == y[i]
        invariant
            i <= x@.len(),
            i <= y@.len(),
            x@ == a@,
            y@ == b@,
            text_less(a@, b@) == text_less(a@.skip(i as int), b@.skip(i as int)),
        decreases x.len() - i,
    {
        assert(a@.skip(i as int).drop_first() =~= a@.skip(i + 1));
        assert(b@.skip(i as int).drop_first() =~= b@.skip(i + 1));
        i += 1;
    }
    if i == y.len() {
        false
    } else if i == x.len() {
        true
    } else {
        x[i] < y[i]
    }
}

/// Of two different texts exactly one comes before the other.
pub proof fn lemma_text_less_total(a: Seq<char>, b: Seq<char>)
    ensures
        text_less(a, b) || text_less(b, a) || a == b,
        !(text_less(a, b) && text_less(b, a)),
    decreases a.len(),
{
    if a.len() > 0 && b.len() > 0 {
        lemma_text_less_total(a.drop_first(), b.drop_first());
        if a[0] == b[0] && a.drop_first() == b.drop_first() {
            assert(a =~= seq![a[0]] + a.drop_first());
            assert(b =~= seq![b[0]] + b.drop_first());
        }
    } else if a.len() == 0 && b.len() == 0 {
        assert(a =~= b);
    }
}

/// The order of texts is transitive.
pub proof fn lemma_text_less_transitive(a: Seq<char>, b: Seq<char>, c: Seq<char>)
    requires
        text_less(a, b),
        text_less(b, c),
    ensures
        text_less(a, c),
    decreases a.len(),
{
    if a.len() > 0 && b.len() > 0 && c.len() > 0 && a[0] == b[0] && b[0] == c[0] {
        lemma_text_less_transitive(a.drop_first(), b.drop_first(), c.drop_first());
    }
}

/// The index `x` stands before the index `y` when keys are sorted by text, equal keys
/// keeping their order.
pub open spec fn text_ordered(keys: Seq<Seq<char>>, x: int, y: int) -> bool {
    text_less(keys[x], keys[y]) || (keys[x] == keys[y] && x < y)
}

/// `order` lists every index of `keys` once, in text order, equal keys keeping their order.
pub open spec fn is_text_order(keys: Seq<Seq<char>>, order: Seq<usize>) -> bool {
    &&& order.len() == keys.len()
    &&& forall|i: int| 0 <= i < order.len() ==> (#[trigger] order[i]) < keys.len()
    &&& forall|i: int, j: int|
        0 <= i < j < order.len() ==> text_ordered(keys, #[trigger] order[i] as int, #[trigger] order[j] as int)
}

/// Whether `order` names the index `k`.
pub open spec fn lists(order: Seq<usize>, k: int) -> bool {
    exists|i: int| 0 <= i < order.len() && #[trigger] order[i] == k
}

/// An order names every index once.
pub proof fn lemma_text_order_is_whole(keys: Seq<Seq<char>>, order: Seq<usize>)
    requires
        is_text_order(keys, order),
    ensures
        order.no_duplicates(),
        forall|k: int| 0 <= k < keys.len() ==> #[trigger] lists(order, k),
{
    let at = order.map_values(|x: usize| x as int);
    assert forall|i: int, j: int| 0 <= i < j < order.len() implies order[i] != order[j] by {
        assert(text_ordered(keys, order[i] as int, order[j] as int));
        lemma_text_less_total(keys[order[i] as int], keys[order[j] as int]);
    }
    assert(at.no_duplicates());
    at.unique_seq_to_set();
    vstd::set_lib::lemma_int_range(0, keys.len() as int);
    let all = vstd::set_lib::set_int_range(0, keys.len() as int);
    assert(at.to_set().subset_of(all));
    assert(at.to_set().finite()) by {
        vstd::seq_lib::seq_to_set_is_finite(at);
    }
    vstd::set_lib::lemma_subset_equality(at.to_set(), all);
    assert forall|k: int| 0 <= k < keys.len() implies #[trigger] lists(order, k) by {
        assert(all.contains(k));
        assert(at.contains(k));
        let i = at.index_of(k);
        assert(order[i] == k);
    }
}

proof fn lemma_text_ordered_transitive(keys: Seq<Seq<char>>, x: int, y: int, z: int)
    requires
        text_ordered(keys, x, y),
        text_ordered(keys, y, z),
    ensures
        text_ordered(keys, x, z),
{
    if text_less(keys[x], keys[y]) && text_less(keys[y], keys[z]) {
        lemma_text_less_transitive(keys[x], keys[y], keys[z]);
    }
}

/// The indices of `keys` in text order, equal keys keeping their order.
pub fn text_order(keys: &Vec<String>) -> (order: Vec<usize>)
    ensures
        is_text_order(crate::text::texts(keys@), order@),
{
    let ghost k = crate::text::texts(keys@);
    let mut order: Vec<usize> = Vec::new();
    let mut n: usize = 0;
    while n < keys.len()
        invariant
            n <= keys@.len(),
            k == crate::text::texts(keys@),
            order@.len() == n,
            forall|i: int| 0 <= i < order@.len() ==> (#[trigger] order@[i]) < n,
            forall|i: int, j: int|
                0 <= i < j < order@.len() ==> text_ordered(
                    k,
                    #[trigger] order@[i] as int,
                    #[trigger] order@[j] as int,
                ),
        decreases keys.len() - n,
    {
        let ghost before = order@;
        let mut p: usize = order.len();
        while p > 0 && text_before(keys[n].as_str(), keys[order[p - 1]].as_str())
            invariant
                n < keys@.len(),
                k == crate::text::texts(keys@),
                order@ == before,
                p <= order@.len(),
                order@.len() == n,
                forall|i: int| 0 <= i < order@.len() ==> (#[trigger] order@[i]) < n,
                forall|i: int| p <= i < order@.len() ==> text_ordered(k, n as int, #[trigger] order@[i] as int),
            decreases p,
        {
            p -= 1;
        }
        proof {
            if p > 0 {
                let last = before[p - 1] as int;
                lemma_text_less_total(k[n as int], k[last]);
                assert(text_ordered(k, last, n as int));
                assert forall|i: int| 0 <= i < p implies text_ordered(k, #[trigger] before[i] as int, n as int) by {
                    if i < p - 1 {
                        lemma_text_ordered_transitive(k, before[i] as int, last, n as int);
                    }
                }
            }
        }
        order.insert(p, n);
        proof {
            assert forall|i: int, j: int| 0 <= i < j < order@.len() implies text_ordered(
                k,
                #[trigger] order@[i] as int,
                #[trigger] order@[j] as int,
            ) by {
                let oi = if i < p { i } else { i - 1 };
                let oj = if j < p { j } else { j - 1 };
                if i != p && j != p {
                    assert(order@[i] == before[oi]);
                    assert(order@[j] == before[oj]);
                } else if i == p {
                    assert(order@[j] == before[j - 1]);
                } else {
                    assert(order@[i] == before[i]);
                }
            }
            assert forall|i: int| 0 <= i < order@.len() implies (#[trigger] order@[i]) < n + 1 by {
                if i < p {
                    assert(order@[i] == before[i]);
                } else if i > p {
                    assert(order@[i] == before[i - 1]);
                }
            }
        }
        n += 1;
    }
    order
}

/// The index `x` stands before the index `y` when keys are sorted ascending, equal keys
/// keeping their order.
pub open spec fn number_ordered(keys: Seq<u64>, x: int, y: int) -> bool {
    keys[x] < keys[y] || (keys[x] == keys[y] && x < y)
}

/// `order` lists every index of `keys` once, ascending, equal keys keeping their order.
pub open spec fn is_number_order(keys: Seq<u64>, order: Seq<usize>) -> bool {
    &&& order.len() == keys.len()
    &&& forall|i: int| 0 <= i < order.len() ==> (#[trigger] order[i]) < keys.len()
    &&& forall|i: int, j: int|
        0 <= i < j < order.len() ==> number_ordered(keys, #[trigger] order[i] as int, #[trigger] order[j] as int)
}

/// An ascending order of the indices of `keys` leaves none out.
pub proof fn lemma_number_order_is_onto(keys: Seq<u64>, order: Seq<usize>, i: int)
    requires
        is_number_order(keys, order),
        0 <= i < keys.len(),
    ensures
        exists|p: int| 0 <= p < order.len() && #[trigger] order[p] == i,
{
    let places = order.map_values(|x: usize| x as int);
    let n = keys.len() as int;
    assert(places.no_duplicates()) by {
        assert forall|a: int, b: int| 0 <= a < b < places.len() implies places[a] != places[b] by {
            assert(number_ordered(keys, order[a] as int, order[b] as int));
        }
    }
    places.unique_seq_to_set();
    vstd::set_lib::lemma_int_range(0, n);
    assert forall|x: int| #[trigger] places.to_set().contains(x) implies vstd::set_lib::set_int_range(
        0,
        n,
    ).contains(x) by {
        let p = choose|p: int| 0 <= p < places.len() && places[p] == x;
        assert(order[p] < keys.len());
    }
    vstd::set_lib::lemma_subset_equality(places.to_set(), vstd::set_lib::set_int_range(0, n));
    assert(places.to_set().contains(i));
    let p = choose|p: int| 0 <= p < places.len() && places[p] == i;
    assert(order[p] == i);
}

/// The indices of `keys` in ascending order, equal keys keeping their order.
pub fn number_order(keys: &Vec<u64>) -> (order: Vec<usize>)
    ensures
        is_number_order(keys@, order@),
{
    let mut order: Vec<usize> = Vec::new();
    let mut n: usize = 0;
    while n < keys.len()
        invariant
            n <= keys@.len(),
            order@.len() == n,
            forall|i: int| 0 <= i < order@.len() ==> (#[trigger] order@[i]) < n,
            forall|i: int, j: int|
                0 <= i < j < order@.len() ==> number_ordered(
                    keys@,
                    #[trigger] order@[i] as int,
                    #[trigger] order@[j] as int,
                ),
        decreases keys.len() - n,
    {
        let ghost before = order@;
        let mut p: usize = order.len();
        while p > 0 && keys[n] < keys[order[p - 1]]
            invariant
                n < keys@.len(),
                order@ == before,
                p <= order@.len(),
                order@.len() == n,
                forall|i: int| 0 <= i < order@.len() ==> (#[trigger] order@[i]) < n,
                forall|i: int| p <= i < order@.len() ==> number_ordered(keys@, n as int, #[trigger] order@[i] as int),
            decreases p,
        {
            p -= 1;
        }
        order.insert(p, n);
        proof {
            assert forall|i: int, j: int| 0 <= i < j < order@.len() implies number_ordered(
                keys@,
                #[trigger] order@[i] as int,
                #[trigger] order@[j] as int,
            ) by {
                let oi = if i < p { i } else { i - 1 };
                let oj = if j < p { j } else { j - 1 };
                if i != p && j != p {
                    assert(order@[i] == before[oi]);
                    assert(order@[j] == before[oj]);
                } else if i == p {
                    assert(order@[j] == before[j - 1]);
                } else {
                    assert(order@[i] == before[i]);
                    if p > 0 && i < p - 1 {
                        assert(number_ordered(keys@, before[i] as int, before[p - 1] as int));
                    }
                }
            }
            assert forall|i: int| 0 <= i < order@.len() implies (#[trigger] order@[i]) < n + 1 by {
                if i < p {
                    assert(order@[i] == before[i]);
                } else if i > p {
                    assert(order@[i] == before[i - 1]);
                }
            }
        }
        n += 1;
    }
    order
}

/// The ascending order of numbers.
pub open spec fn at_most() -> spec_fn(u64, u64) -> bool {
    |a: u64, b: u64| a <= b
}

/// The numbers of `s` in ascending order.
pub open spec fn ascending(s: Seq<u64>) -> Seq<u64> {
    s.sort_by(at_most())
}

fn merge(a: &Vec<u64>, b: &Vec<u64>) -> (r: Vec<u64>)
    requires
        sorted_by(a@, at_most()),
        sorted_by(b@, at_most()),
    ensures
        sorted_by(r@, at_most()),
        r@.to_multiset() == (a@ + b@).to_multiset(),
{
    let mut r: Vec<u64> = Vec::new();
    let mut i: usize = 0;
    let mut j: usize = 0;
    assert(a@.take(0) + b@.take(0) =~= r@);
    while i < a.len() || j < b.len()
        invariant
            i <= a@.len(),
            j <= b@.len(),
            sorted_by(a@, at_most()),
            sorted_by(b@, at_most()),
            sorted_by(r@, at_most()),
            forall|x: int, y: int| 0 <= x < r@.len() && i <= y < a@.len() ==> #[trigger] r@[x] <= #[trigger] a@[y],
            forall|x: int, y: int| 0 <= x < r@.len() && j <= y < b@.len() ==> #[trigger] r@[x] <= #[trigger] b@[y],
            r@.to_multiset() == (a@.take(i as int) + b@.take(j as int)).to_multiset(),
        decreases a.len() - i + b.len() - j,
    {
        let ghost so_far = r@;
        let from_a: bool = i < a.len() && (j == b.len() || a[i] <= b[j]);
        proof {
            vstd::seq_lib::lemma_multiset_commutative(a@.take(i as int), b@.take(j as int));
            broadcast use vstd::seq_lib::group_to_multiset_ensures;
            let at = at_most();
            if from_a {
                assert(a@.take(i + 1) =~= a@.take(i as int).push(a@[i as int]));
                vstd::seq_lib::lemma_multiset_commutative(a@.take(i + 1), b@.take(j as int));
                assert forall|y: int| i <= y < a@.len() implies a@[i as int] <= #[trigger] a@[y] by {
                    if i < y {
                        assert(at(a@[i as int], a@[y]));
                    }
                }
                assert forall|y: int| j <= y < b@.len() implies a@[i as int] <= #[trigger] b@[y] by {
                    if j < y {
                        assert(at(b@[j as int], b@[y]));
                    }
                }
            } else {
                assert(b@.take(j + 1) =~= b@.take(j as int).push(b@[j as int]));
                vstd::seq_lib::lemma_multiset_commutative(a@.take(i as int), b@.take(j + 1));
                assert forall|y: int| i <= y < a@.len() implies b@[j as int] <= #[trigger] a@[y] by {
                    if i < y {
                        assert(at(a@[i as int], a@[y]));
                    }
                }
                assert forall|y: int| j <= y < b@.len() implies b@[j as int] <= #[trigger] b@[y] by {
                    if j < y {
                        assert(at(b@[j as int], b@[y]));
                    }
                }
            }
        }
        if from_a {
            r.push(a[i]);
            i += 1;
        } else {
            r.push(b[j]);
            j += 1;
        }
        proof {
            broadcast use vstd::seq_lib::group_to_multiset_ensures;
            assert(r@ == so_far.push(r@.last()));
            let at = at_most();
            assert forall|x: int, y: int| 0 <= x < y < r@.len() implies #[trigger] at(r@[x], r@[y]) by {
                if y < so_far.len() {
                    assert(at(so_far[x], so_far[y]));
                }
            }
        }
    }
    assert(a@.take(a@.len() as int) =~= a@);
    assert(b@.take(b@.len() as int) =~= b@);
    r
}

fn sort_range(v: &Vec<u64>, from: usize, to: usize) -> (r: Vec<u64>)
    requires
        from <= to <= v@.len(),
    ensures
        sorted_by(r@, at_most()),
        r@.to_multiset() == v@.subrange(from as int, to as int).to_multiset(),
    decreases to - from,
{
    if to - from <= 1 {
        let mut r: Vec<u64> = Vec::new();
        if from < to {
            r.push(v[from]);
        }
        assert(r@ =~= v@.subrange(from as int, to as int));
        return r;
    }
    let mid: usize = from + (to - from) / 2;
    let left: Vec<u64> = sort_range(v, from, mid);
    let right: Vec<u64> = sort_range(v, mid, to);
    proof {
        let l = v@.subrange(from as int, mid as int);
        let r = v@.subrange(mid as int, to as int);
        assert(l + r =~= v@.subrange(from as int, to as int));
        vstd::seq_lib::lemma_multiset_commutative(l, r);
        vstd::seq_lib::lemma_multiset_commutative(left@, right@);
    }
    merge(&left, &right)
}

/// The numbers of `v` in ascending order.
pub fn sort_numbers(v: &Vec<u64>) -> (r: Vec<u64>)
    ensures
        r@ == ascending(v@),
{
    let r: Vec<u64> = sort_range(v, 0, v.len());
    proof {
        assert(v@.subrange(0, v@.len() as int) =~= v@);
        assert(total_ordering(at_most()));
        v@.lemma_sort_by_ensures(at_most());
        vstd::seq_lib::lemma_sorted_unique(r@, v@.sort_by(at_most()), at_most());
    }
    r
}

/// Sorting keeps the numbers, and puts them in ascending order.
pub proof fn lemma_ascending(s: Seq<u64>)
    ensures
        ascending(s).len() == s.len(),
        ascending(s).to_multiset() == s.to_multiset(),
        forall|i: int, j: int| 0 <= i <= j < s.len() ==> #[trigger] ascending(s)[i] <= #[trigger] ascending(s)[j],
{
    broadcast use vstd::seq_lib::group_to_multiset_ensures;
    assert(total_ordering(at_most()));
    s.lemma_sort_by_ensures(at_most());
    let r = ascending(s);
    let at = at_most();
    assert(r.to_multiset().len() == r.len());
    assert(s.to_multiset().len() == s.len());
    assert forall|i: int, j: int| 0 <= i <= j < s.len() implies #[trigger] r[i] <= #[trigger] r[j] by {
        if i < j {
            assert(at(r[i], r[j]));
        }
    }
}

} // verus!
