//! Sorting by keys. A key is a row of fields and a field a row of numbers; both are compared
//! first difference first, and a row that ends earlier comes earlier.
use vstd::prelude::*;

verus! {

/// Whether the field `a` comes before the field `b`.
pub open spec fn field_less(a: Seq<u32>, b: Seq<u32>) -> bool
    decreases a.len(),
{
    if b.len() == 0 {
        false
    } else if a.len() == 0 {
        true
    } else if a[0] == b[0] {
        field_less(a.skip(1), b.skip(1))
    } else {
        a[0] < b[0]
    }
}

/// Whether the key `a` comes before the key `b`.
pub open spec fn key_less(a: Seq<Seq<u32>>, b: Seq<Seq<u32>>) -> bool
    decreases a.len(),
{
    if b.len() == 0 {
        false
    } else if a.len() == 0 {
        true
    } else if a[0] == b[0] {
        key_less(a.skip(1), b.skip(1))
    } else {
        field_less(a[0], b[0])
    }
}

/// The fields of a key.
pub open spec fn key_view(key: Vec<Vec<u32>>) -> Seq<Seq<u32>> {
    key@.map_values(|field: Vec<u32>| field@)
}

/// The fields of each key.
pub open spec fn keys_view(keys: Seq<Vec<Vec<u32>>>) -> Seq<Seq<Seq<u32>>> {
    keys.map_values(|key: Vec<Vec<u32>>| key_view(key))
}

proof fn lemma_field_order(a: Seq<u32>, b: Seq<u32>, c: Seq<u32>)
    ensures
        !field_less(a, a),
        a == b || field_less(a, b) || field_less(b, a),
        field_less(a, b) && field_less(b, c) ==> field_less(a, c),
    decreases a.len(),
{
    if a.len() > 0 {
        lemma_field_order(a.skip(1), a.skip(1), a.skip(1));
    }
    if a.len() > 0 && b.len() > 0 {
        lemma_field_order(
            a.skip(1),
            b.skip(1),
            if c.len() > 0 {
                c.skip(1)
            } else {
                c
            },
        );
        if a[0] == b[0] && a.skip(1) == b.skip(1) {
            assert(a =~= seq![a[0]] + a.skip(1));
            assert(b =~= seq![b[0]] + b.skip(1));
        }
    } else if a.len() == 0 && b.len() == 0 {
        assert(a =~= b);
    }
}

proof fn lemma_key_order(a: Seq<Seq<u32>>, b: Seq<Seq<u32>>, c: Seq<Seq<u32>>)
    ensures
        !key_less(a, a),
        a == b || key_less(a, b) || key_less(b, a),
        key_less(a, b) && key_less(b, c) ==> key_less(a, c),
    decreases a.len(),
{
    if a.len() > 0 {
        lemma_key_order(a.skip(1), a.skip(1), a.skip(1));
    }
    if a.len() > 0 && b.len() > 0 {
        lemma_key_order(
            a.skip(1),
            b.skip(1),
            if c.len() > 0 {
                c.skip(1)
            } else {
                c
            },
        );
        if c.len() > 0 {
            lemma_field_order(a[0], b[0], c[0]);
            lemma_field_order(b[0], a[0], b[0]);
            lemma_field_order(c[0], b[0], c[0]);
        } else {
            lemma_field_order(a[0], b[0], a[0]);
        }
        if a[0] == b[0] && a.skip(1) == b.skip(1) {
            assert(a =~= seq![a[0]] + a.skip(1));
            assert(b =~= seq![b[0]] + b.skip(1));
        }
    } else if a.len() == 0 && b.len() == 0 {
        assert(a =~= b);
    }
}

/// The fields are in a strict order: no field comes before itself, of two different fields one
/// comes before the other, and the order carries over from one pair to the next.
pub proof fn law_fields_are_ordered(a: Seq<u32>, b: Seq<u32>, c: Seq<u32>)
    ensures
        !field_less(a, a),
        a != b ==> field_less(a, b) || field_less(b, a),
        !(field_less(a, b) && field_less(b, a)),
        field_less(a, b) && field_less(b, c) ==> field_less(a, c),
{
    lemma_field_order(a, b, c);
    lemma_field_order(a, b, a);
}

/// The keys are in a strict order: no key comes before itself, of two different keys one comes
/// before the other, and the order carries over from one pair to the next.
pub proof fn law_keys_are_ordered(a: Seq<Seq<u32>>, b: Seq<Seq<u32>>, c: Seq<Seq<u32>>)
    ensures
        !key_less(a, a),
        a != b ==> key_less(a, b) || key_less(b, a),
        !(key_less(a, b) && key_less(b, a)),
        key_less(a, b) && key_less(b, c) ==> key_less(a, c),
{
    lemma_key_order(a, b, c);
    lemma_key_order(a, b, a);
}

/// Whether the field `a` comes before the field `b`.
pub fn field_is_less(a: &[u32], b: &[u32]) -> (r: bool)
    ensures
        r == field_less(a@, b@),
{
    let mut i: usize = 0;
    assert(a@.skip(0) =~= a@);
    assert(b@.skip(0) =~= b@);
    while i < a.len() && i < b.len() && a[i] == b[i]
        invariant
            i <= a@.len(),
            i <= b@.len(),
            field_less(a@, b@) == field_less(a@.skip(i as int), b@.skip(i as int)),
        decreases a@.len() - i,
    {
        assert(a@.skip(i as int).skip(1) =~= a@.skip(i + 1));
        assert(b@.skip(i as int).skip(1) =~= b@.skip(i + 1));
        i = i + 1;
    }
    if i < b.len() {
        i == a.len() || a[i] < b[i]
    } else {
        false
    }
}

/// Whether the fields are the same.
pub fn same_field(a: &[u32], b: &[u32]) -> (r: bool)
    ensures
        r == (a@ == b@),
{
    if a.len() != b.len() {
        return false;
    }
    let n: usize = a.len();
    for i in 0..n
        invariant
            n == a@.len(),
            n == b@.len(),
            forall|k: int| 0 <= k < i ==> a@[k] == b@[k],
    {
        if a[i] != b[i] {
            return false;
        }
    }
    assert(a@ =~= b@);
    true
}

/// Whether the key `a` comes before the key `b`.
pub fn key_is_less(a: &Vec<Vec<u32>>, b: &Vec<Vec<u32>>) -> (r: bool)
    ensures
        r == key_less(key_view(*a), key_view(*b)),
{
    let ghost left = key_view(*a);
    let ghost right = key_view(*b);
    let mut i: usize = 0;
    assert(left.skip(0) =~= left);
    assert(right.skip(0) =~= right);
    while i < a.len() && i < b.len() && same_field(a[i].as_slice(), b[i].as_slice())
        invariant
            left == key_view(*a),
            right == key_view(*b),
            i <= a@.len(),
            i <= b@.len(),
            key_less(left, right) == key_less(left.skip(i as int), right.skip(i as int)),
        decreases a@.len() - i,
    {
        assert(left.skip(i as int).skip(1) =~= left.skip(i + 1));
        assert(right.skip(i as int).skip(1) =~= right.skip(i + 1));
        i = i + 1;
    }
    if i < b.len() {
        i == a.len() || field_is_less(a[i].as_slice(), b[i].as_slice())
    } else {
        false
    }
}

/// Whether the keys are the same.
pub fn same_key(a: &Vec<Vec<u32>>, b: &Vec<Vec<u32>>) -> (r: bool)
    ensures
        r == (key_view(*a) == key_view(*b)),
{
    let ghost left = key_view(*a);
    let ghost right = key_view(*b);
    if a.len() != b.len() {
        assert(left.len() != right.len());
        return false;
    }
    let n: usize = a.len();
    for i in 0..n
        invariant
            n == a@.len(),
            n == b@.len(),
            left == key_view(*a),
            right == key_view(*b),
            forall|k: int| 0 <= k < i ==> left[k] == right[k],
    {
        if !same_field(a[i].as_slice(), b[i].as_slice()) {
            assert(left[i as int] != right[i as int]);
            return false;
        }
    }
    assert(left =~= right);
    true
}

/// Whether the item at `a` goes before the item at `b`: its key comes before, or the keys are
/// the same and it stood before.
pub open spec fn goes_before(keys: Seq<Seq<Seq<u32>>>, a: int, b: int) -> bool {
    key_less(keys[a], keys[b]) || keys[a] == keys[b] && a < b
}

/// Whether `order` lists every item once, sorted by key, items of the same key as they stood.
pub open spec fn is_sorted_order(keys: Seq<Seq<Seq<u32>>>, order: Seq<usize>) -> bool {
    &&& order.len() == keys.len()
    &&& forall|i: int| 0 <= i < order.len() ==> (#[trigger] order[i]) < keys.len()
    &&& forall|k: usize| k < keys.len() ==> #[trigger] order.contains(k)
    &&& forall|i: int, j: int|
        0 <= i < j < order.len() ==> goes_before(
            keys,
            #[trigger] order[i] as int,
            #[trigger] order[j] as int,
        )
}

/// The order of the items, sorted by key, items of the same key as they stand.
pub fn sorted_order(keys: &Vec<Vec<Vec<u32>>>) -> (r: Vec<usize>)
    ensures
        is_sorted_order(keys_view(keys@), r@),
{
    let ghost views = keys_view(keys@);
    let n: usize = keys.len();
    let mut order: Vec<usize> = Vec::new();
    for i in 0..n
        invariant
            n == keys@.len(),
            views == keys_view(keys@),
            order@.len() == i,
            forall|k: int| 0 <= k < i ==> (#[trigger] order@[k]) < i,
            forall|k: usize| k < i ==> #[trigger] order@.contains(k),
            forall|a: int, b: int|
                0 <= a < b < i ==> goes_before(
                    views,
                    #[trigger] order@[a] as int,
                    #[trigger] order@[b] as int,
                ),
    {
        let mut at: usize = 0;
        while at < i && !key_is_less(&keys[i], &keys[order[at]])
            invariant
                i < n,
                n == keys@.len(),
                views == keys_view(keys@),
                order@.len() == i,
                at <= i,
                forall|k: int| 0 <= k < i ==> (#[trigger] order@[k]) < i,
                forall|k: int|
                    0 <= k < at ==> !key_less(
                        views[i as int],
                        views[(#[trigger] order@[k]) as int],
                    ),
            decreases i - at,
        {
            at = at + 1;
        }
        let ghost before = order@;
        order.insert(at, i);
        proof {
            let now = order@;
            assert(now =~= before.insert(at as int, i));
            assert forall|k: usize| k < i + 1 implies #[trigger] now.contains(k) by {
                if k < i {
                    assert(before.contains(k));
                    let p = choose|p: int| 0 <= p < before.len() && before[p] == k;
                    if p < at {
                        assert(now[p] == k);
                    } else {
                        assert(now[p + 1] == k);
                    }
                } else {
                    assert(now[at as int] == k);
                }
            }
            assert forall|a: int, b: int| 0 <= a < b < i + 1 implies goes_before(
                views,
                #[trigger] now[a] as int,
                #[trigger] now[b] as int,
            ) by {
                if b == at {
                    let x = before[a] as int;
                    lemma_key_order(views[x], views[i as int], views[x]);
                    assert(!key_less(views[i as int], views[x]));
                } else if a == at {
                    let y = before[b - 1] as int;
                    let z = before[at as int] as int;
                    assert(key_less(views[i as int], views[z]));
                    if b - 1 > at {
                        assert(goes_before(views, z, y));
                        lemma_key_order(views[i as int], views[z], views[y]);
                    }
                } else {
                    let p = if a < at {
                        a
                    } else {
                        a - 1
                    };
                    let q = if b < at {
                        b
                    } else {
                        b - 1
                    };
                    assert(goes_before(views, before[p] as int, before[q] as int));
                }
            }
        }
    }
    order
}

/// There is only one such order.
pub proof fn law_sorted_order_is_unique(
    keys: Seq<Seq<Seq<u32>>>,
    first: Seq<usize>,
    second: Seq<usize>,
)
    requires
        is_sorted_order(keys, first),
        is_sorted_order(keys, second),
    ensures
        first == second,
{
    assert forall|p: int| 0 <= p < first.len() implies first[p] == second[p] by {
        lemma_same_at(keys, first, second, p);
    }
    assert(first =~= second);
}

proof fn lemma_same_at(
    keys: Seq<Seq<Seq<u32>>>,
    first: Seq<usize>,
    second: Seq<usize>,
    p: int,
)
    requires
        is_sorted_order(keys, first),
        is_sorted_order(keys, second),
        0 <= p < first.len(),
    ensures
        first[p] == second[p],
    decreases p,
{
    assert forall|k: int| 0 <= k < p implies first[k] == second[k] by {
        lemma_same_at(keys, first, second, k);
    }
    let x = first[p];
    let y = second[p];
    if x != y {
        assert(second.contains(x));
        let q = choose|q: int| 0 <= q < second.len() && second[q] == x;
        assert(first.contains(y));
        let r = choose|r: int| 0 <= r < first.len() && first[r] == y;
        lemma_key_order(keys[x as int], keys[y as int], keys[x as int]);
        lemma_key_order(keys[y as int], keys[x as int], keys[y as int]);
        if q < p {
            assert(first[q] == second[q]);
            assert(goes_before(keys, first[q] as int, first[p] as int));
        }
        if r < p {
            assert(first[r] == second[r]);
            assert(goes_before(keys, second[r] as int, second[p] as int));
        }
        assert(q > p && r > p);
        assert(goes_before(keys, second[p] as int, second[q] as int));
        assert(goes_before(keys, first[p] as int, first[r] as int));
    }
}

/// Whether `a` and `b` are the same before `at`, and part there: one ends, or they differ.
pub open spec fn parts_at<T>(a: Seq<T>, b: Seq<T>, at: int) -> bool {
    &&& 0 <= at <= a.len()
    &&& at <= b.len()
    &&& forall|i: int| 0 <= i < at ==> a[i] == #[trigger] b[i]
    &&& at < a.len() && at < b.len() ==> a[at] != b[at]
}

/// Where two rows part. Of two rows that are the same this is their end.
pub proof fn lemma_parting<T>(a: Seq<T>, b: Seq<T>) -> (at: int)
    ensures
        parts_at(a, b, at),
    decreases a.len(),
{
    if a.len() == 0 || b.len() == 0 || a[0] != b[0] {
        0
    } else {
        let rest = lemma_parting(a.skip(1), b.skip(1));
        assert forall|i: int| 0 <= i < rest + 1 implies a[i] == #[trigger] b[i] by {
            if i > 0 {
                assert(a.skip(1)[i - 1] == b.skip(1)[i - 1]);
            }
        }
        rest + 1
    }
}

/// Fields are compared where they part: the one that ends there comes first, or else the one whose
/// number there is the smaller. What follows makes no difference.
pub proof fn law_fields_are_compared_where_they_part(a: Seq<u32>, b: Seq<u32>, at: int)
    requires
        parts_at(a, b, at),
    ensures
        field_less(a, b) <==> at < b.len() && (at == a.len() || a[at] < b[at]),
    decreases at,
{
    if at > 0 {
        assert(a[0] == b[0]);
        assert forall|i: int| 0 <= i < at - 1 implies a.skip(1)[i] == #[trigger] b.skip(1)[i] by {
            assert(a[i + 1] == b[i + 1]);
        }
        law_fields_are_compared_where_they_part(a.skip(1), b.skip(1), at - 1);
    }
}

/// Keys are compared by the first field in which they differ, whatever the later ones are; a key
/// that ends before comes first.
pub proof fn law_keys_are_compared_by_their_first_difference(
    a: Seq<Seq<u32>>,
    b: Seq<Seq<u32>>,
    at: int,
)
    requires
        parts_at(a, b, at),
    ensures
        key_less(a, b) <==> at < b.len() && (at == a.len() || field_less(a[at], b[at])),
    decreases at,
{
    if at > 0 {
        assert(a[0] == b[0]);
        assert forall|i: int| 0 <= i < at - 1 implies a.skip(1)[i] == #[trigger] b.skip(1)[i] by {
            assert(a[i + 1] == b[i + 1]);
        }
        law_keys_are_compared_by_their_first_difference(a.skip(1), b.skip(1), at - 1);
    }
}

/// A sorted order lists every item, and none twice; of two items the later never has the smaller
/// key, and those of the same key stand as they stood.
pub proof fn law_sorted_order_is_stable(
    keys: Seq<Seq<Seq<u32>>>,
    order: Seq<usize>,
    i: int,
    j: int,
)
    requires
        is_sorted_order(keys, order),
        0 <= i < j < order.len(),
    ensures
        order.len() == keys.len(),
        order[i] != order[j],
        forall|k: usize| k < keys.len() ==> #[trigger] order.contains(k),
        !key_less(keys[order[j] as int], keys[order[i] as int]),
        keys[order[i] as int] == keys[order[j] as int] ==> order[i] < order[j],
{
    assert(goes_before(keys, order[i] as int, order[j] as int));
    law_keys_are_ordered(
        keys[order[i] as int],
        keys[order[j] as int],
        keys[order[i] as int],
    );
}

/// Whether the text `a` comes before the text `b`: where they part, `a` ends, or its character is
/// the smaller.
pub open spec fn text_before(a: Seq<char>, b: Seq<char>) -> bool {
    exists|at: int| #[trigger]
        parts_at(a, b, at) && at < b.len() && (at == a.len() || a[at] < b[at])
}

} // verus!
