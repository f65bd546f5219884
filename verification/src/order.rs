//! The order in which files are numbered: by name, character by character
//! (the order of their UTF-8 bytes), ties kept in their listing order.

use vstd::prelude::*;
use crate::text::chars_of;

verus! {

/// Lexicographic order on texts, comparing characters by code point; a
/// proper prefix comes first.
pub open spec fn text_less(a: Seq<char>, b: Seq<char>) -> bool
    decreases a.len(),
{
    if a.len() == 0 {
        b.len() > 0
    } else if b.len() == 0 {
        false
    } else if a[0] != b[0] {
        a[0] < b[0]
    } else {
        text_less(a.drop_first(), b.drop_first())
    }
}

/// No text comes before itself.
pub proof fn lemma_text_less_irreflexive(a: Seq<char>)
    ensures
        !text_less(a, a),
    decreases a.len(),
{
    if a.len() > 0 {
        lemma_text_less_irreflexive(a.drop_first());
    }
}

/// Of two different texts, one comes before the other, and not both ways.
pub proof fn lemma_text_less_total(a: Seq<char>, b: Seq<char>)
    ensures
        a != b ==> (text_less(a, b) || text_less(b, a)),
        !(text_less(a, b) && text_less(b, a)),
    decreases a.len(),
{
    if a.len() > 0 && b.len() > 0 && a[0] == b[0] {
        lemma_text_less_total(a.drop_first(), b.drop_first());
        if a != b {
            assert(a.drop_first() != b.drop_first()) by {
                if a.drop_first() == b.drop_first() {
                    assert(a =~= seq![a[0]] + a.drop_first());
                    assert(b =~= seq![b[0]] + b.drop_first());
                }
            }
        }
    } else if a.len() == 0 && b.len() == 0 {
        assert(a =~= b);
    }
}

/// The order is transitive.
pub proof fn lemma_text_less_transitive(a: Seq<char>, b: Seq<char>, c: Seq<char>)
    requires
        text_less(a, b),
        text_less(b, c),
    ensures
        text_less(a, c),
    decreases a.len(),
{
    if a.len() > 0 && a[0] == b[0] && b[0] == c[0] {
        lemma_text_less_transitive(a.drop_first(), b.drop_first(), c.drop_first());
    }
}

/// A common beginning does not change the order.
pub proof fn lemma_text_less_common_prefix(p: Seq<char>, x: Seq<char>, y: Seq<char>)
    ensures
        text_less(p + x, p + y) == text_less(x, y),
    decreases p.len(),
{
    if p.len() > 0 {
        assert((p + x).drop_first() =~= p.drop_first() + x);
        assert((p + y).drop_first() =~= p.drop_first() + y);
        lemma_text_less_common_prefix(p.drop_first(), x, y);
    } else {
        assert(p + x =~= x);
        assert(p + y =~= y);
    }
}

/// Of two texts of the same length, the one that comes first still comes
/// first with anything after each.
pub proof fn lemma_text_less_extend(a: Seq<char>, b: Seq<char>, e1: Seq<char>, e2: Seq<char>)
    requires
        a.len() == b.len(),
        text_less(a, b),
    ensures
        text_less(a + e1, b + e2),
    decreases a.len(),
{
    if a.len() > 0 && a[0] == b[0] {
        assert((a + e1).drop_first() =~= a.drop_first() + e1);
        assert((b + e2).drop_first() =~= b.drop_first() + e2);
        lemma_text_less_extend(a.drop_first(), b.drop_first(), e1, e2);
    }
}

/// The views of a list of texts.
pub open spec fn texts(v: Seq<String>) -> Seq<Seq<char>> {
    v.map_values(|s: String| s@)
}

/// Whether the entry at `i` is numbered before the one at `j`: its name comes
/// first, or the names are equal and it was listed first.
pub open spec fn sorts_before(names: Seq<Seq<char>>, i: int, j: int) -> bool {
    text_less(names[i], names[j]) || (names[i] == names[j] && i < j)
}

/// Whether `order` lists every position of `names` once, in name order.
pub open spec fn is_sorted_order(names: Seq<Seq<char>>, order: Seq<usize>) -> bool {
    &&& order.len() == names.len()
    &&& forall|i: int| 0 <= i < order.len() ==> #[trigger] order[i] < names.len()
    &&& forall|i: int, j: int|
        0 <= i < j < order.len() ==> sorts_before(names, #[trigger] order[i] as int, #[trigger] order[j] as int)
    &&& forall|i: int, j: int| 0 <= i < order.len() && 0 <= j < order.len() && i != j ==> #[trigger] order[i] != #[trigger] order[j]
}

fn text_less_exec(a: &Vec<char>, b: &Vec<char>) -> (r: bool)
    ensures
        r == text_less(a@, b@),
{
    let mut i: usize = 0;
    assert(a@.skip(0) =~= a@);
    assert(b@.skip(0) =~= b@);
    while i < a.len() && i < b.len() && a[i] == b[i]
        invariant
            i <= a.len(),
            i <= b.len(),
            text_less(a@, b@) == text_less(a@.skip(i as int), b@.skip(i as int)),
        decreases a.len() - i,
    {
        assert(a@.skip(i as int).drop_first() =~= a@.skip(i + 1));
        assert(b@.skip(i as int).drop_first() =~= b@.skip(i + 1));
        i = i + 1;
    }
    let ghost sa = a@.skip(i as int);
    let ghost sb = b@.skip(i as int);
    if i == a.len() {
        i < b.len()
    } else if i == b.len() {
        false
    } else {
        assert(sa[0] == a@[i as int] && sb[0] == b@[i as int]);
        a[i] < b[i]
    }
}

/// The positions of `names` in the order files are numbered: by name, ties
/// in listing order (a stable sort by name).
pub fn sorted_order(names: &Vec<String>) -> (r: Vec<usize>)
    ensures
        is_sorted_order(texts(names@), r@),
{
    let n: usize = names.len();
    let ghost keys = texts(names@);
    let mut chars: Vec<Vec<char>> = Vec::new();
    let mut k: usize = 0;
    while k < n
        invariant
            n == names.len(),
            keys == texts(names@),
            k <= n,
            chars.len() == k,
            forall|q: int| 0 <= q < k ==> (#[trigger] chars@[q])@ == keys[q],
        decreases n - k,
    {
        let c = chars_of(names[k].as_str());
        chars.push(c);
        k = k + 1;
    }
    let mut order: Vec<usize> = Vec::new();
    let mut m: usize = 0;
    while m < n
        invariant
            n == names.len(),
            keys == texts(names@),
            keys.len() == n,
            chars.len() == n,
            forall|q: int| 0 <= q < n ==> (#[trigger] chars@[q])@ == keys[q],
            m <= n,
            order.len() == m,
            forall|i: int| 0 <= i < order.len() ==> #[trigger] order@[i] < m,
            forall|i: int, j: int|
                0 <= i < j < order.len() ==> sorts_before(keys, #[trigger] order@[i] as int, #[trigger] order@[j] as int),
        decreases n - m,
    {
        let mut p: usize = 0;
        while p < order.len() && !text_less_exec(&chars[m], &chars[order[p]])
            invariant
                order.len() == m,
                m < n,
                chars.len() == n,
                forall|q: int| 0 <= q < n ==> (#[trigger] chars@[q])@ == keys[q],
                forall|i: int| 0 <= i < order.len() ==> #[trigger] order@[i] < m,
                p <= order.len(),
                forall|i: int| 0 <= i < p ==> !text_less(keys[m as int], keys[#[trigger] order@[i] as int]),
            decreases order.len() - p,
        {
            p = p + 1;
        }
        let ghost old_order = order@;
        order.insert(p, m);
        proof {
            assert forall|i: int| 0 <= i < order.len() implies #[trigger] order@[i] < m + 1 by {
                if i < p {
                    assert(order@[i] == old_order[i]);
                } else if i > p {
                    assert(order@[i] == old_order[i - 1]);
                }
            }
            assert forall|i: int, j: int|
                0 <= i < j < order.len() implies sorts_before(keys, #[trigger] order@[i] as int, #[trigger] order@[j] as int) by {
                if j < p {
                    assert(order@[i] == old_order[i] && order@[j] == old_order[j]);
                } else if j == p {
                    assert(order@[i] == old_order[i]);
                    let x = old_order[i] as int;
                    assert(!text_less(keys[m as int], keys[x]));
                    lemma_text_less_total(keys[m as int], keys[x]);
                } else if i > p {
                    assert(order@[i] == old_order[i - 1] && order@[j] == old_order[j - 1]);
                } else if i == p {
                    let y = old_order[j - 1] as int;
                    assert(order@[j] == old_order[j - 1]);
                    let z = old_order[p as int] as int;
                    assert(text_less(keys[m as int], keys[z]));
                    if j - 1 > p {
                        assert(sorts_before(keys, z, y));
                        if text_less(keys[z], keys[y]) {
                            lemma_text_less_transitive(keys[m as int], keys[z], keys[y]);
                        }
                    }
                } else {
                    assert(order@[i] == old_order[i] && order@[j] == old_order[j - 1]);
                }
            }
        }
        m = m + 1;
    }
    proof {
        assert forall|i: int, j: int| 0 <= i < order.len() && 0 <= j < order.len() && i != j implies #[trigger] order@[i] != #[trigger] order@[j] by {
            let (a, b) = if i < j { (i, j) } else { (j, i) };
            assert(sorts_before(keys, order@[a] as int, order@[b] as int));
            if order@[a] == order@[b] {
                lemma_text_less_irreflexive(keys[order@[a] as int]);
            }
        }
    }
    order
}

/// `sorts_before` is a strict total order on positions.
proof fn lemma_sorts_before_total(names: Seq<Seq<char>>, x: int, y: int)
    ensures
        x != y ==> (sorts_before(names, x, y) || sorts_before(names, y, x)),
        !(sorts_before(names, x, y) && sorts_before(names, y, x)),
{
    lemma_text_less_total(names[x], names[y]);
    lemma_text_less_irreflexive(names[x]);
}

/// A sorted order lists every position.
proof fn lemma_order_covers(names: Seq<Seq<char>>, order: Seq<usize>, x: int)
    requires
        is_sorted_order(names, order),
        0 <= x < names.len(),
    ensures
        exists|p: int| 0 <= p < order.len() && order[p] == x,
{
    let n = names.len() as int;
    let wide = order.map_values(|v: usize| v as int);
    assert(wide.no_duplicates()) by {
        assert forall|i: int, j: int| 0 <= i < wide.len() && 0 <= j < wide.len() && i != j implies wide[i] != wide[j] by {
            assert(order[i] != order[j]);
        }
    }
    wide.unique_seq_to_set();
    vstd::set_lib::lemma_int_range(0, n);
    let range = vstd::set_lib::set_int_range(0, n);
    assert(wide.to_set().subset_of(range)) by {
        assert forall|v: int| wide.to_set().contains(v) implies range.contains(v) by {
            let i = choose|i: int| 0 <= i < wide.len() && wide[i] == v;
            assert(order[i] < names.len());
        }
    }
    vstd::seq_lib::seq_to_set_is_finite(wide);
    vstd::set_lib::lemma_subset_equality(wide.to_set(), range);
    assert(range.contains(x));
    assert(wide.to_set().contains(x));
    let p = choose|p: int| 0 <= p < wide.len() && wide[p] == x;
    assert(order[p] == x);
}

proof fn lemma_orders_agree_at(names: Seq<Seq<char>>, a: Seq<usize>, b: Seq<usize>, k: int)
    requires
        is_sorted_order(names, a),
        is_sorted_order(names, b),
        0 <= k < a.len(),
        forall|j: int| 0 <= j < k ==> a[j] == b[j],
    ensures
        a[k] == b[k],
{
    let x = a[k] as int;
    let y = b[k] as int;
    if x != y {
        lemma_sorts_before_total(names, x, y);
        if sorts_before(names, x, y) {
            lemma_order_covers(names, b, x);
            let q = choose|q: int| 0 <= q < b.len() && b[q] == x;
            if q < k {
                assert(a[q] == b[q]);
            }
            assert(q > k);
            assert(sorts_before(names, b[k] as int, b[q] as int));
        } else {
            lemma_order_covers(names, a, y);
            let p = choose|p: int| 0 <= p < a.len() && a[p] == y;
            if p < k {
                assert(a[p] == b[p]);
                assert(b[p] == b[k]);
            }
            assert(p > k);
            assert(sorts_before(names, a[k] as int, a[p] as int));
        }
    }
}

/// The order in which files are numbered is determined by their names and
/// listing: two orders that both sort the same names are the same.
pub proof fn lemma_sorted_order_unique(names: Seq<Seq<char>>, a: Seq<usize>, b: Seq<usize>)
    requires
        is_sorted_order(names, a),
        is_sorted_order(names, b),
    ensures
        a == b,
{
    lemma_orders_agree_below(names, a, b, a.len() as int);
    assert(a =~= b);
}

proof fn lemma_orders_agree_below(names: Seq<Seq<char>>, a: Seq<usize>, b: Seq<usize>, k: int)
    requires
        is_sorted_order(names, a),
        is_sorted_order(names, b),
        0 <= k <= a.len(),
    ensures
        forall|j: int| 0 <= j < k ==> a[j] == b[j],
    decreases k,
{
    if k > 0 {
        lemma_orders_agree_below(names, a, b, k - 1);
        lemma_orders_agree_at(names, a, b, k - 1);
    }
}

} // verus!
