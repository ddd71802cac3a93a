//! Stable ordering: insertion into a sorted sequence, and the sort that
//! inserts every element in turn. Equal keys keep the order they arrived in,
//! as `slice::sort_by` and `slice::sort_by_key` promise.

use vstd::prelude::*;

verus! {

/// `x` placed in `s` before the first element it sorts strictly before, and
/// after every element it does not: so after its equals.
pub open spec fn insert_sorted<T>(x: T, s: Seq<T>, lt: spec_fn(T, T) -> bool) -> Seq<T>
    decreases s.len(),
{
    if s.len() == 0 {
        seq![x]
    } else if lt(x, s[0]) {
        seq![x] + s
    } else {
        seq![s[0]] + insert_sorted(x, s.drop_first(), lt)
    }
}

/// `s` stably sorted by `lt`: each element inserted in the order it came.
pub open spec fn sort_by<T>(s: Seq<T>, lt: spec_fn(T, T) -> bool) -> Seq<T>
    decreases s.len(),
{
    if s.len() == 0 {
        s
    } else {
        insert_sorted(s.last(), sort_by(s.drop_last(), lt), lt)
    }
}

/// Inserting at the first element `x` sorts before is a split of `s` there.
pub proof fn lemma_insert_at<T>(x: T, s: Seq<T>, lt: spec_fn(T, T) -> bool, k: int)
    requires
        0 <= k <= s.len(),
        forall|j: int| 0 <= j < k ==> !lt(x, #[trigger] s[j]),
        k == s.len() || lt(x, s[k]),
    ensures
        insert_sorted(x, s, lt) == s.take(k) + seq![x] + s.skip(k),
    decreases s.len(),
{
    if s.len() == 0 {
        assert(s.take(k) + seq![x] + s.skip(k) =~= seq![x]);
    } else if k == 0 {
        assert(s.take(k) + seq![x] + s.skip(k) =~= seq![x] + s);
    } else {
        let t = s.drop_first();
        assert forall|j: int| 0 <= j < k - 1 implies !lt(x, #[trigger] t[j]) by {
            assert(t[j] == s[j + 1]);
        }
        if k < s.len() {
            assert(t[k - 1] == s[k]);
        }
        lemma_insert_at(x, t, lt, k - 1);
        assert(seq![s[0]] + (t.take(k - 1) + seq![x] + t.skip(k - 1)) =~= s.take(k) + seq![x]
            + s.skip(k));
    }
}

/// True when `lt` is a strict order: nothing sorts before itself, and
/// sorting before is carried along a chain.
pub open spec fn strict_order<T>(lt: spec_fn(T, T) -> bool) -> bool {
    &&& forall|a: T| !#[trigger] lt(a, a)
    &&& forall|a: T, b: T, c: T| #[trigger] lt(a, b) && #[trigger] lt(b, c) ==> lt(a, c)
}

/// True when no element of `s` sorts strictly before one that comes earlier.
pub open spec fn in_order<T>(s: Seq<T>, lt: spec_fn(T, T) -> bool) -> bool {
    forall|i: int, j: int| 0 <= i < j < s.len() ==> !lt(#[trigger] s[j], #[trigger] s[i])
}

/// Inserting adds the one element and loses none.
pub proof fn lemma_insert_sorted_multiset<T>(x: T, s: Seq<T>, lt: spec_fn(T, T) -> bool)
    ensures
        insert_sorted(x, s, lt).to_multiset() == s.to_multiset().insert(x),
    decreases s.len(),
{
    broadcast use vstd::seq_lib::group_to_multiset_ensures, vstd::multiset::group_multiset_axioms;

    if s.len() == 0 {
        assert(seq![x] =~= Seq::<T>::empty().push(x));
        assert(Seq::<T>::empty().to_multiset() =~= vstd::multiset::Multiset::empty());
        assert(insert_sorted(x, s, lt).to_multiset() =~= s.to_multiset().insert(x));
    } else {
        let t = s.drop_first();
        assert(s =~= seq![s[0]] + t);
        assert(seq![s[0]] =~= Seq::<T>::empty().push(s[0]));
        assert(seq![x] =~= Seq::<T>::empty().push(x));
        assert(Seq::<T>::empty().to_multiset() =~= vstd::multiset::Multiset::empty());
        vstd::seq_lib::lemma_multiset_commutative(seq![s[0]], t);
        if lt(x, s[0]) {
            vstd::seq_lib::lemma_multiset_commutative(seq![x], s);
            assert(insert_sorted(x, s, lt).to_multiset() =~= s.to_multiset().insert(x));
        } else {
            lemma_insert_sorted_multiset(x, t, lt);
            vstd::seq_lib::lemma_multiset_commutative(seq![s[0]], insert_sorted(x, t, lt));
            assert(insert_sorted(x, s, lt).to_multiset() =~= s.to_multiset().insert(x));
        }
    }
}

/// Sorting loses and adds nothing: each element comes out as often as it
/// went in.
pub proof fn lemma_sort_by_multiset<T>(s: Seq<T>, lt: spec_fn(T, T) -> bool)
    ensures
        sort_by(s, lt).to_multiset() == s.to_multiset(),
    decreases s.len(),
{
    broadcast use vstd::seq_lib::group_to_multiset_ensures;

    if s.len() > 0 {
        lemma_sort_by_multiset(s.drop_last(), lt);
        lemma_insert_sorted_multiset(s.last(), sort_by(s.drop_last(), lt), lt);
        assert(s =~= s.drop_last().push(s.last()));
    }
}

/// Inserting into a sequence in order keeps it in order.
pub proof fn lemma_insert_sorted_in_order<T>(x: T, s: Seq<T>, lt: spec_fn(T, T) -> bool)
    requires
        strict_order(lt),
        in_order(s, lt),
    ensures
        in_order(insert_sorted(x, s, lt), lt),
    decreases s.len(),
{
    broadcast use vstd::seq_lib::group_to_multiset_ensures;

    let r = insert_sorted(x, s, lt);
    if s.len() == 0 {
    } else if lt(x, s[0]) {
        assert forall|i: int, j: int| 0 <= i < j < r.len() implies !lt(#[trigger] r[j], #[trigger] r[i]) by {
            if i == 0 {
                assert(r[j] == s[j - 1]);
                if lt(s[j - 1], x) {
                    assert(lt(s[j - 1], s[0]));
                }
            } else {
                assert(r[i] == s[i - 1] && r[j] == s[j - 1]);
            }
        }
    } else {
        let t = s.drop_first();
        assert forall|i: int, j: int| 0 <= i < j < t.len() implies !lt(#[trigger] t[j], #[trigger] t[i]) by {
            assert(t[i] == s[i + 1] && t[j] == s[j + 1]);
        }
        lemma_insert_sorted_in_order(x, t, lt);
        lemma_insert_sorted_multiset(x, t, lt);
        let u = insert_sorted(x, t, lt);
        assert(r == seq![s[0]] + u);
        assert forall|i: int, j: int| 0 <= i < j < r.len() implies !lt(#[trigger] r[j], #[trigger] r[i]) by {
            if i == 0 {
                assert(r[j] == u[j - 1]);
                assert(u.contains(u[j - 1]));
                assert(u.to_multiset().count(u[j - 1]) > 0);
                if u[j - 1] != x {
                    assert(t.to_multiset().count(u[j - 1]) > 0);
                    assert(t.contains(u[j - 1]));
                    let m = choose|m: int| 0 <= m < t.len() && t[m] == u[j - 1];
                    assert(t[m] == s[m + 1]);
                }
            } else {
                assert(r[i] == u[i - 1] && r[j] == u[j - 1]);
            }
        }
    }
}

/// Sorting by a strict order puts the sequence in order.
pub proof fn lemma_sort_by_in_order<T>(s: Seq<T>, lt: spec_fn(T, T) -> bool)
    requires
        strict_order(lt),
    ensures
        in_order(sort_by(s, lt), lt),
    decreases s.len(),
{
    if s.len() > 0 {
        lemma_sort_by_in_order(s.drop_last(), lt);
        lemma_insert_sorted_in_order(s.last(), sort_by(s.drop_last(), lt), lt);
    }
}

/// True when any two different elements of `s` sort one before the other.
pub open spec fn comparable<T>(s: Seq<T>, lt: spec_fn(T, T) -> bool) -> bool {
    forall|x: T, y: T|
        s.contains(x) && s.contains(y) && x != y ==> #[trigger] lt(x, y) || #[trigger] lt(y, x)
}

/// Two sequences in order that hold the same elements, any two different
/// of which are comparable, are one sequence.
pub proof fn lemma_in_order_unique<T>(a: Seq<T>, b: Seq<T>, lt: spec_fn(T, T) -> bool)
    requires
        in_order(a, lt),
        in_order(b, lt),
        a.to_multiset() == b.to_multiset(),
        comparable(a, lt),
    ensures
        a == b,
    decreases a.len(),
{
    broadcast use vstd::seq_lib::group_to_multiset_ensures;

    assert(a.len() == a.to_multiset().len());
    assert(b.len() == b.to_multiset().len());
    if a.len() > 0 {
        assert(a.contains(a[0]));
        assert(b.to_multiset().count(a[0]) > 0);
        assert(b.contains(a[0]));
        let k = choose|k: int| 0 <= k < b.len() && b[k] == a[0];
        assert(b.contains(b[0]));
        assert(a.to_multiset().count(b[0]) > 0);
        assert(a.contains(b[0]));
        let m = choose|m: int| 0 <= m < a.len() && a[m] == b[0];
        if a[0] != b[0] {
            if lt(a[0], b[0]) {
                assert(!lt(b[k], b[0]));
            } else {
                assert(lt(b[0], a[0]));
                assert(!lt(a[m], a[0]));
            }
        }
        let a1 = a.drop_first();
        let b1 = b.drop_first();
        assert(a.remove(0) =~= a1);
        assert(b.remove(0) =~= b1);
        assert(a1.to_multiset() == b1.to_multiset());
        assert forall|i: int, j: int| 0 <= i < j < a1.len() implies !lt(#[trigger] a1[j], #[trigger] a1[i]) by {
            assert(a1[i] == a[i + 1] && a1[j] == a[j + 1]);
        }
        assert forall|i: int, j: int| 0 <= i < j < b1.len() implies !lt(#[trigger] b1[j], #[trigger] b1[i]) by {
            assert(b1[i] == b[i + 1] && b1[j] == b[j + 1]);
        }
        assert forall|x: T, y: T| a1.contains(x) && a1.contains(y) && x != y implies #[trigger] lt(x, y)
            || #[trigger] lt(y, x) by {
            let i = choose|i: int| 0 <= i < a1.len() && a1[i] == x;
            let j = choose|j: int| 0 <= j < a1.len() && a1[j] == y;
            assert(a[i + 1] == x && a[j + 1] == y);
            assert(a.contains(x) && a.contains(y));
        }
        lemma_in_order_unique(a1, b1, lt);
        assert(a =~= seq![a[0]] + a1);
        assert(b =~= seq![b[0]] + b1);
    }
}

/// Two different texts sort one before the other.
pub proof fn lemma_text_lt_total(a: Seq<char>, b: Seq<char>)
    requires
        a != b,
    ensures
        text_lt(a, b) || text_lt(b, a),
    decreases a.len(),
{
    if a.len() > 0 && b.len() > 0 {
        if a[0] == b[0] {
            if a.drop_first() == b.drop_first() {
                assert(a =~= seq![a[0]] + a.drop_first());
                assert(b =~= seq![b[0]] + b.drop_first());
            }
            lemma_text_lt_total(a.drop_first(), b.drop_first());
        } else {
            vstd::utf8::char_u32_cast(a[0], a[0] as u32);
            vstd::utf8::char_u32_cast(b[0], b[0] as u32);
        }
    } else if a.len() == 0 && b.len() == 0 {
        assert(a =~= b);
    }
}

/// True when no two elements of `s`, at different places, are related by
/// `rel`.
pub open spec fn apart<T>(s: Seq<T>, rel: spec_fn(T, T) -> bool) -> bool {
    forall|i: int, j: int|
        0 <= i < s.len() && 0 <= j < s.len() && i != j ==> !rel(#[trigger] s[i], #[trigger] s[j])
}

/// An element that occurs twice in `s` occurs at two places.
proof fn lemma_twice_two_places<T>(s: Seq<T>, x: T)
    requires
        s.to_multiset().count(x) >= 2,
    ensures
        exists|p: int, q: int| 0 <= p < s.len() && 0 <= q < s.len() && p != q && s[p] == x && s[q] == x,
{
    broadcast use vstd::seq_lib::group_to_multiset_ensures;

    assert(s.contains(x));
    let p = choose|p: int| 0 <= p < s.len() && s[p] == x;
    assert(s.remove(p).to_multiset() =~= s.to_multiset().remove(x));
    assert(s.remove(p).to_multiset().count(x) > 0);
    assert(s.remove(p).contains(x));
    let r = choose|r: int| 0 <= r < s.remove(p).len() && s.remove(p)[r] == x;
    let q = if r < p { r } else { r + 1 };
    assert(s[q] == x);
}

/// Reordering keeps elements apart.
pub proof fn lemma_apart_permuted<T>(a: Seq<T>, b: Seq<T>, rel: spec_fn(T, T) -> bool)
    requires
        a.to_multiset() == b.to_multiset(),
        apart(a, rel),
    ensures
        apart(b, rel),
{
    broadcast use vstd::seq_lib::group_to_multiset_ensures;

    assert forall|i: int, j: int|
        0 <= i < b.len() && 0 <= j < b.len() && i != j implies !rel(#[trigger] b[i], #[trigger] b[j]) by {
        if b[i] == b[j] {
            let x = b[i];
            assert(b.remove(j).to_multiset() =~= b.to_multiset().remove(x));
            let k = if i < j { i } else { i - 1 };
            assert(b.remove(j)[k] == x);
            assert(b.remove(j).contains(x));
            assert(b.remove(j).to_multiset().count(x) > 0);
            assert(a.to_multiset().count(x) >= 2);
            lemma_twice_two_places(a, x);
            let (p, q) = choose|p: int, q: int|
                0 <= p < a.len() && 0 <= q < a.len() && p != q && a[p] == x && a[q] == x;
            assert(!rel(a[p], a[q]));
        } else {
            assert(b.contains(b[i]) && b.contains(b[j]));
            assert(a.to_multiset().count(b[i]) > 0 && a.to_multiset().count(b[j]) > 0);
            assert(a.contains(b[i]) && a.contains(b[j]));
            let p = choose|p: int| 0 <= p < a.len() && a[p] == b[i];
            let q = choose|q: int| 0 <= q < a.len() && a[q] == b[j];
            assert(!rel(a[p], a[q]));
        }
    }
}

/// What a reordering holds, its source held.
pub proof fn lemma_permuted_contains<T>(a: Seq<T>, b: Seq<T>, i: int)
    requires
        a.to_multiset() == b.to_multiset(),
        0 <= i < b.len(),
    ensures
        a.contains(b[i]),
        a.len() == b.len(),
{
    broadcast use vstd::seq_lib::group_to_multiset_ensures;

    assert(b.contains(b[i]));
    assert(a.to_multiset().count(b[i]) > 0);
    assert(a.len() == a.to_multiset().len());
    assert(b.len() == b.to_multiset().len());
}

/// Lexicographic order on text by code point, which for UTF-8 is the order
/// `String`'s `Ord` gives by comparing bytes.
pub open spec fn text_lt(a: Seq<char>, b: Seq<char>) -> bool
    decreases a.len(),
{
    if a.len() == 0 {
        b.len() > 0
    } else if b.len() == 0 {
        false
    } else if a[0] != b[0] {
        (a[0] as u32) < (b[0] as u32)
    } else {
        text_lt(a.drop_first(), b.drop_first())
    }
}

/// No text sorts before itself.
pub proof fn lemma_text_lt_irreflexive(a: Seq<char>)
    ensures
        !text_lt(a, a),
    decreases a.len(),
{
    if a.len() > 0 {
        lemma_text_lt_irreflexive(a.drop_first());
    }
}

/// Text order is carried along a chain.
pub proof fn lemma_text_lt_transitive(a: Seq<char>, b: Seq<char>, c: Seq<char>)
    requires
        text_lt(a, b),
        text_lt(b, c),
    ensures
        text_lt(a, c),
    decreases a.len(),
{
    if a.len() > 0 && a[0] == b[0] && b[0] == c[0] {
        lemma_text_lt_transitive(a.drop_first(), b.drop_first(), c.drop_first());
    }
}

/// Whether `a` sorts strictly before `b`.
pub fn chars_lt(a: &[char], b: &[char]) -> (r: bool)
    ensures
        r == text_lt(a@, b@),
{
    let mut i: usize = 0;
    assert(a@.skip(0) =~= a@);
    assert(b@.skip(0) =~= b@);
    while i < a.len() && i < b.len()
        invariant
            i <= a@.len(),
            i <= b@.len(),
            text_lt(a@, b@) == text_lt(a@.skip(i as int), b@.skip(i as int)),
        decreases a@.len() - i,
    {
        assert(a@.skip(i as int)[0] == a@[i as int]);
        assert(b@.skip(i as int)[0] == b@[i as int]);
        if a[i] != b[i] {
            return (a[i] as u32) < (b[i] as u32);
        }
        assert(a@.skip(i as int).drop_first() =~= a@.skip(i + 1));
        assert(b@.skip(i as int).drop_first() =~= b@.skip(i + 1));
        i = i + 1;
    }
    a.len() == i && b.len() > i
}

/// Whether text `a` sorts strictly before text `b`.
pub fn text_before(a: &str, b: &str) -> (r: bool)
    ensures
        r == text_lt(a@, b@),
{
    let x = crate::text::chars_of(a);
    let y = crate::text::chars_of(b);
    chars_lt(&x, &y)
}

/// Text order as a relation.
pub open spec fn text_order_by() -> spec_fn(Seq<char>, Seq<char>) -> bool {
    |a: Seq<char>, b: Seq<char>| text_lt(a, b)
}

/// `v` sorted by text, as `String`'s order sorts it.
pub fn sort_texts(v: Vec<String>) -> (out: Vec<String>)
    ensures
        crate::text::texts(out@) == sort_by(crate::text::texts(v@), text_order_by()),
{
    let ghost orig = crate::text::texts(v@);
    let mut rest = v;
    let count = rest.len();
    let mut out: Vec<String> = Vec::new();
    let mut i: usize = 0;
    assert(orig.skip(0) =~= orig);
    assert(orig.take(0) =~= Seq::<Seq<char>>::empty());
    assert(crate::text::texts(out@) =~= Seq::<Seq<char>>::empty());
    while rest.len() > 0
        invariant
            i + rest@.len() == orig.len(),
            orig.len() == count,
            crate::text::texts(rest@) == orig.skip(i as int),
            crate::text::texts(out@) == sort_by(orig.take(i as int), text_order_by()),
        decreases rest@.len(),
    {
        let ghost before = rest@;
        let x = rest.remove(0);
        assert(crate::text::texts(before)[0] == x@);
        assert(orig.skip(i as int)[0] == orig[i as int]);
        assert(crate::text::texts(rest@) =~= crate::text::texts(before).drop_first());
        assert(orig.skip(i as int).drop_first() =~= orig.skip(i + 1));
        let ghost sorted = crate::text::texts(out@);
        let mut k: usize = 0;
        while k < out.len() && !text_before(x.as_str(), out[k].as_str())
            invariant
                k <= out@.len(),
                sorted == crate::text::texts(out@),
                forall|j: int| 0 <= j < k ==> !(text_order_by())(x@, #[trigger] sorted[j]),
            decreases out@.len() - k,
        {
            assert(sorted[k as int] == out@[k as int]@);
            k = k + 1;
        }
        proof {
            if k < out@.len() {
                assert(sorted[k as int] == out@[k as int]@);
            }
            lemma_insert_at(x@, sorted, text_order_by(), k as int);
            assert(orig.take(i + 1).drop_last() =~= orig.take(i as int));
        }
        out.insert(k, x);
        i = i + 1;
        assert(crate::text::texts(out@) =~= sorted.take(k as int) + seq![x@] + sorted.skip(k as int));
    }
    assert(orig.take(i as int) =~= orig);
    out
}

} // verus!
