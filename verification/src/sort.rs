//! A stable sort, specified by the order it establishes and the arrangement it keeps.

use vstd::prelude::*;

verus! {

/// A strict weak order on a type, with an executable test.
pub trait SortOrder: Sized {
    /// `self` sorts strictly before `other`.
    spec fn precedes(self, other: Self) -> bool;

    /// The order is irreflexive, transitive, and its incomparability is transitive.
    proof fn lemma_strict_weak_order(a: Self, b: Self, c: Self)
        ensures
            !a.precedes(a),
            a.precedes(b) && b.precedes(c) ==> a.precedes(c),
            !a.precedes(b) && !b.precedes(c) ==> !a.precedes(c),
    ;

    /// Whether `self` sorts strictly before `other`.
    fn precedes_exec(&self, other: &Self) -> (r: bool)
        ensures
            r == self.precedes(*other),
    ;
}

/// No item of `s` sorts strictly before (by `prec`) an item that comes earlier.
pub open spec fn is_sorted_by<T>(s: Seq<T>, prec: spec_fn(T, T) -> bool) -> bool {
    forall|i: int, j: int| 0 <= i < j < s.len() ==> !prec(#[trigger] s[j], #[trigger] s[i])
}

/// `out[i]` is `input[p[i]]`: the first `out.len()` items of `input`, each taken once,
/// sorted by `prec`, with items that neither precedes kept in their `input` order.
pub open spec fn is_stable_arrangement<T>(
    out: Seq<T>,
    input: Seq<T>,
    p: Seq<int>,
    prec: spec_fn(T, T) -> bool,
) -> bool {
    &&& p.len() == out.len()
    &&& out.len() <= input.len()
    &&& forall|i: int|
        0 <= i < out.len() ==> 0 <= #[trigger] p[i] < out.len() && out[i] == input[p[i]]
    &&& forall|i: int, j: int| 0 <= i < j < out.len() ==> #[trigger] p[i] != #[trigger] p[j]
    &&& is_sorted_by(out, prec)
    &&& forall|i: int, j: int|
        0 <= i < j < out.len() && !prec(#[trigger] out[i], #[trigger] out[j]) ==> p[i] < p[j]
}

/// `out` is `input` sorted stably by `prec`: a rearrangement of all of `input` that is
/// sorted and keeps items that neither precedes in their input order.
pub open spec fn is_stable_sort_of<T>(
    out: Seq<T>,
    input: Seq<T>,
    prec: spec_fn(T, T) -> bool,
) -> bool {
    &&& out.len() == input.len()
    &&& exists|p: Seq<int>| is_stable_arrangement(out, input, p, prec)
}

/// The order of a `SortOrder` type as a spec closure.
pub open spec fn order_of<T: SortOrder>() -> spec_fn(T, T) -> bool {
    |a: T, b: T| a.precedes(b)
}

/// A stable sort carries over to the images of the items under `f` when `f` maps the
/// order `prec` onto `prec_v`.
pub proof fn lemma_stable_sort_map<T, V>(
    out: Seq<T>,
    input: Seq<T>,
    prec: spec_fn(T, T) -> bool,
    f: spec_fn(T) -> V,
    prec_v: spec_fn(V, V) -> bool,
)
    requires
        is_stable_sort_of(out, input, prec),
        forall|a: T, b: T| #[trigger] prec(a, b) == prec_v(f(a), f(b)),
    ensures
        is_stable_sort_of(out.map_values(f), input.map_values(f), prec_v),
{
    let p = choose|p: Seq<int>| is_stable_arrangement(out, input, p, prec);
    let o = out.map_values(f);
    let n = input.map_values(f);
    assert forall|i: int, j: int| 0 <= i < j < o.len() implies !prec_v(#[trigger] o[j], #[trigger] o[i]) by {
        assert(!prec(out[j], out[i]));
    }
    assert forall|i: int, j: int|
        0 <= i < j < o.len() && !prec_v(#[trigger] o[i], #[trigger] o[j]) implies p[i] < p[j] by {
        assert(!prec(out[i], out[j]));
    }
    assert forall|i: int| 0 <= i < o.len() implies 0 <= #[trigger] p[i] < o.len() && o[i] == n[p[i]] by {
        assert(out[i] == input[p[i]]);
    }
    assert(is_stable_arrangement(o, n, p, prec_v));
}

/// Some entry of `p` is `x`.
pub open spec fn takes(p: Seq<int>, x: int) -> bool {
    exists|i: int| 0 <= i < p.len() && p[i] == x
}

proof fn lemma_arrangement_onto<T>(
    out: Seq<T>,
    input: Seq<T>,
    p: Seq<int>,
    prec: spec_fn(T, T) -> bool,
)
    requires
        out.len() == input.len(),
        is_stable_arrangement(out, input, p, prec),
    ensures
        forall|x: int| 0 <= x < input.len() ==> #[trigger] takes(p, x),
{
    let n = input.len() as int;
    assert(p.no_duplicates()) by {
        assert forall|i: int, j: int| 0 <= i < p.len() && 0 <= j < p.len() && i != j implies p[i]
            != p[j] by {
            if i < j {
                assert(p[i] != p[j]);
            } else {
                assert(p[j] != p[i]);
            }
        }
    }
    p.unique_seq_to_set();
    vstd::set_lib::lemma_int_range(0, n);
    let range = vstd::set_lib::set_int_range(0, n);
    assert forall|x: int| p.to_set().contains(x) implies range.contains(x) by {
        let i = choose|i: int| 0 <= i < p.len() && p[i] == x;
        assert(0 <= p[i] < out.len());
    }
    vstd::set_lib::lemma_subset_equality(p.to_set(), range);
    assert forall|x: int| 0 <= x < n implies #[trigger] takes(p, x) by {
        assert(range.contains(x));
        assert(p.to_set().contains(x));
        assert(p.contains(x));
    }
}

/// The order in which a stable arrangement takes the items of `input`: by `prec`, and
/// by input position among items that neither precedes.
pub open spec fn index_before<T>(input: Seq<T>, prec: spec_fn(T, T) -> bool, x: int, y: int) -> bool {
    prec(input[x], input[y]) || (!prec(input[y], input[x]) && x < y)
}

proof fn lemma_arrangement_increasing<T>(
    out: Seq<T>,
    input: Seq<T>,
    p: Seq<int>,
    prec: spec_fn(T, T) -> bool,
)
    requires
        is_stable_arrangement(out, input, p, prec),
    ensures
        forall|i: int, j: int|
            0 <= i < j < p.len() ==> index_before(input, prec, #[trigger] p[i], #[trigger] p[j]),
{
    assert forall|i: int, j: int| 0 <= i < j < p.len() implies index_before(
        input,
        prec,
        #[trigger] p[i],
        #[trigger] p[j],
    ) by {
        assert(out[i] == input[p[i]] && out[j] == input[p[j]]);
        assert(!prec(out[j], out[i]));
        if !prec(out[i], out[j]) {
            assert(p[i] < p[j]);
        }
    }
}

proof fn lemma_same_prefix<T>(
    a: Seq<T>,
    b: Seq<T>,
    input: Seq<T>,
    pa: Seq<int>,
    pb: Seq<int>,
    prec: spec_fn(T, T) -> bool,
    k: int,
)
    requires
        forall|x: T, y: T| #[trigger] prec(x, y) ==> !prec(y, x),
        a.len() == input.len(),
        b.len() == input.len(),
        is_stable_arrangement(a, input, pa, prec),
        is_stable_arrangement(b, input, pb, prec),
        0 <= k <= input.len(),
    ensures
        forall|i: int| 0 <= i < k ==> pa[i] == pb[i],
    decreases k,
{
    if k > 0 {
        lemma_same_prefix(a, b, input, pa, pb, prec, k - 1);
        let i = k - 1;
        let x = pa[i];
        let y = pb[i];
        if x != y {
            lemma_arrangement_onto(a, input, pa, prec);
            lemma_arrangement_onto(b, input, pb, prec);
            lemma_arrangement_increasing(a, input, pa, prec);
            lemma_arrangement_increasing(b, input, pb, prec);
            assert(0 <= x < input.len() && 0 <= y < input.len());
            assert(takes(pb, x) && takes(pa, y));
            if index_before(input, prec, x, y) {
                let m = choose|m: int| 0 <= m < pb.len() && pb[m] == x;
                if m < i {
                    assert(pa[m] == x);
                    assert(pa[m] != pa[i]);
                } else {
                    assert(m != i);
                    assert(index_before(input, prec, pb[i], pb[m]));
                }
            } else {
                let m = choose|m: int| 0 <= m < pa.len() && pa[m] == y;
                if m < i {
                    assert(pb[m] == y);
                    assert(pb[m] != pb[i]);
                } else {
                    assert(m != i);
                    assert(index_before(input, prec, pa[i], pa[m]));
                }
            }
        }
    }
}

/// A stable sort is determined by its input: two stable sorts of the same input by an
/// asymmetric order are equal.
pub proof fn lemma_stable_sort_unique<T>(
    a: Seq<T>,
    b: Seq<T>,
    input: Seq<T>,
    prec: spec_fn(T, T) -> bool,
)
    requires
        forall|x: T, y: T| #[trigger] prec(x, y) ==> !prec(y, x),
        is_stable_sort_of(a, input, prec),
        is_stable_sort_of(b, input, prec),
    ensures
        a == b,
{
    let pa = choose|p: Seq<int>| is_stable_arrangement(a, input, p, prec);
    let pb = choose|p: Seq<int>| is_stable_arrangement(b, input, p, prec);
    lemma_same_prefix(a, b, input, pa, pb, prec, input.len() as int);
    assert forall|i: int| 0 <= i < a.len() implies a[i] == b[i] by {
        assert(a[i] == input[pa[i]]);
        assert(b[i] == input[pb[i]]);
    }
    assert(a =~= b);
}

proof fn lemma_insert_keeps_arrangement<T: SortOrder>(
    out: Seq<T>,
    input: Seq<T>,
    p: Seq<int>,
    pos: int,
)
    requires
        out.len() < input.len(),
        is_stable_arrangement(out, input, p, order_of::<T>()),
        0 <= pos <= out.len(),
        pos > 0 ==> !input[out.len() as int].precedes(out[pos - 1]),
        forall|j: int| pos <= j < out.len() ==> input[out.len() as int].precedes(#[trigger] out[j]),
    ensures
        is_stable_arrangement(
            out.insert(pos, input[out.len() as int]),
            input,
            p.insert(pos, out.len() as int),
            order_of::<T>(),
        ),
{
    let k = out.len() as int;
    let x = input[k];
    let o2 = out.insert(pos, x);
    let p2 = p.insert(pos, k);
    assert forall|i: int| 0 <= i < pos implies !x.precedes(#[trigger] out[i]) by {
        T::lemma_strict_weak_order(x, out[pos - 1], out[i]);
        if i < pos - 1 {
            assert(!out[pos - 1].precedes(out[i]));
        }
    }
    assert forall|j: int| pos <= j < k implies !(#[trigger] out[j]).precedes(x) by {
        T::lemma_strict_weak_order(x, out[j], x);
    }
    assert forall|i: int| 0 <= i < o2.len() implies 0 <= #[trigger] p2[i] < o2.len() && o2[i]
        == input[p2[i]] by {
        if i > pos {
            assert(p2[i] == p[i - 1]);
        }
    }
    assert forall|i: int, j: int| 0 <= i < j < o2.len() implies #[trigger] p2[i]
        != #[trigger] p2[j] by {
        if i < pos && j > pos {
            assert(p2[j] == p[j - 1]);
        } else if i > pos {
            assert(p2[i] == p[i - 1] && p2[j] == p[j - 1]);
        } else if j == pos {
            assert(p[i] < k);
        } else if i == pos {
            assert(p2[j] == p[j - 1]);
            assert(p[j - 1] < k);
        }
    }
    assert forall|i: int, j: int| 0 <= i < j < o2.len() implies !(#[trigger] o2[j]).precedes(
        #[trigger] o2[i],
    ) by {
        if j < pos {
        } else if j == pos {
            assert(o2[i] == out[i]);
        } else if i == pos {
            assert(o2[j] == out[j - 1]);
        } else if i < pos {
            assert(o2[i] == out[i] && o2[j] == out[j - 1]);
        } else {
            assert(o2[i] == out[i - 1] && o2[j] == out[j - 1]);
        }
    }
    assert forall|i: int, j: int|
        0 <= i < j < o2.len() && !(#[trigger] o2[i]).precedes(#[trigger] o2[j]) implies p2[i]
        < p2[j] by {
        if j < pos {
        } else if j == pos {
            assert(p[i] < k);
        } else if i == pos {
            assert(o2[j] == out[j - 1]);
            assert(x.precedes(out[j - 1]));
        } else if i < pos {
            assert(o2[i] == out[i] && o2[j] == out[j - 1]);
            assert(p2[j] == p[j - 1]);
        } else {
            assert(o2[i] == out[i - 1] && o2[j] == out[j - 1]);
            assert(p2[i] == p[i - 1] && p2[j] == p[j - 1]);
        }
    }
}

/// Sorts `items` stably (insertion sort: each item goes after every earlier item that
/// it does not strictly precede).
pub fn stable_sort<T: SortOrder>(items: Vec<T>) -> (out: Vec<T>)
    ensures
        is_stable_sort_of(out@, items@, order_of::<T>()),
{
    let ghost input = items@;
    let mut rest = items;
    let mut out: Vec<T> = Vec::new();
    let ghost mut p: Seq<int> = Seq::empty();
    while rest.len() > 0
        invariant
            out@.len() + rest@.len() == input.len(),
            rest@ == input.skip(out@.len() as int),
            is_stable_arrangement(out@, input, p, order_of::<T>()),
        decreases rest@.len(),
    {
        let ghost k = out@.len() as int;
        assert(rest@[0] == input[k]);
        let x = rest.remove(0);
        assert(rest@ =~= input.skip(k + 1));
        let mut pos = out.len();
        while pos > 0 && x.precedes_exec(&out[pos - 1])
            invariant
                pos <= out@.len(),
                forall|j: int| pos <= j < out@.len() ==> x.precedes(#[trigger] out@[j]),
            decreases pos,
        {
            pos -= 1;
        }
        proof {
            lemma_insert_keeps_arrangement(out@, input, p, pos as int);
        }
        out.insert(pos, x);
        proof {
            p = p.insert(pos as int, k);
        }
    }
    assert(is_stable_arrangement(out@, items@, p, order_of::<T>()));
    out
}

} // verus!
