//! The order of texts, and sorting.
use crate::text::{chars_of, views};
use vstd::prelude::*;
use vstd::set_lib::lemma_int_range;
use vstd::set_lib::lemma_len_subset;
use vstd::set_lib::set_int_range;

verus! {

/// `a` comes before `b` in the order of their characters, a text before its continuations.
pub open spec fn text_less(a: Seq<char>, b: Seq<char>) -> bool
    decreases a.len(),
{
    if b.len() == 0 {
        false
    } else if a.len() == 0 {
        true
    } else if a[0] != b[0] {
        a[0] < b[0]
    } else {
        text_less(a.skip(1), b.skip(1))
    }
}

/// No text comes before itself, and of two texts at most one comes before the other.
pub proof fn text_less_is_asymmetric(a: Seq<char>, b: Seq<char>)
    ensures
        !(text_less(a, b) && text_less(b, a)),
    decreases a.len(),
{
    if a.len() > 0 && b.len() > 0 && a[0] == b[0] {
        text_less_is_asymmetric(a.skip(1), b.skip(1));
    }
}

/// Of two different texts one comes before the other.
pub proof fn text_less_is_total(a: Seq<char>, b: Seq<char>)
    ensures
        text_less(a, b) || text_less(b, a) || a == b,
    decreases a.len(),
{
    if a.len() > 0 && b.len() > 0 && a[0] == b[0] {
        text_less_is_total(a.skip(1), b.skip(1));
        if a.skip(1) == b.skip(1) {
            assert(a == seq![a[0]] + a.skip(1));
            assert(b == seq![b[0]] + b.skip(1));
        }
    } else if a.len() == 0 && b.len() == 0 {
        assert(a == b);
    }
}

/// The order of texts can be followed step by step.
pub proof fn text_less_is_transitive(a: Seq<char>, b: Seq<char>, c: Seq<char>)
    requires
        text_less(a, b),
        text_less(b, c),
    ensures
        text_less(a, c),
    decreases a.len(),
{
    if a.len() > 0 && a[0] == b[0] && b[0] == c[0] {
        text_less_is_transitive(a.skip(1), b.skip(1), c.skip(1));
    }
}

/// A text that is not before a second one, which is not before a third, is not before the third.
pub proof fn text_not_less_chains(a: Seq<char>, b: Seq<char>, c: Seq<char>)
    requires
        !text_less(a, b),
        !text_less(b, c),
    ensures
        !text_less(a, c),
{
    text_less_is_total(a, b);
    text_less_is_total(b, c);
    text_less_is_asymmetric(a, c);
    if text_less(a, c) && text_less(c, b) {
        text_less_is_transitive(a, c, b);
    }
}

/// Whether `a` comes before `b`.
pub fn is_less(left: &str, right: &str) -> (yes: bool)
    ensures
        yes == text_less(left@, right@),
{
    let a = chars_of(left);
    let b = chars_of(right);
    let mut i: usize = 0;
    assert(a@.skip(0) == a@);
    assert(b@.skip(0) == b@);
    while i < a.len() && i < b.len()
        invariant
            i <= a.len(),
            i <= b.len(),
            text_less(left@, right@) == text_less(a@.skip(i as int), b@.skip(i as int)),
        decreases a.len() - i,
    {
        if a[i] != b[i] {
            return a[i] < b[i];
        }
        assert(a@.skip(i as int).skip(1) == a@.skip(i + 1));
        assert(b@.skip(i as int).skip(1) == b@.skip(i + 1));
        i += 1;
    }
    i < b.len()
}

/// Values with an order in which two of them may stand level.
pub trait Ranked: Sized {
    /// This value has to stand before the other one.
    spec fn before(self, other: Self) -> bool;

    /// Of two values at most one has to stand before the other.
    proof fn before_is_asymmetric(a: Self, b: Self)
        ensures
            !(a.before(b) && b.before(a)),
    ;

    /// Where no step of a chain is forced, neither is the whole.
    proof fn not_before_chains(a: Self, b: Self, c: Self)
        requires
            !a.before(b),
            !b.before(c),
        ensures
            !a.before(c),
    ;

    /// Whether this value has to stand before the other one.
    fn is_before(&self, other: &Self) -> (yes: bool)
        ensures
            yes == self.before(*other),
    ;
}

/// `places` names every index below `n` once.
pub open spec fn is_arrangement(places: Seq<int>, n: int) -> bool {
    &&& places.len() == n
    &&& forall|i: int| 0 <= i < n ==> 0 <= #[trigger] places[i] < n
    &&& forall|i: int, j: int| 0 <= i < j < n ==> places[i] != places[j]
}

/// An arrangement names every index.
pub proof fn arrangement_is_complete(places: Seq<int>, n: int, k: int)
    requires
        is_arrangement(places, n),
        0 <= k < n,
    ensures
        exists|i: int| 0 <= i < n && #[trigger] places[i] == k,
{
    if !places.contains(k) {
        let named = places.to_set();
        let others = set_int_range(0, n).remove(k);
        assert(places.no_duplicates());
        places.unique_seq_to_set();
        lemma_int_range(0, n);
        assert(named.subset_of(others)) by {
            assert forall|x: int| named.contains(x) implies others.contains(x) by {
                let i = choose|i: int| 0 <= i < places.len() && places[i] == x;
                assert(0 <= places[i] < n);
            }
        }
        lemma_len_subset(named, others);
        assert(false);
    }
    let i = choose|i: int| 0 <= i < places.len() && places[i] == k;
    assert(places[i] == k);
}

/// `output` holds the values of `input` at `places`, in rank, and values that stand level keep the
/// order in which they came.
pub open spec fn is_sorting<T: Ranked>(input: Seq<T>, output: Seq<T>, places: Seq<int>) -> bool {
    &&& output.len() == input.len()
    &&& is_arrangement(places, input.len() as int)
    &&& forall|i: int| 0 <= i < output.len() ==> output[i] == input[#[trigger] places[i]]
    &&& forall|i: int, j: int|
        0 <= i < j < output.len() ==> (#[trigger] output[i]).before(#[trigger] output[j]) || (
        !output[j].before(output[i]) && places[i] < places[j])
}

/// `output` is `input` in rank, values that stand level in the order in which they came.
pub open spec fn sorted_from<T: Ranked>(input: Seq<T>, output: Seq<T>) -> bool {
    exists|places: Seq<int>| is_sorting(input, output, places)
}

/// `output` holds the values of `input` at `places`, by the order `less`, and values that stand
/// level keep the order in which they came.
pub open spec fn is_sorting_by<V>(
    input: Seq<V>,
    output: Seq<V>,
    less: spec_fn(V, V) -> bool,
    places: Seq<int>,
) -> bool {
    &&& output.len() == input.len()
    &&& is_arrangement(places, input.len() as int)
    &&& forall|i: int| 0 <= i < output.len() ==> output[i] == input[#[trigger] places[i]]
    &&& forall|i: int, j: int|
        0 <= i < j < output.len() ==> #[trigger] less(output[i], output[j]) || (!less(
            output[j],
            output[i],
        ) && places[i] < places[j])
}

/// `output` is `input` by the order `less`, values that stand level in the order in which they
/// came.
pub open spec fn sorted_by<V>(
    input: Seq<V>,
    output: Seq<V>,
    less: spec_fn(V, V) -> bool,
) -> bool {
    exists|places: Seq<int>| is_sorting_by(input, output, less, places)
}

/// Values can be put in an order in one way only.
pub proof fn sorting_is_determined<V>(
    input: Seq<V>,
    first: Seq<V>,
    second: Seq<V>,
    less: spec_fn(V, V) -> bool,
)
    requires
        forall|a: V, b: V| !(#[trigger] less(a, b) && less(b, a)),
        sorted_by(input, first, less),
        sorted_by(input, second, less),
    ensures
        first == second,
{
    let p = choose|places: Seq<int>| is_sorting_by(input, first, less, places);
    let q = choose|places: Seq<int>| is_sorting_by(input, second, less, places);
    same_places(input, first, second, less, p, q, input.len() as int);
    assert forall|i: int| 0 <= i < input.len() implies first[i] == second[i] by {
        assert(p[i] == q[i]);
        assert(first[i] == input[p[i]]);
        assert(second[i] == input[q[i]]);
    }
    assert(first == second);
}

proof fn same_places<V>(
    input: Seq<V>,
    first: Seq<V>,
    second: Seq<V>,
    less: spec_fn(V, V) -> bool,
    p: Seq<int>,
    q: Seq<int>,
    n: int,
)
    requires
        forall|a: V, b: V| !(#[trigger] less(a, b) && less(b, a)),
        is_sorting_by(input, first, less, p),
        is_sorting_by(input, second, less, q),
        0 <= n <= input.len(),
    ensures
        forall|i: int| 0 <= i < n ==> p[i] == q[i],
    decreases n,
{
    if n > 0 {
        let i = n - 1;
        let len = input.len() as int;
        same_places(input, first, second, less, p, q, i);
        if p[i] != q[i] {
            arrangement_is_complete(q, len, p[i]);
            arrangement_is_complete(p, len, q[i]);
            let k = choose|k: int| 0 <= k < len && #[trigger] q[k] == p[i];
            let l = choose|l: int| 0 <= l < len && #[trigger] p[l] == q[i];
            assert(k > i) by {
                if k < i {
                    assert(p[k] == q[k]);
                }
            }
            assert(l > i) by {
                if l < i {
                    assert(p[l] == q[l]);
                }
            }
            assert(second[i] == input[q[i]] && second[k] == input[q[k]]);
            assert(first[i] == input[p[i]] && first[l] == input[p[l]]);
            assert(less(first[i], first[l]) || (!less(first[l], first[i]) && p[i] < p[l]));
            assert(less(second[i], second[k]) || (!less(second[k], second[i]) && q[i] < q[k]));
            assert(false);
        }
    }
}

/// `output` holds the values of `input` at `places`, none of them behind one that it has to stand
/// before.
pub open spec fn is_ordering_by<V>(
    input: Seq<V>,
    output: Seq<V>,
    less: spec_fn(V, V) -> bool,
    places: Seq<int>,
) -> bool {
    &&& output.len() == input.len()
    &&& is_arrangement(places, input.len() as int)
    &&& forall|i: int| 0 <= i < output.len() ==> output[i] == input[#[trigger] places[i]]
    &&& forall|i: int, j: int|
        0 <= i < j < output.len() ==> !#[trigger] less(output[j], output[i])
}

/// `output` holds the values of `input` by the order `less`; how values that stand level follow one
/// another is left open.
pub open spec fn ordered_by<V>(
    input: Seq<V>,
    output: Seq<V>,
    less: spec_fn(V, V) -> bool,
) -> bool {
    exists|places: Seq<int>| is_ordering_by(input, output, less, places)
}

/// Values in order stay in order where each is replaced by another one and the order of those
/// follows that of the values.
pub proof fn order_is_carried_over<V, W>(
    input: Seq<V>,
    output: Seq<V>,
    less: spec_fn(V, V) -> bool,
    f: spec_fn(V) -> W,
    less_then: spec_fn(W, W) -> bool,
)
    requires
        ordered_by(input, output, less),
        forall|i: int, j: int|
            0 <= i < input.len() && 0 <= j < input.len() && #[trigger] less_then(
                f(input[i]),
                f(input[j]),
            ) ==> less(input[i], input[j]),
    ensures
        ordered_by(input.map_values(f), output.map_values(f), less_then),
{
    let places = choose|places: Seq<int>| is_ordering_by(input, output, less, places);
    let a = input.map_values(f);
    let b = output.map_values(f);
    assert forall|i: int| 0 <= i < b.len() implies b[i] == a[#[trigger] places[i]] by {
        assert(output[i] == input[places[i]]);
    }
    assert forall|i: int, j: int| 0 <= i < j < b.len() implies !#[trigger] less_then(
        b[j],
        b[i],
    ) by {
        assert(output[i] == input[places[i]]);
        assert(output[j] == input[places[j]]);
        assert(!less(output[j], output[i]));
        assert(!less_then(f(input[places[j]]), f(input[places[i]])));
    }
    assert(is_ordering_by(a, b, less_then, places));
}

/// Values in rank have their views in the order of the views.
pub proof fn rank_sorts_views<T: Ranked + View>(
    input: Seq<T>,
    output: Seq<T>,
    less: spec_fn(T::V, T::V) -> bool,
)
    requires
        sorted_from(input, output),
        forall|a: T, b: T| #[trigger] a.before(b) == less(a.view(), b.view()),
    ensures
        sorted_by(views(input), views(output), less),
{
    let places = choose|places: Seq<int>| is_sorting(input, output, places);
    assert forall|i: int| 0 <= i < output.len() implies views(output)[i] == views(
        input,
    )[#[trigger] places[i]] by {}
    assert forall|i: int, j: int| 0 <= i < j < output.len() implies #[trigger] less(
        views(output)[i],
        views(output)[j],
    ) || (!less(views(output)[j], views(output)[i]) && places[i] < places[j]) by {
        assert(output[i].before(output[j]) == less(output[i].view(), output[j].view()));
        assert(output[j].before(output[i]) == less(output[j].view(), output[i].view()));
    }
    assert(is_sorting_by(views(input), views(output), less, places));
}

/// Puts the values in rank; values that stand level keep their order.
pub fn sort<T: Ranked>(items: &mut Vec<T>)
    ensures
        sorted_from(old(items)@, final(items)@),
{
    let ghost input = items@;
    let ghost mut places: Seq<int> = Seq::new(items@.len(), |i: int| i);
    let mut i: usize = 0;
    while i < items.len()
        invariant
            i <= items@.len(),
            items@.len() == input.len(),
            input == old(items)@,
            is_arrangement(places, input.len() as int),
            forall|k: int| 0 <= k < items@.len() ==> items@[k] == input[#[trigger] places[k]],
            forall|k: int| i <= k < items@.len() ==> #[trigger] places[k] == k,
            forall|k: int| 0 <= k < i ==> #[trigger] places[k] < i,
            forall|k: int, l: int|
                0 <= k < l < i ==> (#[trigger] items@[k]).before(#[trigger] items@[l]) || (
                !items@[l].before(items@[k]) && places[k] < places[l]),
        decreases items@.len() - i,
    {
        let mut p: usize = i;
        while p > 0 && items[i].is_before(&items[p - 1])
            invariant
                p <= i < items@.len(),
                forall|k: int| p <= k < i ==> items@[i as int].before(#[trigger] items@[k]),
            decreases p,
        {
            p -= 1;
        }
        let ghost v = items@;
        let ghost was = places;
        let x = items.remove(i);
        items.insert(p, x);
        proof {
            places = was.remove(i as int).insert(p as int, was[i as int]);
            sort_step(input, v, was, i as int, p as int);
        }
        i += 1;
    }
    proof {
        assert(is_sorting(input, items@, places));
    }
}

/// Moving the value at `i` down to `p` keeps what has been sorted so far.
proof fn sort_step<T: Ranked>(input: Seq<T>, v: Seq<T>, was: Seq<int>, i: int, p: int)
    requires
        0 <= p <= i < v.len(),
        v.len() == input.len(),
        is_arrangement(was, input.len() as int),
        forall|k: int| 0 <= k < v.len() ==> v[k] == input[#[trigger] was[k]],
        forall|k: int| i <= k < v.len() ==> #[trigger] was[k] == k,
        forall|k: int| 0 <= k < i ==> #[trigger] was[k] < i,
        forall|k: int, l: int|
            0 <= k < l < i ==> (#[trigger] v[k]).before(#[trigger] v[l]) || (!v[l].before(v[k])
                && was[k] < was[l]),
        forall|k: int| p <= k < i ==> v[i].before(#[trigger] v[k]),
        p > 0 ==> !v[i].before(v[p - 1]),
    ensures
        ({
            let w = v.remove(i).insert(p, v[i]);
            let now = was.remove(i).insert(p, was[i]);
            &&& w.len() == v.len()
            &&& is_arrangement(now, input.len() as int)
            &&& forall|k: int| 0 <= k < w.len() ==> w[k] == input[#[trigger] now[k]]
            &&& forall|k: int| i + 1 <= k < w.len() ==> #[trigger] now[k] == k
            &&& forall|k: int| 0 <= k < i + 1 ==> #[trigger] now[k] < i + 1
            &&& forall|k: int, l: int|
                0 <= k < l < i + 1 ==> (#[trigger] w[k]).before(#[trigger] w[l]) || (!w[l].before(
                    w[k],
                ) && now[k] < now[l])
        }),
{
    let w = v.remove(i).insert(p, v[i]);
    let now = was.remove(i).insert(p, was[i]);
    // The place from which the value at `k` came.
    let from = |k: int| if k < p || k > i { k } else if k == p { i } else { k - 1 };
    assert forall|k: int| 0 <= k < w.len() implies #[trigger] w[k] == v[from(k)] && now[k]
        == was[from(k)] by {}
    assert forall|k: int| 0 <= k < w.len() implies 0 <= #[trigger] now[k] < input.len() && w[k]
        == input[now[k]] by {
        assert(w[k] == v[from(k)]);
        assert(v[from(k)] == input[was[from(k)]]);
    }
    assert forall|k: int, l: int| 0 <= k < l < w.len() implies now[k] != now[l] by {
        assert(w[k] == v[from(k)] && w[l] == v[from(l)]);
        if from(k) < from(l) {
            assert(was[from(k)] != was[from(l)]);
        } else {
            assert(was[from(l)] != was[from(k)]);
        }
    }
    assert forall|k: int| 0 <= k < i + 1 implies #[trigger] now[k] < i + 1 by {
        assert(w[k] == v[from(k)]);
        assert(was[from(k)] <= i);
    }
    assert forall|k: int| i + 1 <= k < w.len() implies #[trigger] now[k] == k by {
        assert(w[k] == v[from(k)]);
        assert(was[from(k)] == k);
    }
    assert forall|k: int, l: int| 0 <= k < l < i + 1 implies (#[trigger] w[k]).before(
        #[trigger] w[l],
    ) || (!w[l].before(w[k]) && now[k] < now[l]) by {
        assert(w[k] == v[from(k)] && w[l] == v[from(l)]);
        if k == p {
            assert(v[i].before(v[from(l)]));
        } else if l == p {
            // Nothing to the left has to stand behind the value that moved.
            if k < p - 1 {
                assert(v[k].before(v[p - 1]) || !v[p - 1].before(v[k]));
                T::before_is_asymmetric(v[k], v[p - 1]);
                T::not_before_chains(v[i], v[p - 1], v[k]);
            }
            assert(!v[i].before(v[k]));
            assert(was[k] < i);
        } else {
            assert(from(k) < from(l));
        }
    }
}

/// Texts are ordered by the first character in which they differ, and a text comes before one that
/// goes on behind it.
pub proof fn first_difference_orders(head: Seq<char>, a: Seq<char>, b: Seq<char>)
    requires
        b.len() > 0,
        a.len() == 0 || a[0] < b[0],
    ensures
        text_less(head + a, head + b),
        !text_less(head + b, head + a),
    decreases head.len(),
{
    if head.len() > 0 {
        first_difference_orders(head.skip(1), a, b);
        assert((head + a).skip(1) == head.skip(1) + a);
        assert((head + b).skip(1) == head.skip(1) + b);
    } else {
        assert(head + a == a);
        assert(head + b == b);
    }
    text_less_is_asymmetric(head + a, head + b);
}

} // verus!
