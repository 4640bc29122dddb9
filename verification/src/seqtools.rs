//! Small sequence lemmas shared by the stores and the prompt assembler.

use vstd::prelude::*;
use vstd::seq_lib::*;

verus! {

/// Filtering one more element appends it exactly when it matches.
pub proof fn lemma_filter_push<T>(s: Seq<T>, pred: spec_fn(T) -> bool, x: T)
    ensures
        (s + seq![x]).filter(pred) == if pred(x) {
            s.filter(pred).push(x)
        } else {
            s.filter(pred)
        },
{
    reveal(Seq::filter);
    Seq::filter_distributes_over_add(s, seq![x], pred);
    assert(seq![x].drop_last() =~= Seq::<T>::empty());
    assert(Seq::<T>::empty().filter(pred) =~= Seq::<T>::empty());
    if pred(x) {
        assert(seq![x].filter(pred) =~= seq![x]);
        assert(s.filter(pred) + seq![x] =~= s.filter(pred).push(x));
    } else {
        assert(seq![x].filter(pred) =~= Seq::<T>::empty());
        assert(s.filter(pred) + Seq::<T>::empty() =~= s.filter(pred));
    }
}

/// A filter that matches nothing selects nothing.
pub proof fn lemma_filter_none<T>(s: Seq<T>, pred: spec_fn(T) -> bool)
    requires
        forall|i: int| 0 <= i < s.len() ==> !pred(#[trigger] s[i]),
    ensures
        s.filter(pred) == Seq::<T>::empty(),
    decreases s.len(),
{
    reveal(Seq::filter);
    if s.len() > 0 {
        assert forall|i: int| 0 <= i < s.drop_last().len() implies !pred(
            #[trigger] s.drop_last()[i],
        ) by {
            assert(s.drop_last()[i] == s[i]);
        }
        lemma_filter_none(s.drop_last(), pred);
    }
}

/// A sequence extended by one element, written as concatenation.
pub proof fn lemma_take_one_more<T>(s: Seq<T>, i: int)
    requires
        0 <= i < s.len(),
    ensures
        s.take(i + 1) == s.take(i) + seq![s[i]],
{
    assert(s.take(i + 1) =~= s.take(i) + seq![s[i]]);
}

/// Taking a prefix commutes with pushing an element after it.
pub proof fn lemma_take_of_push<T>(s: Seq<T>, x: T, i: int)
    requires
        0 <= i <= s.len(),
    ensures
        s.push(x).take(i) == s.take(i),
{
    assert(s.push(x).take(i) =~= s.take(i));
}

/// The concatenation of `f` applied to each element of `s`, in order.
pub open spec fn concat_map<T, U>(s: Seq<T>, f: spec_fn(T) -> Seq<U>) -> Seq<U>
    decreases s.len(),
{
    if s.len() == 0 {
        Seq::empty()
    } else {
        f(s[0]) + concat_map(s.skip(1), f)
    }
}

/// Concatenating one more element's rendering extends the result at the end.
pub proof fn lemma_concat_map_snoc<T, U>(s: Seq<T>, f: spec_fn(T) -> Seq<U>, x: T)
    ensures
        concat_map(s + seq![x], f) == concat_map(s, f) + f(x),
    decreases s.len(),
{
    if s.len() == 0 {
        assert(s + seq![x] =~= seq![x]);
        assert(seq![x].skip(1) =~= Seq::<T>::empty());
        assert(concat_map(seq![x], f) == f(x) + concat_map(Seq::<T>::empty(), f));
        assert(f(x) + Seq::<U>::empty() =~= f(x));
        assert(Seq::<U>::empty() + f(x) =~= f(x));
    } else {
        assert((s + seq![x])[0] == s[0]);
        assert((s + seq![x]).skip(1) =~= s.skip(1) + seq![x]);
        lemma_concat_map_snoc(s.skip(1), f, x);
        assert(f(s[0]) + (concat_map(s.skip(1), f) + f(x)) =~= (f(s[0]) + concat_map(
            s.skip(1),
            f,
        )) + f(x));
    }
}

/// Reversal distributes over concatenation, swapping the halves.
pub proof fn lemma_reverse_add<T>(a: Seq<T>, b: Seq<T>)
    ensures
        (a + b).reverse() == b.reverse() + a.reverse(),
{
    let l = (a + b).reverse();
    let r = b.reverse() + a.reverse();
    assert forall|i: int| 0 <= i < l.len() implies l[i] == r[i] by {
        if i < b.len() {
            assert(r[i] == b[b.len() - 1 - i]);
            assert(l[i] == (a + b)[a.len() + b.len() - 1 - i]);
        } else {
            assert(r[i] == a[a.len() - 1 - (i - b.len())]);
            assert(l[i] == (a + b)[a.len() + b.len() - 1 - i]);
        }
    }
    assert(l =~= r);
}

} // verus!
