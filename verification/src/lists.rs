//! Facts about sequences that several modules use.

use vstd::prelude::*;

verus! {

/// One more list at the end of a flattened list of lists.
pub proof fn lemma_flatten_step<T>(lists: Seq<Seq<T>>, i: int)
    requires
        0 <= i < lists.len(),
    ensures
        lists.take(i + 1).flatten() == lists.take(i).flatten() + lists[i],
{
    assert(lists.take(i + 1) =~= lists.take(i).push(lists[i]));
    lists.take(i).lemma_flatten_push(lists[i]);
}

/// Nothing flattened yet.
pub proof fn lemma_flatten_none<T>(lists: Seq<Seq<T>>)
    ensures
        lists.take(0).flatten() == Seq::<T>::empty(),
{
    assert(lists.take(0).len() == 0);
}

/// Everything flattened.
pub proof fn lemma_flatten_all<T>(lists: Seq<Seq<T>>)
    ensures
        lists.take(lists.len() as int).flatten() == lists.flatten(),
{
    assert(lists.take(lists.len() as int) =~= lists);
}

/// The sum of a list of counts.
pub open spec fn total(counts: Seq<nat>) -> nat
    decreases counts.len(),
{
    if counts.len() == 0 {
        0
    } else {
        total(counts.drop_last()) + counts.last()
    }
}

/// A flattened list is as long as its lists together.
pub proof fn lemma_flatten_len<T>(lists: Seq<Seq<T>>)
    ensures
        lists.flatten().len() == total(Seq::new(lists.len(), |i: int| lists[i].len())),
    decreases lists.len(),
{
    let counts = Seq::new(lists.len(), |i: int| lists[i].len());
    if lists.len() > 0 {
        let front = lists.drop_last();
        lemma_flatten_len(front);
        assert(lists =~= front.push(lists.last()));
        front.lemma_flatten_push(lists.last());
        assert(counts.drop_last() =~= Seq::new(front.len(), |i: int| front[i].len()));
    }
}

/// Lists of one element each hold, one after the other, those elements.
pub proof fn lemma_singles<A>(s: Seq<A>)
    ensures
        Seq::new(s.len(), |k: int| seq![s[k]]).flatten() =~= s,
    decreases s.len(),
{
    let lists = Seq::new(s.len(), |k: int| seq![s[k]]);
    if s.len() > 0 {
        let rest = s.drop_first();
        lemma_singles(rest);
        assert(lists.drop_first() =~= Seq::new(rest.len(), |k: int| seq![rest[k]]));
        assert(lists.flatten() =~= lists.first() + lists.drop_first().flatten());
        assert(seq![s[0]] + rest =~= s);
    }
}

/// A list of one list, flattened.
pub proof fn lemma_flatten_one<T>(list: Seq<T>)
    ensures
        seq![list].flatten() == list,
{
    let lists = seq![list];
    assert(lists.drop_first() =~= Seq::empty());
    assert(lists.drop_first().flatten() =~= Seq::empty());
    assert(lists.flatten() =~= list);
}

/// A list with a function applied to each element.
pub open spec fn mapped<A, B>(f: spec_fn(A) -> B, s: Seq<A>) -> Seq<B> {
    Seq::new(s.len(), |i: int| f(s[i]))
}

/// A function applied to each element of lists, flattened.
pub proof fn lemma_flatten_mapped<A, B>(f: spec_fn(A) -> B, lists: Seq<Seq<A>>)
    ensures
        Seq::new(lists.len(), |i: int| mapped(f, lists[i])).flatten() == mapped(f, lists.flatten()),
    decreases lists.len(),
{
    let images = Seq::new(lists.len(), |i: int| mapped(f, lists[i]));
    if lists.len() > 0 {
        let front = lists.drop_last();
        lemma_flatten_mapped(f, front);
        assert(images.drop_last() =~= Seq::new(front.len(), |i: int| mapped(f, front[i])));
        assert(lists =~= front.push(lists.last()));
        front.lemma_flatten_push(lists.last());
        assert(images =~= images.drop_last().push(images.last()));
        images.drop_last().lemma_flatten_push(images.last());
    }
    assert(images.flatten() =~= mapped(f, lists.flatten()));
}

/// Append a copy of `tail` to `out`.
pub fn append_copies<T: Copy>(out: &mut Vec<T>, tail: &Vec<T>)
    ensures
        final(out)@ == old(out)@ + tail@,
{
    for i in 0..tail.len()
        invariant
            out@ == old(out)@ + tail@.take(i as int),
    {
        out.push(tail[i]);
        assert(tail@.take(i + 1) =~= tail@.take(i as int).push(tail@[i as int]));
    }
    assert(tail@.take(tail@.len() as int) =~= tail@);
}

} // verus!
