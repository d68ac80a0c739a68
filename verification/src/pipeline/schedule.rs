//! Interleavings: the orders in which the work of several workers, each
//! going through a queue of its own from front to back, can be retired.
//!
//! Nothing here runs; the module is the vocabulary in which the pipeline's
//! guarantees about concurrent workers are stated.

use vstd::multiset::Multiset;
use vstd::prelude::*;

verus! {

/// The queues but for the last element of the queue of worker `w`: what is
/// retired before worker `w` takes the last step of a run.
pub open spec fn without_last<T>(queues: Seq<Seq<T>>, w: int) -> Seq<Seq<T>> {
    queues.update(w, queues[w].drop_last())
}

/// Whether `schedule` is a complete run of `queues`: read from the front, it
/// names at each step the worker that retires the next element of its own
/// queue, and at its end every queue has been retired in full.
pub open spec fn is_schedule<T>(queues: Seq<Seq<T>>, schedule: Seq<int>) -> bool
    decreases schedule.len(),
{
    if schedule.len() == 0 {
        forall|w: int| 0 <= w < queues.len() ==> (#[trigger] queues[w]).len() == 0
    } else {
        let w = schedule.last();
        &&& 0 <= w < queues.len()
        &&& queues[w].len() > 0
        &&& is_schedule(without_last(queues, w), schedule.drop_last())
    }
}

/// The elements of `queues` in the order in which `schedule` retires them.
pub open spec fn interleave<T>(queues: Seq<Seq<T>>, schedule: Seq<int>) -> Seq<T>
    decreases schedule.len(),
{
    if schedule.len() == 0 {
        Seq::empty()
    } else {
        let w = schedule.last();
        interleave(without_last(queues, w), schedule.drop_last()).push(queues[w].last())
    }
}

/// Everything that is in any of the queues, each element as often as it
/// occurs.
pub open spec fn pooled<T>(queues: Seq<Seq<T>>) -> Multiset<T>
    decreases queues.len(),
{
    if queues.len() == 0 {
        Multiset::empty()
    } else {
        pooled(queues.drop_last()).add(queues.last().to_multiset())
    }
}

/// The schedule that lets worker 0 retire its whole queue, then worker 1, and
/// so on: the run of a single thread.
pub open spec fn sequential_schedule<T>(queues: Seq<Seq<T>>) -> Seq<int>
    decreases queues.len(),
{
    if queues.len() == 0 {
        Seq::empty()
    } else {
        sequential_schedule(queues.drop_last()) + Seq::new(
            queues.last().len(),
            |i: int| queues.len() - 1,
        )
    }
}

/// Empty queues hold nothing.
pub proof fn lemma_pooled_empty<T>(queues: Seq<Seq<T>>)
    requires
        forall|w: int| 0 <= w < queues.len() ==> (#[trigger] queues[w]).len() == 0,
    ensures
        pooled(queues) =~= Multiset::empty(),
    decreases queues.len(),
{
    if queues.len() > 0 {
        let init = queues.drop_last();
        assert forall|w: int| 0 <= w < init.len() implies (#[trigger] init[w]).len() == 0 by {
            assert(init[w] == queues[w]);
        }
        lemma_pooled_empty(init);
        assert(queues.last().len() == 0);
        queues.last().to_multiset_ensures();
        vstd::seq_lib::to_multiset_len(queues.last());
        assert(queues.last().to_multiset().len() == 0);
        assert(queues.last().to_multiset() =~= Multiset::empty()) by {
            if exists|x: T| queues.last().to_multiset().count(x) > 0 {
                let x = choose|x: T| queues.last().to_multiset().count(x) > 0;
                assert(queues.last().contains(x));
            }
        }
    }
}

/// Growing one queue by one element adds exactly that element to the pool.
pub proof fn lemma_pooled_push<T>(queues: Seq<Seq<T>>, w: int, x: T)
    requires
        0 <= w < queues.len(),
    ensures
        pooled(queues.update(w, queues[w].push(x))) =~= pooled(queues).insert(x),
    decreases queues.len(),
{
    let grown = queues.update(w, queues[w].push(x));
    if w == queues.len() - 1 {
        assert(grown.drop_last() =~= queues.drop_last());
        vstd::seq_lib::to_multiset_build(queues[w], x);
    } else {
        assert(grown.drop_last() =~= queues.drop_last().update(w, queues[w].push(x)));
        assert(queues.drop_last()[w] == queues[w]);
        lemma_pooled_push(queues.drop_last(), w, x);
    }
}

/// Retiring the last element of one queue takes exactly that element out of
/// the pool.
pub proof fn lemma_pooled_retire<T>(queues: Seq<Seq<T>>, w: int)
    requires
        0 <= w < queues.len(),
        queues[w].len() > 0,
    ensures
        pooled(queues) =~= pooled(without_last(queues, w)).insert(queues[w].last()),
{
    let rest = without_last(queues, w);
    assert(rest[w].push(queues[w].last()) =~= queues[w]);
    assert(rest.update(w, rest[w].push(queues[w].last())) =~= queues);
    lemma_pooled_push(rest, w, queues[w].last());
}

/// The pool is the multiset of the queues laid end to end.
pub proof fn lemma_pooled_is_flatten<T>(queues: Seq<Seq<T>>)
    ensures
        pooled(queues) =~= queues.flatten().to_multiset(),
    decreases queues.len(),
{
    if queues.len() == 0 {
        assert(queues.flatten() =~= Seq::<T>::empty());
        lemma_pooled_empty(queues);
        lemma_pooled_empty(seq![queues.flatten()]);
        assert(seq![queues.flatten()].drop_last() =~= Seq::<Seq<T>>::empty());
        assert(pooled(seq![queues.flatten()]) =~= queues.flatten().to_multiset());
    } else {
        let init = queues.drop_last();
        lemma_pooled_is_flatten(init);
        assert(init.push(queues.last()) =~= queues);
        init.lemma_flatten_push(queues.last());
        vstd::seq_lib::lemma_multiset_commutative(init.flatten(), queues.last());
    }
}

/// However the workers' steps interleave, what is retired is what was
/// queued: every element exactly as often as it occurs in the queues.
pub proof fn lemma_interleave_is_permutation<T>(queues: Seq<Seq<T>>, schedule: Seq<int>)
    requires
        is_schedule(queues, schedule),
    ensures
        interleave(queues, schedule).to_multiset() =~= pooled(queues),
        interleave(queues, schedule).len() == schedule.len(),
    decreases schedule.len(),
{
    if schedule.len() == 0 {
        lemma_pooled_empty(queues);
        lemma_pooled_empty(seq![interleave(queues, schedule)]);
        assert(seq![interleave(queues, schedule)].drop_last() =~= Seq::<Seq<T>>::empty());
        assert(pooled(seq![interleave(queues, schedule)]) =~= interleave(
            queues,
            schedule,
        ).to_multiset());
    } else {
        let w = schedule.last();
        let rest = without_last(queues, w);
        lemma_interleave_is_permutation(rest, schedule.drop_last());
        lemma_pooled_retire(queues, w);
        vstd::seq_lib::to_multiset_build(
            interleave(rest, schedule.drop_last()),
            queues[w].last(),
        );
    }
}

/// Every set of queues has a schedule: the sequential one.
pub proof fn lemma_sequential_is_schedule<T>(queues: Seq<Seq<T>>)
    ensures
        is_schedule(queues, sequential_schedule(queues)),
    decreases queues.len(),
{
    if queues.len() > 0 {
        let last = queues.len() - 1;
        let init = queues.drop_last();
        let idle = queues.update(last, queues.last().take(0));
        lemma_sequential_is_schedule(init);
        assert(idle.drop_last() =~= init);
        lemma_extend_idle(init, idle, sequential_schedule(init));
        lemma_append_steps(queues, sequential_schedule(init), queues.last().len());
        assert(queues.last().take(queues.last().len() as int) =~= queues.last());
        assert(queues.update(last, queues.last()) =~= queues);
    }
}

/// If `base` is a schedule of the queues with the last one still untouched,
/// then `base` followed by `done` steps of the last worker is a schedule of
/// the queues with the first `done` elements of the last one.
proof fn lemma_append_steps<T>(queues: Seq<Seq<T>>, base: Seq<int>, done: nat)
    requires
        queues.len() > 0,
        done <= queues.last().len(),
        is_schedule(queues.update(queues.len() - 1, queues.last().take(0)), base),
    ensures
        is_schedule(
            queues.update(queues.len() - 1, queues.last().take(done as int)),
            base + Seq::new(done, |i: int| queues.len() - 1),
        ),
    decreases done,
{
    let last = queues.len() - 1;
    let cut = queues.update(last, queues.last().take(done as int));
    let steps = base + Seq::new(done, |i: int| last);
    if done == 0 {
        assert(steps =~= base);
    } else {
        lemma_append_steps(queues, base, (done - 1) as nat);
        assert(steps.last() == last);
        assert(steps.drop_last() =~= base + Seq::new((done - 1) as nat, |i: int| last));
        assert(cut[last].drop_last() =~= queues.last().take(done - 1));
        assert(without_last(cut, last) =~= queues.update(last, queues.last().take(done - 1)));
    }
}

/// Adding an empty queue at the end keeps every schedule a schedule.
proof fn lemma_extend_idle<T>(init: Seq<Seq<T>>, queues: Seq<Seq<T>>, schedule: Seq<int>)
    requires
        queues.len() == init.len() + 1,
        queues.drop_last() =~= init,
        queues.last().len() == 0,
        is_schedule(init, schedule),
    ensures
        is_schedule(queues, schedule),
    decreases schedule.len(),
{
    if schedule.len() == 0 {
        assert forall|w: int| 0 <= w < queues.len() implies (#[trigger] queues[w]).len() == 0 by {
            if w < init.len() {
                assert(queues[w] == init[w]);
            }
        }
    } else {
        let w = schedule.last();
        assert(queues[w] == init[w]);
        assert(without_last(queues, w).drop_last() =~= without_last(init, w));
        lemma_extend_idle(without_last(init, w), without_last(queues, w), schedule.drop_last());
    }
}

} // verus!
