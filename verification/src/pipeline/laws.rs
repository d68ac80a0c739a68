//! What holds of a whole run, whichever strategy dispatches the work and
//! however the workers' steps interleave.
//!
//! A run is described by three things. The *queues* say which worker is
//! given which items, in which order. The *schedule* says in which order the
//! workers retire their items. The *codec* says what becomes of each item.
//! The items in the order in which they are retired are
//! `interleave(queues, schedule)`, and the count that the run reports is the
//! number of successes among their outcomes.

use crate::pipeline::dispatch::{
    lemma_round_robin_covers, lemma_static_chunks_cover, round_robin_queues, static_chunks,
};
use crate::pipeline::item::{
    lemma_enumerate_len, regular_files, spec_enumerate, EntryView, PathView, WorkItemView,
};
use crate::pipeline::outcome::{
    count_of, decode_failures, lemma_counts_partition, successes, write_failures,
    ProcessingOutcome,
};
use crate::pipeline::schedule::{
    interleave, is_schedule, lemma_interleave_is_permutation, lemma_pooled_is_flatten,
    lemma_sequential_is_schedule, pooled, sequential_schedule,
};
use vstd::prelude::*;

verus! {

/// Whether `queues` deal out `items`: every item is in some queue, and in no
/// more queues, and no more often, than it occurs among the items.
pub open spec fn deals_out<T>(queues: Seq<Seq<T>>, items: Seq<T>) -> bool {
    pooled(queues) =~= items.to_multiset()
}

/// The outcomes of `items`, one by one, under `codec`.
pub open spec fn outcomes_under(
    items: Seq<WorkItemView>,
    codec: spec_fn(WorkItemView) -> ProcessingOutcome,
) -> Seq<ProcessingOutcome> {
    items.map_values(codec)
}

/// The count that a run reports after it has retired `trace`: one for every
/// item that the codec turned into a thumbnail.
pub open spec fn reported(
    trace: Seq<WorkItemView>,
    codec: spec_fn(WorkItemView) -> ProcessingOutcome,
) -> nat {
    successes(outcomes_under(trace, codec))
}

/// The output paths that a run has written after it has retired `trace`.
pub open spec fn written(
    trace: Seq<WorkItemView>,
    codec: spec_fn(WorkItemView) -> ProcessingOutcome,
) -> Set<PathView> {
    Set::new(
        |path: PathView|
            exists|i: int|
                0 <= i < trace.len() && codec(#[trigger] trace[i]) is Success
                    && trace[i].output_path() == path,
    )
}

/// The static partition deals out the items.
pub proof fn lemma_static_deals_out<T>(items: Seq<T>, workers: nat)
    requires
        workers > 0,
    ensures
        deals_out(static_chunks(items, workers), items),
{
    lemma_static_chunks_cover(items, workers);
    lemma_pooled_is_flatten(static_chunks(items, workers));
}

/// Round-robin dispatch deals out the work items of the listing.
pub proof fn lemma_round_robin_deals_out(
    listing: Seq<EntryView>,
    input_dir: Seq<char>,
    output_dir: Seq<char>,
    workers: nat,
)
    requires
        workers > 0,
    ensures
        deals_out(
            round_robin_queues(listing, input_dir, output_dir, workers),
            spec_enumerate(listing, input_dir, output_dir),
        ),
{
    lemma_round_robin_covers(listing, input_dir, output_dir, workers);
}

/// Two sequences with the same elements, each as often in the one as in the
/// other, have the same outcomes, each as often in the one as in the other.
pub proof fn lemma_same_items_same_outcomes<T, U>(a: Seq<T>, b: Seq<T>, f: spec_fn(T) -> U)
    requires
        a.to_multiset() =~= b.to_multiset(),
    ensures
        a.map_values(f).to_multiset() =~= b.map_values(f).to_multiset(),
        a.len() == b.len(),
    decreases a.len(),
{
    broadcast use vstd::multiset::group_multiset_axioms;

    vstd::seq_lib::to_multiset_len(a);
    vstd::seq_lib::to_multiset_len(b);
    if a.len() == 0 {
        assert(a.map_values(f) =~= b.map_values(f));
    } else {
        let x = a.last();
        let init = a.drop_last();
        assert(a =~= init.push(x));
        vstd::seq_lib::to_multiset_build(init, x);
        assert(b.to_multiset().count(x) > 0);
        b.to_multiset_ensures();
        assert(b.contains(x));
        let i = choose|i: int| 0 <= i < b.len() && b[i] == x;
        let rest = b.remove(i);
        vstd::seq_lib::to_multiset_remove(b, i);
        assert(init.to_multiset() =~= rest.to_multiset());
        lemma_same_items_same_outcomes(init, rest, f);
        assert(a.map_values(f) =~= init.map_values(f).push(f(x)));
        vstd::seq_lib::to_multiset_build(init.map_values(f), f(x));
        assert(b.map_values(f).remove(i) =~= rest.map_values(f));
        vstd::seq_lib::to_multiset_remove(b.map_values(f), i);
        b.map_values(f).to_multiset_ensures();
        assert(b.map_values(f)[i] == f(x));
        assert(b.map_values(f).contains(f(x)));
    }
}

/// No item is processed twice and none is dropped: whichever queues deal out
/// the items and however the workers' steps interleave, the items retired
/// are the items enumerated, each exactly as often. The thumbnails written
/// are therefore those of the sources that the codec could handle, each
/// under its source's own name in the output directory.
pub proof fn law_each_item_processed_once(
    items: Seq<WorkItemView>,
    queues: Seq<Seq<WorkItemView>>,
    schedule: Seq<int>,
    codec: spec_fn(WorkItemView) -> ProcessingOutcome,
)
    requires
        deals_out(queues, items),
        is_schedule(queues, schedule),
    ensures
        interleave(queues, schedule).to_multiset() =~= items.to_multiset(),
        interleave(queues, schedule).len() == items.len(),
        written(interleave(queues, schedule), codec) =~= written(items, codec),
{
    let trace = interleave(queues, schedule);
    lemma_interleave_is_permutation(queues, schedule);
    vstd::seq_lib::to_multiset_len(trace);
    vstd::seq_lib::to_multiset_len(items);
    trace.to_multiset_ensures();
    items.to_multiset_ensures();
    assert forall|path: PathView| written(trace, codec).contains(path) implies written(
        items,
        codec,
    ).contains(path) by {
        let i = choose|i: int|
            0 <= i < trace.len() && codec(#[trigger] trace[i]) is Success
                && trace[i].output_path() == path;
        assert(trace.contains(trace[i]));
        assert(trace.to_multiset().count(trace[i]) > 0);
        assert(items.to_multiset().count(trace[i]) > 0);
        assert(items.contains(trace[i]));
        let j = choose|j: int| 0 <= j < items.len() && items[j] == trace[i];
        assert(codec(items[j]) is Success && items[j].output_path() == path);
    }
    assert forall|path: PathView| written(items, codec).contains(path) implies written(
        trace,
        codec,
    ).contains(path) by {
        let i = choose|i: int|
            0 <= i < items.len() && codec(#[trigger] items[i]) is Success
                && items[i].output_path() == path;
        assert(items.contains(items[i]));
        assert(items.to_multiset().count(items[i]) > 0);
        assert(trace.to_multiset().count(items[i]) > 0);
        assert(trace.contains(items[i]));
        let j = choose|j: int| 0 <= j < trace.len() && trace[j] == items[i];
        assert(codec(trace[j]) is Success && trace[j].output_path() == path);
    }
}

/// The count does not depend on the dispatch: whichever queues deal out the
/// items and however the workers' steps interleave, the run reports the
/// number of items that the codec turns into thumbnails, and likewise meets
/// every failure exactly once.
pub proof fn law_count_independent_of_dispatch(
    items: Seq<WorkItemView>,
    queues: Seq<Seq<WorkItemView>>,
    schedule: Seq<int>,
    codec: spec_fn(WorkItemView) -> ProcessingOutcome,
)
    requires
        deals_out(queues, items),
        is_schedule(queues, schedule),
    ensures
        reported(interleave(queues, schedule), codec) == reported(items, codec),
        forall|kind: ProcessingOutcome|
            count_of(outcomes_under(interleave(queues, schedule), codec), kind) == count_of(
                outcomes_under(items, codec),
                kind,
            ),
{
    lemma_interleave_is_permutation(queues, schedule);
    lemma_same_items_same_outcomes(interleave(queues, schedule), items, codec);
}

/// Every dispatch has a run: a single thread that works through the queues
/// one after the other is one of the interleavings, and it reports what the
/// others report.
pub proof fn law_sequential_run(
    items: Seq<WorkItemView>,
    queues: Seq<Seq<WorkItemView>>,
    codec: spec_fn(WorkItemView) -> ProcessingOutcome,
)
    requires
        deals_out(queues, items),
    ensures
        is_schedule(queues, sequential_schedule(queues)),
        reported(interleave(queues, sequential_schedule(queues)), codec) == reported(
            items,
            codec,
        ),
{
    lemma_sequential_is_schedule(queues);
    law_count_independent_of_dispatch(items, queues, sequential_schedule(queues), codec);
}

/// The reported count is the number of regular files in the listing, less
/// those that fail to decode, less those whose thumbnail cannot be written.
/// This holds under every dispatch of the enumerated items and every
/// interleaving of the workers.
pub proof fn law_count_is_files_less_failures(
    listing: Seq<EntryView>,
    input_dir: Seq<char>,
    output_dir: Seq<char>,
    queues: Seq<Seq<WorkItemView>>,
    schedule: Seq<int>,
    codec: spec_fn(WorkItemView) -> ProcessingOutcome,
)
    requires
        deals_out(queues, spec_enumerate(listing, input_dir, output_dir)),
        is_schedule(queues, schedule),
    ensures
        reported(interleave(queues, schedule), codec) == regular_files(listing) - decode_failures(
            outcomes_under(spec_enumerate(listing, input_dir, output_dir), codec),
        ) - write_failures(outcomes_under(spec_enumerate(listing, input_dir, output_dir), codec)),
{
    let items = spec_enumerate(listing, input_dir, output_dir);
    law_count_independent_of_dispatch(items, queues, schedule, codec);
    lemma_counts_partition(outcomes_under(items, codec));
    lemma_enumerate_len(listing, input_dir, output_dir);
}

/// The three strategies report the same count for the same listing and the
/// same codec: the streaming round robin under any interleaving of its
/// workers, the static partition under any interleaving of its workers, and
/// the dynamic pool, whichever of its workers happens to pull which item and
/// in whatever order they finish.
pub proof fn law_strategy_independence(
    listing: Seq<EntryView>,
    input_dir: Seq<char>,
    output_dir: Seq<char>,
    workers: nat,
    codec: spec_fn(WorkItemView) -> ProcessingOutcome,
    round_robin_schedule: Seq<int>,
    static_schedule: Seq<int>,
    pool_queues: Seq<Seq<WorkItemView>>,
    pool_schedule: Seq<int>,
)
    requires
        workers > 0,
        is_schedule(
            round_robin_queues(listing, input_dir, output_dir, workers),
            round_robin_schedule,
        ),
        is_schedule(
            static_chunks(spec_enumerate(listing, input_dir, output_dir), workers),
            static_schedule,
        ),
        deals_out(pool_queues, spec_enumerate(listing, input_dir, output_dir)),
        is_schedule(pool_queues, pool_schedule),
    ensures
        reported(
            interleave(
                round_robin_queues(listing, input_dir, output_dir, workers),
                round_robin_schedule,
            ),
            codec,
        ) == reported(spec_enumerate(listing, input_dir, output_dir), codec),
        reported(
            interleave(
                static_chunks(spec_enumerate(listing, input_dir, output_dir), workers),
                static_schedule,
            ),
            codec,
        ) == reported(spec_enumerate(listing, input_dir, output_dir), codec),
        reported(interleave(pool_queues, pool_schedule), codec) == reported(
            spec_enumerate(listing, input_dir, output_dir),
            codec,
        ),
{
    let items = spec_enumerate(listing, input_dir, output_dir);
    lemma_round_robin_deals_out(listing, input_dir, output_dir, workers);
    lemma_static_deals_out(items, workers);
    law_count_independent_of_dispatch(
        items,
        round_robin_queues(listing, input_dir, output_dir, workers),
        round_robin_schedule,
        codec,
    );
    law_count_independent_of_dispatch(
        items,
        static_chunks(items, workers),
        static_schedule,
        codec,
    );
    law_count_independent_of_dispatch(items, pool_queues, pool_schedule, codec);
}

/// No update is lost: however the steps of the workers interleave, an
/// aggregator that is told every outcome once, in the order in which the
/// items are retired, has counted every success of every worker. Where every
/// item succeeds, the count is the number of items.
pub proof fn law_no_lost_updates(outcomes: Seq<Seq<ProcessingOutcome>>, schedule: Seq<int>)
    requires
        is_schedule(outcomes, schedule),
    ensures
        successes(interleave(outcomes, schedule)) == successes(outcomes.flatten()),
        (forall|w: int, i: int|
            0 <= w < outcomes.len() && 0 <= i < outcomes[w].len() ==> (
            #[trigger] outcomes[w][i]) is Success) ==> successes(interleave(outcomes, schedule))
            == schedule.len(),
{
    let trace = interleave(outcomes, schedule);
    lemma_interleave_is_permutation(outcomes, schedule);
    lemma_pooled_is_flatten(outcomes);
    if forall|w: int, i: int|
        0 <= w < outcomes.len() && 0 <= i < outcomes[w].len() ==> (#[trigger] outcomes[w][i])
            is Success {
        lemma_counts_partition(trace);
        trace.to_multiset_ensures();
        outcomes.flatten().to_multiset_ensures();
        if decode_failures(trace) > 0 || write_failures(trace) > 0 {
            let bad = if decode_failures(trace) > 0 {
                ProcessingOutcome::DecodeFailure
            } else {
                ProcessingOutcome::WriteFailure
            };
            assert(outcomes.flatten().contains(bad));
            lemma_flatten_member(outcomes, bad);
        }
    }
}

/// What is in the queues laid end to end is in one of the queues.
pub proof fn lemma_flatten_member<T>(queues: Seq<Seq<T>>, x: T)
    requires
        queues.flatten().contains(x),
    ensures
        exists|w: int, i: int|
            0 <= w < queues.len() && 0 <= i < queues[w].len() && (#[trigger] queues[w][i]) == x,
    decreases queues.len(),
{
    if queues.len() == 0 {
    } else {
        let first = queues.first();
        let rest = queues.drop_first();
        let k = choose|k: int| 0 <= k < queues.flatten().len() && queues.flatten()[k] == x;
        if k < first.len() {
            assert(queues[0][k] == x);
        } else {
            assert(rest.flatten()[k - first.len()] == x);
            lemma_flatten_member(rest, x);
            let (w, i) = choose|w: int, i: int|
                0 <= w < rest.len() && 0 <= i < rest[w].len() && (#[trigger] rest[w][i]) == x;
            assert(queues[w + 1][i] == x);
        }
    }
}

} // verus!
