//! Dispatch strategies: how the work of a run is divided among a fixed
//! number of workers.

use crate::pipeline::item::{
    make_work_item, spec_enumerate, work_item_for, EntryView, ListingEntry, WorkItem,
    WorkItemView,
};
use crate::pipeline::schedule::{lemma_pooled_empty, lemma_pooled_push, pooled};
use vstd::prelude::*;

verus! {

/// The number of workers of a run when the caller has no reason to choose
/// another.
pub const DEFAULT_WORKERS: usize = 4;

/// The length of every chunk but the last when `n` items are split among
/// `workers` workers: `n / workers`, rounded up.
pub open spec fn chunk_len(n: nat, workers: nat) -> nat {
    if workers == 0 {
        0
    } else {
        ((n + workers - 1) / (workers as int)) as nat
    }
}

/// The number of chunks that `n` items fall into: `n / chunk_len`, rounded
/// up, and none for no items.
pub open spec fn chunk_count(n: nat, workers: nat) -> nat {
    let len = chunk_len(n, workers);
    if len == 0 {
        0
    } else {
        ((n + len - 1) / (len as int)) as nat
    }
}

/// The `j`-th chunk of `items` cut into runs of `len`: the items from
/// position `j * len` up to, but not including, position `(j + 1) * len`, or
/// up to the end where that comes first.
pub open spec fn chunk_at<T>(items: Seq<T>, len: nat, j: int) -> Seq<T> {
    let end = if (j + 1) * len < items.len() {
        (j + 1) * len
    } else {
        items.len() as int
    };
    items.subrange(j * len, end)
}

/// The first `count` chunks of `items` cut into runs of `len`.
pub open spec fn chunks_upto<T>(items: Seq<T>, len: nat, count: nat) -> Seq<Seq<T>> {
    Seq::new(count, |j: int| chunk_at(items, len, j))
}

/// The static partition of `items` among `workers` workers: contiguous
/// chunks of `chunk_len` items each, the last one possibly shorter.
pub open spec fn static_chunks<T>(items: Seq<T>, workers: nat) -> Seq<Seq<T>> {
    chunks_upto(
        items,
        chunk_len(items.len(), workers),
        chunk_count(items.len(), workers),
    )
}

/// `chunk_len` is the least length with which `workers` chunks cover `n`
/// items.
pub proof fn lemma_chunk_len(n: nat, workers: nat)
    requires
        workers > 0,
    ensures
        chunk_len(n, workers) * workers >= n,
        n > 0 ==> (chunk_len(n, workers) - 1) * workers < n,
        n > 0 ==> chunk_len(n, workers) > 0,
        n == 0 ==> chunk_len(n, workers) == 0,
        chunk_len(n, workers) <= n,
        chunk_len(n, workers) == n / workers + if n % workers == 0 {
            0int
        } else {
            1int
        },
{
    let w = workers as int;
    let q = n as int / w;
    let r = n as int % w;
    vstd::arithmetic::div_mod::lemma_fundamental_div_mod(n as int, w);
    vstd::arithmetic::div_mod::lemma_mod_bound(n as int, w);
    assert(n == w * q + r);
    if r == 0 {
        assert(n + w - 1 == q * w + (w - 1)) by (nonlinear_arith)
            requires
                n == w * q + r,
                r == 0,
        ;
        vstd::arithmetic::div_mod::lemma_fundamental_div_mod_converse(n + w - 1, w, q, w - 1);
    } else {
        assert(n + w - 1 == (q + 1) * w + (r - 1)) by (nonlinear_arith)
            requires
                n == w * q + r,
        ;
        vstd::arithmetic::div_mod::lemma_fundamental_div_mod_converse(n + w - 1, w, q + 1, r - 1);
    }
    let len = chunk_len(n, workers) as int;
    assert(len == q + if r == 0 {
        0int
    } else {
        1int
    });
    assert(q >= 0) by (nonlinear_arith)
        requires
            n == w * q + r,
            0 <= r < w,
            n >= 0,
    ;
    assert(len * w >= n && (n > 0 ==> (len - 1) * w < n) && len <= n && (n > 0 ==> len > 0))
        by (nonlinear_arith)
        requires
            n == w * q + r,
            0 <= r < w,
            q >= 0,
            w > 0,
            len == q + if r == 0 {
                0int
            } else {
                1int
            },
    ;
}

/// `count` chunks of `len` items are exactly what `n` items need when the
/// last chunk starts inside the items and ends at or after their end.
pub proof fn lemma_chunk_count(n: nat, workers: nat, count: nat)
    requires
        workers > 0,
        n > 0,
        count > 0,
        (count - 1) * chunk_len(n, workers) < n <= count * chunk_len(n, workers),
    ensures
        chunk_count(n, workers) == count,
        count <= workers,
{
    lemma_chunk_len(n, workers);
    let len = chunk_len(n, workers) as int;
    let c = count as int;
    let w = workers as int;
    assert(n + len - 1 == c * len + (n - 1 - (c - 1) * len)) by (nonlinear_arith);
    assert(0 <= n - 1 - (c - 1) * len < len) by (nonlinear_arith)
        requires
            (c - 1) * len < n <= c * len,
    ;
    vstd::arithmetic::div_mod::lemma_fundamental_div_mod_converse(
        n + len - 1,
        len,
        c,
        n - 1 - (c - 1) * len,
    );
    assert(c <= w) by (nonlinear_arith)
        requires
            (c - 1) * len < n,
            (len - 1) * w < n,
            len * w >= n,
            len > 0,
            w > 0,
            c > 0,
    ;
}

/// The number of chunks is the least that covers the items, and never more
/// than the number of workers.
pub proof fn lemma_chunk_count_bounds(n: nat, workers: nat)
    requires
        workers > 0,
        n > 0,
    ensures
        0 < chunk_count(n, workers) <= workers,
        (chunk_count(n, workers) - 1) * chunk_len(n, workers) < n <= chunk_count(n, workers)
            * chunk_len(n, workers),
{
    lemma_chunk_len(n, workers);
    let len = chunk_len(n, workers) as int;
    let x = n + len - 1;
    let c = x / len;
    let r = x % len;
    vstd::arithmetic::div_mod::lemma_fundamental_div_mod(x, len);
    vstd::arithmetic::div_mod::lemma_mod_bound(x, len);
    assert(c > 0 && (c - 1) * len < n <= c * len) by (nonlinear_arith)
        requires
            x == len * c + r,
            0 <= r < len,
            x == n + len - 1,
            n > 0,
    ;
    lemma_chunk_count(n, workers, c as nat);
}

/// Laid end to end, the first `count` chunks are the items up to the end of
/// the last of them.
pub proof fn lemma_chunks_prefix<T>(items: Seq<T>, len: nat, count: nat)
    requires
        len > 0,
        count > 0 ==> (count - 1) * len < items.len(),
    ensures
        chunks_upto(items, len, count).flatten() =~= items.take(
            if count * len < items.len() {
                (count * len) as int
            } else {
                items.len() as int
            },
        ),
    decreases count,
{
    if count == 0 {
        assert(chunks_upto(items, len, count) =~= Seq::<Seq<T>>::empty());
        assert(0 * len == 0);
    } else {
        let before = (count - 1) as nat;
        assert(before > 0 ==> (before - 1) * len < items.len()) by (nonlinear_arith)
            requires
                (count - 1) * len < items.len(),
                before == count - 1,
                len > 0,
        ;
        lemma_chunks_prefix(items, len, before);
        assert(chunks_upto(items, len, count) =~= chunks_upto(items, len, before).push(
            chunk_at(items, len, before as int),
        ));
        chunks_upto(items, len, before).lemma_flatten_push(chunk_at(items, len, before as int));
        assert((before + 1) * len == before * len + len) by (nonlinear_arith);
        assert(before * len >= 0) by (nonlinear_arith);
    }
}

/// The static partition loses nothing, repeats nothing and keeps the order:
/// laid end to end, the chunks are the items. There are at most as many
/// chunks as workers, none of them is empty, and all but the last have the
/// same length.
pub proof fn lemma_static_chunks_cover<T>(items: Seq<T>, workers: nat)
    requires
        workers > 0,
    ensures
        static_chunks(items, workers).flatten() =~= items,
        static_chunks(items, workers).len() <= workers,
        forall|j: int|
            0 <= j < static_chunks(items, workers).len() ==> 0 < (#[trigger] static_chunks(
                items,
                workers,
            )[j]).len() <= chunk_len(items.len(), workers),
        forall|j: int|
            0 <= j < static_chunks(items, workers).len() - 1 ==> (#[trigger] static_chunks(
                items,
                workers,
            )[j]).len() == chunk_len(items.len(), workers),
{
    let n = items.len();
    let len = chunk_len(n, workers);
    let count = chunk_count(n, workers);
    lemma_chunk_len(n, workers);
    if n == 0 {
        assert(static_chunks(items, workers) =~= Seq::<Seq<T>>::empty());
    } else {
        lemma_chunk_count_bounds(n, workers);
        lemma_chunks_prefix(items, len, count);
        assert forall|j: int| 0 <= j < count implies 0 < (#[trigger] static_chunks(
            items,
            workers,
        )[j]).len() <= len && (j < count - 1 ==> static_chunks(items, workers)[j].len() == len) by {
            assert(j * len <= (count - 1) * len && (j < count - 1 ==> (j + 1) * len <= (count - 1)
                * len) && (j + 1) * len == j * len + len && j * len >= 0) by (nonlinear_arith)
                requires
                    0 <= j < count,
                    len > 0,
            ;
        }
    }
}

/// Splits `items` into contiguous chunks, one per worker: every chunk but
/// the last holds `items.len() / workers` items, rounded up, and the last
/// holds what is left. Fewer than `workers` chunks come out where the items
/// run out first, and none at all for no items.
pub fn static_partition(items: &Vec<WorkItem>, workers: usize) -> (chunks: Vec<Vec<WorkItem>>)
    requires
        workers > 0,
    ensures
        chunks.deep_view() == static_chunks(items.deep_view(), workers as nat),
{
    let n = items.len();
    proof {
        lemma_chunk_len(n as nat, workers as nat);
    }
    let len = n / workers + if n % workers == 0 {
        0
    } else {
        1
    };
    let ghost all = items.deep_view();
    let mut chunks: Vec<Vec<WorkItem>> = Vec::new();
    let mut start: usize = 0;
    assert(0 * len == 0);
    while start < n
        invariant
            workers > 0,
            n == items.len(),
            all == items.deep_view(),
            len == chunk_len(n as nat, workers as nat),
            n > 0 ==> len > 0,
            start <= n,
            start < n ==> start == chunks.len() * len,
            start == n ==> chunks.len() * len >= n,
            chunks.len() > 0 ==> (chunks.len() - 1) * len < n,
            chunks.deep_view() =~= chunks_upto(all, len as nat, chunks.len() as nat),
        decreases n - start,
    {
        let ghost j = chunks.len() as int;
        let ghost before = chunks.deep_view();
        let end = if n - start > len {
            start + len
        } else {
            n
        };
        assert((j + 1) * len == start + len) by (nonlinear_arith)
            requires
                start == j * len,
        ;
        let mut chunk: Vec<WorkItem> = Vec::new();
        let mut i = start;
        while i < end
            invariant
                start <= i <= end <= n,
                n == items.len(),
                all == items.deep_view(),
                chunk.deep_view() =~= all.subrange(start as int, i as int),
            decreases end - i,
        {
            let ghost copied = chunk.deep_view();
            let item = items[i].clone();
            chunk.push(item);
            assert(chunk.deep_view() =~= copied.push(all[i as int]));
            i += 1;
        }
        assert(chunk.deep_view() == chunk_at(all, len as nat, j));
        chunks.push(chunk);
        assert(chunks.deep_view() =~= before.push(chunk_at(all, len as nat, j)));
        start = end;
    }
    proof {
        if n > 0 {
            lemma_chunk_count(n as nat, workers as nat, chunks.len() as nat);
        } else {
            assert(chunk_count(0, workers as nat) == 0);
        }
    }
    chunks
}

/// The queue of worker `w` once a whole listing has been dispatched round
/// robin: the work items of the regular files whose position in the listing,
/// directories counted, leaves the remainder `w` when divided by the number
/// of workers, in listing order.
pub open spec fn round_robin_queue(
    listing: Seq<EntryView>,
    input_dir: Seq<char>,
    output_dir: Seq<char>,
    workers: nat,
    w: int,
) -> Seq<WorkItemView>
    decreases listing.len(),
{
    if listing.len() == 0 {
        Seq::empty()
    } else {
        let earlier = round_robin_queue(listing.drop_last(), input_dir, output_dir, workers, w);
        let position = listing.len() - 1;
        if !listing.last().is_dir && workers > 0 && position % (workers as int) == w {
            earlier.push(work_item_for(listing.last(), input_dir, output_dir))
        } else {
            earlier
        }
    }
}

/// The queues of all workers once a whole listing has been dispatched round
/// robin.
pub open spec fn round_robin_queues(
    listing: Seq<EntryView>,
    input_dir: Seq<char>,
    output_dir: Seq<char>,
    workers: nat,
) -> Seq<Seq<WorkItemView>> {
    Seq::new(workers, |w: int| round_robin_queue(listing, input_dir, output_dir, workers, w))
}

/// One work item on its way to the queue of one worker.
#[derive(Debug)]
pub struct Assignment {
    pub worker: usize,
    pub item: WorkItem,
}

/// The streaming round-robin dispatcher. It is offered the entries of the
/// input directory one by one, as they are read, and sends each regular file
/// to the worker whose turn it is. Every entry takes a turn, directories
/// too, so an entry's worker is its position in the listing modulo the number
/// of workers.
#[derive(Clone, Copy, Debug)]
pub struct RoundRobin {
    workers: usize,
    next: usize,
}

impl RoundRobin {
    #[verifier::type_invariant]
    spec fn well_formed(self) -> bool {
        self.next < self.workers
    }

    /// The number of workers that entries are dealt to.
    pub closed spec fn workers(self) -> nat {
        self.workers as nat
    }

    /// The worker whose turn it is.
    pub closed spec fn next_worker(self) -> nat {
        self.next as nat
    }

    /// A dispatcher for `workers` workers, at the start of a listing.
    pub fn new(workers: usize) -> (dispatcher: RoundRobin)
        requires
            workers > 0,
        ensures
            dispatcher.workers() == workers,
            dispatcher.next_worker() == 0,
    {
        RoundRobin { workers, next: 0 }
    }

    /// The number of workers that entries are dealt to.
    pub fn worker_count(&self) -> (count: usize)
        ensures
            count == self.workers(),
            count > 0,
    {
        proof {
            use_type_invariant(self);
        }
        self.workers
    }

    /// The worker whose turn it is.
    pub fn turn(&self) -> (worker: usize)
        ensures
            worker == self.next_worker(),
            worker < self.workers(),
    {
        proof {
            use_type_invariant(self);
        }
        self.next
    }

    /// Takes the next entry of the listing. A regular file is assigned to the
    /// worker whose turn it is, a directory to nobody; either way the turn
    /// passes to the next worker, and from the last worker back to the first.
    pub fn offer(&mut self, entry: &ListingEntry, input_dir: &str, output_dir: &str) -> (routing:
        Option<Assignment>)
        ensures
            final(self).workers() == old(self).workers(),
            old(self).workers() > 0,
            old(self).next_worker() < old(self).workers(),
            final(self).next_worker() == (old(self).next_worker() as int + 1) % (old(
                self,
            ).workers() as int),
            entry.is_dir ==> routing is None,
            !entry.is_dir ==> routing is Some && routing->0.worker == old(self).next_worker()
                && routing->0.item@ == work_item_for(entry@, input_dir@, output_dir@),
    {
        proof {
            use_type_invariant(&*self);
            if self.next + 1 == self.workers {
                vstd::arithmetic::div_mod::lemma_mod_self_0(self.workers as int);
            } else {
                vstd::arithmetic::div_mod::lemma_small_mod(
                    (self.next + 1) as nat,
                    self.workers as nat,
                );
            }
        }
        let worker = self.next;
        self.next = if self.next + 1 == self.workers {
            0
        } else {
            self.next + 1
        };
        if entry.is_dir {
            None
        } else {
            Some(Assignment { worker, item: make_work_item(entry, input_dir, output_dir) })
        }
    }
}

/// Round-robin dispatch loses nothing and repeats nothing: between them the
/// queues hold the work items of the listing, each as often as the listing
/// gives rise to it.
pub proof fn lemma_round_robin_covers(
    listing: Seq<EntryView>,
    input_dir: Seq<char>,
    output_dir: Seq<char>,
    workers: nat,
)
    requires
        workers > 0,
    ensures
        pooled(round_robin_queues(listing, input_dir, output_dir, workers)) =~= spec_enumerate(
            listing,
            input_dir,
            output_dir,
        ).to_multiset(),
    decreases listing.len(),
{
    let queues = round_robin_queues(listing, input_dir, output_dir, workers);
    let items = spec_enumerate(listing, input_dir, output_dir);
    if listing.len() == 0 {
        lemma_pooled_empty(queues);
        lemma_pooled_empty(seq![items]);
        assert(seq![items].drop_last() =~= Seq::<Seq<WorkItemView>>::empty());
        assert(pooled(seq![items]) =~= items.to_multiset());
    } else {
        let init = listing.drop_last();
        let earlier = round_robin_queues(init, input_dir, output_dir, workers);
        lemma_round_robin_covers(init, input_dir, output_dir, workers);
        if listing.last().is_dir {
            assert(queues =~= earlier);
        } else {
            let item = work_item_for(listing.last(), input_dir, output_dir);
            let w = (listing.len() - 1) % (workers as int);
            vstd::arithmetic::div_mod::lemma_mod_bound(listing.len() - 1, workers as int);
            assert(queues =~= earlier.update(w, earlier[w].push(item)));
            lemma_pooled_push(earlier, w, item);
            vstd::seq_lib::to_multiset_build(
                spec_enumerate(init, input_dir, output_dir),
                item,
            );
        }
    }
}

/// Taking one more turn moves from the remainder of a position to the
/// remainder of the next position.
pub proof fn lemma_turns(position: nat, workers: nat)
    requires
        workers > 0,
    ensures
        ((position % workers) as int + 1) % (workers as int) == (position as int + 1) % (
        workers as int),
{
    vstd::arithmetic::div_mod::lemma_add_mod_noop(position as int, 1, workers as int);
    if workers > 1 {
        vstd::arithmetic::div_mod::lemma_small_mod(1, workers);
    }
}

/// Deals a whole listing round robin: the queues that the workers of the
/// streaming dispatcher have been sent by the time the listing ends.
pub fn round_robin_partition(
    listing: &Vec<ListingEntry>,
    input_dir: &str,
    output_dir: &str,
    workers: usize,
) -> (queues: Vec<Vec<WorkItem>>)
    requires
        workers > 0,
    ensures
        queues.deep_view() == round_robin_queues(
            listing.deep_view(),
            input_dir@,
            output_dir@,
            workers as nat,
        ),
{
    let ghost all = listing.deep_view();
    let mut queues: Vec<Vec<WorkItem>> = Vec::new();
    let mut w: usize = 0;
    while w < workers
        invariant
            w <= workers,
            queues.len() == w,
            forall|v: int| 0 <= v < w ==> (#[trigger] queues[v]).len() == 0,
        decreases workers - w,
    {
        queues.push(Vec::new());
        w += 1;
    }
    let mut dispatcher = RoundRobin::new(workers);
    let mut i: usize = 0;
    assert(queues.deep_view() =~~= round_robin_queues(
        all.take(0),
        input_dir@,
        output_dir@,
        workers as nat,
    ));
    proof {
        vstd::arithmetic::div_mod::lemma_small_mod(0, workers as nat);
    }
    while i < listing.len()
        invariant
            workers > 0,
            i <= listing.len(),
            all == listing.deep_view(),
            queues.len() == workers,
            dispatcher.workers() == workers,
            dispatcher.next_worker() == i % workers,
            queues.deep_view() =~~= round_robin_queues(
                all.take(i as int),
                input_dir@,
                output_dir@,
                workers as nat,
            ),
        decreases listing.len() - i,
    {
        let ghost before = queues.deep_view();
        let routing = dispatcher.offer(&listing[i], input_dir, output_dir);
        proof {
            lemma_turns(i as nat, workers as nat);
            let prefix = all.take(i as int + 1);
            assert(prefix.drop_last() =~= all.take(i as int));
            assert(prefix.last() == listing[i as int]@);
        }
        match routing {
            Some(assignment) => {
                let ghost item = assignment.item@;
                let worker = assignment.worker;
                queues[worker].push(assignment.item);
                assert(queues.deep_view() =~~= before.update(
                    worker as int,
                    before[worker as int].push(item),
                ));
            },
            None => {},
        }
        i += 1;
        assert(queues.deep_view() =~~= round_robin_queues(
            all.take(i as int),
            input_dir@,
            output_dir@,
            workers as nat,
        ));
    }
    proof {
        assert(all.take(i as int) =~= all);
    }
    queues
}

} // verus!
