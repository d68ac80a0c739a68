//! Per-item results and how they are counted.

use vstd::multiset::Multiset;
use vstd::prelude::*;

verus! {

/// What became of one work item.
#[derive(Clone, Copy, Debug, PartialEq, Eq, Structural)]
pub enum ProcessingOutcome {
    /// The thumbnail was written.
    Success,
    /// The source could not be read as an image; nothing was written.
    DecodeFailure,
    /// The thumbnail could not be written.
    WriteFailure,
}

impl ProcessingOutcome {
    /// What one outcome adds to the run's count: one for a success, nothing
    /// for either failure.
    pub open spec fn spec_contribution(self) -> nat {
        if self is Success {
            1
        } else {
            0
        }
    }

    /// What this outcome adds to the run's count.
    pub fn contribution(self) -> (c: usize)
        ensures
            c == self.spec_contribution(),
    {
        match self {
            ProcessingOutcome::Success => 1,
            _ => 0,
        }
    }

    /// Whether the thumbnail was written.
    pub fn is_success(self) -> (b: bool)
        ensures
            b == (self is Success),
    {
        match self {
            ProcessingOutcome::Success => true,
            _ => false,
        }
    }
}

/// How many of `outcomes` are `kind`.
pub open spec fn count_of(outcomes: Seq<ProcessingOutcome>, kind: ProcessingOutcome) -> nat {
    outcomes.to_multiset().count(kind)
}

/// How many of `outcomes` are successes.
pub open spec fn successes(outcomes: Seq<ProcessingOutcome>) -> nat {
    count_of(outcomes, ProcessingOutcome::Success)
}

/// How many of `outcomes` are decode failures.
pub open spec fn decode_failures(outcomes: Seq<ProcessingOutcome>) -> nat {
    count_of(outcomes, ProcessingOutcome::DecodeFailure)
}

/// How many of `outcomes` are write failures.
pub open spec fn write_failures(outcomes: Seq<ProcessingOutcome>) -> nat {
    count_of(outcomes, ProcessingOutcome::WriteFailure)
}

/// Appending one outcome raises the count of its own kind by one and leaves
/// the other counts alone.
pub proof fn lemma_count_push(
    outcomes: Seq<ProcessingOutcome>,
    next: ProcessingOutcome,
    kind: ProcessingOutcome,
)
    ensures
        count_of(outcomes.push(next), kind) == count_of(outcomes, kind) + if next == kind {
            1nat
        } else {
            0nat
        },
{
    vstd::seq_lib::to_multiset_build(outcomes, next);
}

/// Every outcome is a success, a decode failure or a write failure, so the
/// three counts add up to the number of outcomes.
pub proof fn lemma_counts_partition(outcomes: Seq<ProcessingOutcome>)
    ensures
        successes(outcomes) + decode_failures(outcomes) + write_failures(outcomes)
            == outcomes.len(),
    decreases outcomes.len(),
{
    if outcomes.len() == 0 {
        outcomes.to_multiset_ensures();
        assert(outcomes.to_multiset().len() == 0);
        assert(outcomes.to_multiset() =~= Multiset::empty()) by {
            vstd::multiset::lemma_multiset_empty_len(outcomes.to_multiset());
        }
    } else {
        let init = outcomes.drop_last();
        let last = outcomes.last();
        lemma_counts_partition(init);
        assert(outcomes =~= init.push(last));
        lemma_count_push(init, last, ProcessingOutcome::Success);
        lemma_count_push(init, last, ProcessingOutcome::DecodeFailure);
        lemma_count_push(init, last, ProcessingOutcome::WriteFailure);
    }
}

} // verus!
