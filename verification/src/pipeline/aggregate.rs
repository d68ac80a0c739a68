//! The result aggregator: counting the successes of a run, and reporting
//! them.

use crate::pipeline::outcome::{lemma_count_push, successes, ProcessingOutcome};
use vstd::prelude::*;
use vstd::string::*;

verus! {

/// The decimal digit for a number below ten.
pub open spec fn digit(d: nat) -> char {
    if d == 0 {
        '0'
    } else if d == 1 {
        '1'
    } else if d == 2 {
        '2'
    } else if d == 3 {
        '3'
    } else if d == 4 {
        '4'
    } else if d == 5 {
        '5'
    } else if d == 6 {
        '6'
    } else if d == 7 {
        '7'
    } else if d == 8 {
        '8'
    } else {
        '9'
    }
}

/// A number written in decimal, without sign or leading zeros.
pub open spec fn decimal(n: nat) -> Seq<char>
    decreases n,
{
    if n < 10 {
        seq![digit(n)]
    } else {
        decimal(n / 10).push(digit(n % 10))
    }
}

/// The line that reports a run with `n` successes.
pub open spec fn report_text(n: nat) -> Seq<char> {
    "Processed "@ + decimal(n) + " images"@
}

fn digit_text(d: usize) -> (text: &'static str)
    requires
        d < 10,
    ensures
        text@ == seq![digit(d as nat)],
{
    proof {
        reveal_strlit("0");
        reveal_strlit("1");
        reveal_strlit("2");
        reveal_strlit("3");
        reveal_strlit("4");
        reveal_strlit("5");
        reveal_strlit("6");
        reveal_strlit("7");
        reveal_strlit("8");
        reveal_strlit("9");
    }
    let text = if d == 0 {
        "0"
    } else if d == 1 {
        "1"
    } else if d == 2 {
        "2"
    } else if d == 3 {
        "3"
    } else if d == 4 {
        "4"
    } else if d == 5 {
        "5"
    } else if d == 6 {
        "6"
    } else if d == 7 {
        "7"
    } else if d == 8 {
        "8"
    } else {
        "9"
    };
    assert(text@ =~= seq![digit(d as nat)]);
    text
}

/// Writes `n` in decimal.
pub fn decimal_string(n: usize) -> (text: String)
    ensures
        text@ == decimal(n as nat),
    decreases n,
{
    if n < 10 {
        String::from_str(digit_text(n))
    } else {
        let mut text = decimal_string(n / 10);
        text.append(digit_text(n % 10));
        assert(text@ =~= decimal((n / 10) as nat).push(digit((n % 10) as nat)));
        text
    }
}

/// What a run has to show for itself: the number of thumbnails written.
#[derive(Clone, Copy, Debug, PartialEq, Eq, Structural)]
pub struct RunSummary {
    pub count: usize,
}

impl RunSummary {
    /// The one line a run reports when it is over.
    pub fn report_line(&self) -> (line: String)
        ensures
            line@ == report_text(self.count as nat),
    {
        let mut line = String::from_str("Processed ");
        let number = decimal_string(self.count);
        line.append(number.as_str());
        line.append(" images");
        line
    }
}

/// What every aggregator does: it is told the outcome of each retired item,
/// counts one for each success and nothing for each failure, and hands out
/// the count when asked.
pub trait Aggregator {
    /// The number of successes counted so far.
    spec fn count(&self) -> nat;

    /// Takes note of the outcome of one item.
    fn record(&mut self, outcome: ProcessingOutcome)
        requires
            old(self).count() < usize::MAX,
        ensures
            final(self).count() == old(self).count() + outcome.spec_contribution(),
    ;

    /// The summary of what has been recorded.
    fn summary(&self) -> (summary: RunSummary)
        ensures
            summary.count == self.count(),
    ;
}

/// The accumulator that the workers of a static partition share. The caller
/// keeps it behind a lock, so that no two workers record at once.
#[derive(Debug)]
pub struct LockedCounter {
    count: usize,
}

impl LockedCounter {
    /// A counter that has counted nothing.
    pub fn new() -> (counter: LockedCounter)
        ensures
            counter.count() == 0,
    {
        LockedCounter { count: 0 }
    }
}

impl Aggregator for LockedCounter {
    closed spec fn count(&self) -> nat {
        self.count as nat
    }

    fn record(&mut self, outcome: ProcessingOutcome) {
        self.count = self.count + outcome.contribution();
    }

    fn summary(&self) -> (summary: RunSummary) {
        RunSummary { count: self.count }
    }
}

/// The message a worker puts on the report channel for one outcome: one
/// message for a success, none for a failure.
pub fn report_for(outcome: ProcessingOutcome) -> (message: Option<usize>)
    ensures
        message == if outcome is Success {
            Some(1usize)
        } else {
            None
        },
{
    match outcome {
        ProcessingOutcome::Success => Some(1),
        _ => None,
    }
}

/// The receiving end of the report channel that the workers of the streaming
/// dispatcher send to. It counts the messages that arrive.
#[derive(Debug)]
pub struct ReportTally {
    received: usize,
}

impl ReportTally {
    /// A tally that has received nothing.
    pub fn new() -> (tally: ReportTally)
        ensures
            tally.count() == 0,
    {
        ReportTally { received: 0 }
    }

    /// Takes one message off the channel. Each message stands for one
    /// success, whatever it holds.
    pub fn receive(&mut self, message: usize)
        requires
            old(self).count() < usize::MAX,
        ensures
            final(self).count() == old(self).count() + 1,
    {
        self.received = self.received + 1;
    }
}

impl Aggregator for ReportTally {
    closed spec fn count(&self) -> nat {
        self.received as nat
    }

    fn record(&mut self, outcome: ProcessingOutcome) {
        match report_for(outcome) {
            Some(message) => self.receive(message),
            None => {},
        }
    }

    fn summary(&self) -> (summary: RunSummary) {
        RunSummary { count: self.received }
    }
}

/// Records a whole sequence of outcomes, in order.
pub fn record_all<A: Aggregator>(aggregator: &mut A, outcomes: &Vec<ProcessingOutcome>)
    requires
        old(aggregator).count() + outcomes.len() <= usize::MAX,
    ensures
        final(aggregator).count() == old(aggregator).count() + successes(outcomes@),
{
    let ghost start = aggregator.count();
    let mut i: usize = 0;
    proof {
        crate::pipeline::outcome::lemma_counts_partition(outcomes@.take(0));
    }
    while i < outcomes.len()
        invariant
            i <= outcomes.len(),
            start + outcomes.len() <= usize::MAX,
            aggregator.count() == start + successes(outcomes@.take(i as int)),
            successes(outcomes@.take(i as int)) <= i,
        decreases outcomes.len() - i,
    {
        proof {
            assert(outcomes@.take(i as int + 1) =~= outcomes@.take(i as int).push(
                outcomes@[i as int],
            ));
            lemma_count_push(
                outcomes@.take(i as int),
                outcomes@[i as int],
                ProcessingOutcome::Success,
            );
        }
        aggregator.record(outcomes[i]);
        i += 1;
    }
    proof {
        assert(outcomes@.take(i as int) =~= outcomes@);
    }
}

/// Adds up what each outcome contributes: the reduction that closes a
/// parallel map over the work items.
pub fn reduce(outcomes: &Vec<ProcessingOutcome>) -> (summary: RunSummary)
    ensures
        summary.count == successes(outcomes@),
{
    let mut counter = LockedCounter::new();
    record_all(&mut counter, outcomes);
    counter.summary()
}

} // verus!
