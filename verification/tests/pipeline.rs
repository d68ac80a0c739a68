use rayon::iter::{IntoParallelIterator, ParallelIterator};
use workbook::pipeline::aggregate::{
    decimal_string, record_all, reduce, report_for, Aggregator, LockedCounter, ReportTally,
    RunSummary,
};
use workbook::pipeline::dispatch::{
    round_robin_partition, static_partition, RoundRobin, DEFAULT_WORKERS,
};
use workbook::pipeline::item::{enumerate, make_work_item, ListingEntry, WorkItem};
use workbook::pipeline::outcome::ProcessingOutcome;
use workbook::pipeline::worker::{
    CodecEvent, Worker, WorkerAction, THUMBNAIL_HEIGHT, THUMBNAIL_WIDTH,
};

fn file(name: &str) -> ListingEntry {
    ListingEntry { name: name.to_string(), is_dir: false }
}

fn dir(name: &str) -> ListingEntry {
    ListingEntry { name: name.to_string(), is_dir: true }
}

fn names(items: &Vec<WorkItem>) -> Vec<String> {
    items.iter().map(|item| item.source.name.clone()).collect()
}

fn numbered(count: usize) -> Vec<ListingEntry> {
    (0..count).map(|i| file(&format!("{}.png", i))).collect()
}

/// A codec that decodes every `.png` but those named `corrupt`, and writes
/// every thumbnail but those named `readonly`.
fn process(item: &WorkItem, written: &mut Vec<String>) -> ProcessingOutcome {
    let mut worker = Worker::begin(item.clone());
    loop {
        match worker.pending() {
            WorkerAction::Decode { source } => {
                assert_eq!(source.dir, item.source.dir);
                assert_eq!(source.name, item.source.name);
                if source.name.ends_with(".png") && !source.name.starts_with("corrupt") {
                    worker.handle(CodecEvent::Decoded);
                } else {
                    worker.handle(CodecEvent::DecodeFailed);
                }
            }
            WorkerAction::Save { target, max_width, max_height } => {
                assert_eq!(max_width, 64);
                assert_eq!(max_height, 64);
                assert_eq!(target.dir, item.output_dir);
                if target.name.starts_with("readonly") {
                    worker.handle(CodecEvent::SaveFailed);
                } else {
                    written.push(target.name);
                    worker.handle(CodecEvent::Saved);
                }
            }
            WorkerAction::Retire { outcome } => {
                assert_eq!(worker.outcome(), Some(outcome));
                return outcome;
            }
        }
    }
}

fn scenario() -> Vec<ListingEntry> {
    vec![
        file("a.png"),
        file("empty.jpg"),
        file("b.png"),
        file("c.png"),
        file("notes.txt"),
        file("d.png"),
        file("e.png"),
    ]
}

#[test]
fn subdirectories_are_excluded() {
    let listing = vec![file("a.png"), dir("nested"), file("b.png"), file("c.png")];
    let items = enumerate(&listing, "in", "out");
    assert_eq!(items.len(), 3);
    assert_eq!(names(&items), vec!["a.png", "b.png", "c.png"]);
    for item in &items {
        assert_eq!(item.source.dir, "in");
        assert_eq!(item.output_dir, "out");
    }
}

#[test]
fn empty_directory_reports_zero() {
    let listing: Vec<ListingEntry> = vec![];
    let items = enumerate(&listing, "in", "out");
    assert!(items.is_empty());
    assert!(static_partition(&items, 4).is_empty());
    let queues = round_robin_partition(&listing, "in", "out", 4);
    assert_eq!(queues.len(), 4);
    assert!(queues.iter().all(|queue| queue.is_empty()));
    let summary = reduce(&vec![]);
    assert_eq!(summary.count, 0);
    assert_eq!(summary.report_line(), "Processed 0 images");
}

#[test]
fn output_path_is_output_directory_and_source_name() {
    let item = make_work_item(&file("cat.png"), "photos/in", "photos/out");
    let target = item.output_path();
    assert_eq!(target.dir, "photos/out");
    assert_eq!(target.name, "cat.png");
    assert_eq!(item.source.dir, "photos/in");
    assert_eq!(item.source.name, "cat.png");
}

#[test]
fn static_partition_cuts_near_equal_chunks() {
    let items = enumerate(&numbered(10), "in", "out");
    let chunks = static_partition(&items, 4);
    let lengths: Vec<usize> = chunks.iter().map(|chunk| chunk.len()).collect();
    assert_eq!(lengths, vec![3, 3, 3, 1]);
    let flat: Vec<String> = chunks.iter().flat_map(|chunk| names(chunk)).collect();
    assert_eq!(flat, names(&items));
}

#[test]
fn static_partition_may_use_fewer_chunks_than_workers() {
    let items = enumerate(&numbered(5), "in", "out");
    let lengths: Vec<usize> =
        static_partition(&items, 4).iter().map(|chunk| chunk.len()).collect();
    assert_eq!(lengths, vec![2, 2, 1]);
    let items = enumerate(&numbered(9), "in", "out");
    let lengths: Vec<usize> =
        static_partition(&items, 4).iter().map(|chunk| chunk.len()).collect();
    assert_eq!(lengths, vec![3, 3, 3]);
    let items = enumerate(&numbered(2), "in", "out");
    let lengths: Vec<usize> =
        static_partition(&items, 4).iter().map(|chunk| chunk.len()).collect();
    assert_eq!(lengths, vec![1, 1]);
}

#[test]
fn static_partition_with_one_worker_is_one_chunk() {
    let items = enumerate(&numbered(6), "in", "out");
    let chunks = static_partition(&items, 1);
    assert_eq!(chunks.len(), 1);
    assert_eq!(names(&chunks[0]), names(&items));
}

#[test]
fn static_partition_of_exact_multiple() {
    let items = enumerate(&numbered(8), "in", "out");
    let lengths: Vec<usize> =
        static_partition(&items, 4).iter().map(|chunk| chunk.len()).collect();
    assert_eq!(lengths, vec![2, 2, 2, 2]);
}

#[test]
fn round_robin_deals_by_listing_position() {
    let listing = vec![
        file("0.png"),
        file("1.png"),
        dir("2"),
        file("3.png"),
        file("4.png"),
        file("5.png"),
        dir("6"),
        file("7.png"),
    ];
    let queues = round_robin_partition(&listing, "in", "out", 3);
    assert_eq!(queues.len(), 3);
    assert_eq!(names(&queues[0]), vec!["0.png", "3.png"]);
    assert_eq!(names(&queues[1]), vec!["1.png", "4.png", "7.png"]);
    assert_eq!(names(&queues[2]), vec!["5.png"]);
}

#[test]
fn round_robin_streams_one_entry_at_a_time() {
    let mut dispatcher = RoundRobin::new(2);
    let first = dispatcher.offer(&file("a.png"), "in", "out").unwrap();
    assert_eq!(first.worker, 0);
    assert_eq!(first.item.source.name, "a.png");
    assert_eq!(first.item.output_dir, "out");
    assert!(dispatcher.offer(&dir("sub"), "in", "out").is_none());
    let third = dispatcher.offer(&file("b.png"), "in", "out").unwrap();
    assert_eq!(third.worker, 0);
    let fourth = dispatcher.offer(&file("c.png"), "in", "out").unwrap();
    assert_eq!(fourth.worker, 1);
}

#[test]
fn worker_skips_saving_after_decode_failure() {
    let item = make_work_item(&file("notes.txt"), "in", "out");
    let mut worker = Worker::begin(item);
    assert!(matches!(worker.pending(), WorkerAction::Decode { .. }));
    assert_eq!(worker.outcome(), None);
    worker.handle(CodecEvent::DecodeFailed);
    assert_eq!(worker.outcome(), Some(ProcessingOutcome::DecodeFailure));
    assert!(matches!(
        worker.pending(),
        WorkerAction::Retire { outcome: ProcessingOutcome::DecodeFailure }
    ));
}

#[test]
fn worker_saves_within_thumbnail_bounds() {
    let item = make_work_item(&file("cat.png"), "in", "out");
    let mut worker = Worker::begin(item);
    worker.handle(CodecEvent::Decoded);
    match worker.pending() {
        WorkerAction::Save { target, max_width, max_height } => {
            assert_eq!(target.dir, "out");
            assert_eq!(target.name, "cat.png");
            assert_eq!(max_width, THUMBNAIL_WIDTH);
            assert_eq!(max_height, THUMBNAIL_HEIGHT);
            assert_eq!((max_width, max_height), (64, 64));
        }
        other => panic!("expected a save, got {:?}", other),
    }
    worker.handle(CodecEvent::Saved);
    assert_eq!(worker.outcome(), Some(ProcessingOutcome::Success));
}

#[test]
fn worker_counts_write_failure_as_no_success() {
    let item = make_work_item(&file("cat.png"), "in", "out");
    let mut worker = Worker::begin(item);
    worker.handle(CodecEvent::Decoded);
    worker.handle(CodecEvent::SaveFailed);
    assert_eq!(worker.outcome(), Some(ProcessingOutcome::WriteFailure));
    assert_eq!(ProcessingOutcome::WriteFailure.contribution(), 0);
    assert!(!ProcessingOutcome::WriteFailure.is_success());
}

#[test]
fn worker_ignores_answers_it_did_not_ask_for() {
    let item = make_work_item(&file("cat.png"), "in", "out");
    let mut worker = Worker::begin(item);
    worker.handle(CodecEvent::Saved);
    assert_eq!(worker.outcome(), None);
    assert!(matches!(worker.pending(), WorkerAction::Decode { .. }));
    worker.handle(CodecEvent::Decoded);
    worker.handle(CodecEvent::DecodeFailed);
    assert!(matches!(worker.pending(), WorkerAction::Save { .. }));
    worker.handle(CodecEvent::Saved);
    worker.handle(CodecEvent::SaveFailed);
    assert_eq!(worker.outcome(), Some(ProcessingOutcome::Success));
}

#[test]
fn contributions_are_one_for_success_only() {
    assert_eq!(ProcessingOutcome::Success.contribution(), 1);
    assert_eq!(ProcessingOutcome::DecodeFailure.contribution(), 0);
    assert!(ProcessingOutcome::Success.is_success());
    assert!(!ProcessingOutcome::DecodeFailure.is_success());
    assert_eq!(report_for(ProcessingOutcome::Success), Some(1));
    assert_eq!(report_for(ProcessingOutcome::DecodeFailure), None);
    assert_eq!(report_for(ProcessingOutcome::WriteFailure), None);
}

#[test]
fn aggregators_agree() {
    let outcomes = vec![
        ProcessingOutcome::Success,
        ProcessingOutcome::DecodeFailure,
        ProcessingOutcome::Success,
        ProcessingOutcome::WriteFailure,
        ProcessingOutcome::Success,
    ];
    let mut counter = LockedCounter::new();
    let mut tally = ReportTally::new();
    for outcome in &outcomes {
        counter.record(*outcome);
        tally.record(*outcome);
    }
    assert_eq!(counter.summary(), RunSummary { count: 3 });
    assert_eq!(tally.summary(), RunSummary { count: 3 });
    assert_eq!(reduce(&outcomes), RunSummary { count: 3 });
    let mut again = ReportTally::new();
    record_all(&mut again, &outcomes);
    record_all(&mut again, &outcomes);
    assert_eq!(again.summary().count, 6);
}

#[test]
fn report_tally_counts_messages_not_their_contents() {
    let mut tally = ReportTally::new();
    tally.receive(1);
    tally.receive(7);
    tally.receive(0);
    assert_eq!(tally.summary().count, 3);
}

#[test]
fn decimal_strings() {
    assert_eq!(decimal_string(0), "0");
    assert_eq!(decimal_string(7), "7");
    assert_eq!(decimal_string(10), "10");
    assert_eq!(decimal_string(10_000), "10000");
    assert_eq!(decimal_string(1234567890), "1234567890");
    assert_eq!(decimal_string(usize::MAX), usize::MAX.to_string());
}

#[test]
fn report_line_names_the_count() {
    assert_eq!(RunSummary { count: 5 }.report_line(), "Processed 5 images");
    assert_eq!(RunSummary { count: 10_000 }.report_line(), "Processed 10000 images");
}

#[test]
fn five_valid_images_and_two_invalid_files() {
    let listing = scenario();
    let expected = vec!["a.png", "b.png", "c.png", "d.png", "e.png"];

    // streaming round robin, counted over the report channel
    let mut written = Vec::new();
    let mut tally = ReportTally::new();
    for queue in round_robin_partition(&listing, "in", "out", DEFAULT_WORKERS) {
        for item in &queue {
            if let Some(message) = report_for(process(item, &mut written)) {
                tally.receive(message);
            }
        }
    }
    assert_eq!(tally.summary().report_line(), "Processed 5 images");
    written.sort();
    assert_eq!(written, expected);

    // static partition, counted under the lock
    let items = enumerate(&listing, "in", "out");
    assert_eq!(items.len(), 7);
    let mut written = Vec::new();
    let mut counter = LockedCounter::new();
    for chunk in static_partition(&items, DEFAULT_WORKERS) {
        for item in &chunk {
            counter.record(process(item, &mut written));
        }
    }
    assert_eq!(counter.summary().report_line(), "Processed 5 images");
    written.sort();
    assert_eq!(written, expected);

    // dynamic pool, reduced at the end
    let mut written = Vec::new();
    let outcomes: Vec<ProcessingOutcome> =
        items.iter().rev().map(|item| process(item, &mut written)).collect();
    assert_eq!(reduce(&outcomes).report_line(), "Processed 5 images");
    written.sort();
    assert_eq!(written, expected);
}

#[test]
fn count_is_files_less_failures() {
    let listing = vec![
        file("a.png"),
        dir("more"),
        file("corrupt1.png"),
        file("readonly1.png"),
        file("b.png"),
        file("readonly2.png"),
        file("c.gif"),
    ];
    let items = enumerate(&listing, "in", "out");
    let mut written = Vec::new();
    let outcomes: Vec<ProcessingOutcome> =
        items.iter().map(|item| process(item, &mut written)).collect();
    let decode_failures =
        outcomes.iter().filter(|o| **o == ProcessingOutcome::DecodeFailure).count();
    let write_failures =
        outcomes.iter().filter(|o| **o == ProcessingOutcome::WriteFailure).count();
    assert_eq!(items.len(), 6);
    assert_eq!(decode_failures, 2);
    assert_eq!(write_failures, 2);
    assert_eq!(reduce(&outcomes).count, 6 - 2 - 2);
    assert_eq!(written, vec!["a.png", "b.png"]);
}

#[test]
fn strategies_report_the_same_count() {
    let mut listing = numbered(23);
    listing.insert(3, dir("nested"));
    listing.insert(11, file("corrupt.png"));
    listing.insert(17, file("readonly.png"));
    for workers in 1..9 {
        let items = enumerate(&listing, "in", "out");
        let mut sink = Vec::new();

        let mut tally = ReportTally::new();
        let mut processed = 0;
        for queue in round_robin_partition(&listing, "in", "out", workers) {
            for item in &queue {
                tally.record(process(item, &mut sink));
                processed += 1;
            }
        }
        assert_eq!(processed, items.len());

        let mut counter = LockedCounter::new();
        let chunks = static_partition(&items, workers);
        assert!(chunks.len() <= workers);
        for chunk in chunks.iter().rev() {
            for item in chunk {
                counter.record(process(item, &mut sink));
            }
        }

        let outcomes: Vec<ProcessingOutcome> =
            items.iter().map(|item| process(item, &mut sink)).collect();
        let reduced = reduce(&outcomes);

        assert_eq!(reduced.count, 23);
        assert_eq!(tally.summary(), reduced);
        assert_eq!(counter.summary(), reduced);
    }
}

#[test]
fn no_update_is_lost_among_eight_workers() {
    let listing = numbered(10_000);
    let queues = round_robin_partition(&listing, "in", "out", 8);
    let mut cursors = vec![0usize; 8];
    let mut counter = LockedCounter::new();
    let mut sink = Vec::new();
    // the workers take turns in an uneven order until all queues are drained
    let mut step = 0usize;
    let mut retired = 0usize;
    while retired < 10_000 {
        let worker = (step * step + step / 3) % 8;
        step += 1;
        if cursors[worker] < queues[worker].len() {
            counter.record(process(&queues[worker][cursors[worker]], &mut sink));
            cursors[worker] += 1;
            retired += 1;
        }
    }
    assert_eq!(counter.summary().count, 10_000);
    sink.sort();
    sink.dedup();
    assert_eq!(sink.len(), 10_000);
}

#[test]
fn every_item_is_dealt_out_exactly_once() {
    let mut listing = numbered(37);
    listing.insert(5, dir("nested"));
    listing.insert(20, dir("more"));
    let items = enumerate(&listing, "in", "out");
    let mut expected = names(&items);
    expected.sort();
    for workers in 1..12 {
        let mut dealt: Vec<String> = round_robin_partition(&listing, "in", "out", workers)
            .iter()
            .flat_map(|queue| names(queue))
            .collect();
        dealt.sort();
        assert_eq!(dealt, expected);
        let cut: Vec<String> =
            static_partition(&items, workers).iter().flat_map(|chunk| names(chunk)).collect();
        assert_eq!(cut, names(&items));
    }
}

#[test]
fn concurrent_increments_are_not_lost() {
    let items = enumerate(&numbered(10_000), "in", "out");
    let counter = std::sync::Mutex::new(LockedCounter::new());
    let pool = rayon::ThreadPoolBuilder::new().num_threads(8).build().unwrap();
    let written: usize = pool.install(|| {
        items
            .into_par_iter()
            .map(|item| {
                let mut sink = Vec::new();
                let outcome = process(&item, &mut sink);
                counter.lock().unwrap().record(outcome);
                sink.len()
            })
            .sum()
    });
    assert_eq!(written, 10_000);
    assert_eq!(counter.lock().unwrap().summary().count, 10_000);
}
