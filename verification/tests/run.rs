use workbook::pipeline::aggregate::RunSummary;
use workbook::pipeline::item::ListingEntry;
use workbook::pipeline::run::{Phase, Run, RunError, RunEvent, Step, Strategy};

fn file(name: &str) -> RunEvent {
    RunEvent::Entry(ListingEntry { name: name.to_string(), is_dir: false })
}

fn dir(name: &str) -> RunEvent {
    RunEvent::Entry(ListingEntry { name: name.to_string(), is_dir: true })
}

fn started(strategy: Strategy, workers: usize) -> Run {
    let (mut run, step) = Run::start(strategy, workers, "in", "out");
    match step {
        Step::CreateOutput { dir } => assert_eq!(dir, "out"),
        other => panic!("expected the output directory first, got {:?}", other),
    }
    assert_eq!(run.phase(), Phase::CreatingOutput);
    match run.handle(RunEvent::OutputCreated) {
        Step::OpenInput { dir } => assert_eq!(dir, "in"),
        other => panic!("expected the input directory next, got {:?}", other),
    }
    assert_eq!(run.phase(), Phase::OpeningInput);
    run
}

#[test]
fn empty_directory_creates_output_and_reports_zero() {
    for strategy in [Strategy::RoundRobin, Strategy::StaticPartition, Strategy::DynamicPool] {
        let mut run = started(strategy, 4);
        let step = run.handle(RunEvent::InputOpened);
        match strategy {
            Strategy::RoundRobin => assert!(matches!(step, Step::StartWorkers { count: 4 })),
            _ => assert!(matches!(step, Step::ReadEntry)),
        }
        match run.handle(RunEvent::EndOfListing) {
            Step::CloseQueues => assert_eq!(strategy, Strategy::RoundRobin),
            Step::Spawn { chunks } => {
                assert_eq!(strategy, Strategy::StaticPartition);
                assert!(chunks.is_empty());
            }
            Step::Submit { items, workers } => {
                assert_eq!(strategy, Strategy::DynamicPool);
                assert!(items.is_empty());
                assert_eq!(workers, 4);
            }
            other => panic!("unexpected step {:?}", other),
        }
        assert_eq!(run.phase(), Phase::Draining);
        assert!(!run.is_over());
        match run.handle(RunEvent::Drained(RunSummary { count: 0 })) {
            Step::Report { line } => assert_eq!(line, "Processed 0 images"),
            other => panic!("expected the report, got {:?}", other),
        }
        assert_eq!(run.phase(), Phase::Finished(RunSummary { count: 0 }));
        assert!(run.is_over());
    }
}

#[test]
fn output_directory_failure_aborts_before_anything_else() {
    let (mut run, _) = Run::start(Strategy::StaticPartition, 4, "in", "out");
    let step = run.handle(RunEvent::OutputFailed);
    assert!(matches!(step, Step::Abort { error: RunError::OutputDirectory }));
    assert_eq!(run.phase(), Phase::Failed(RunError::OutputDirectory));
    assert!(run.is_over());
    assert!(matches!(run.handle(RunEvent::InputOpened), Step::Nothing));
    assert!(matches!(run.handle(file("a.png")), Step::Nothing));
    assert!(matches!(run.handle(RunEvent::EndOfListing), Step::Nothing));
    assert_eq!(run.phase(), Phase::Failed(RunError::OutputDirectory));
}

#[test]
fn input_directory_failure_aborts_before_workers_start() {
    for strategy in [Strategy::RoundRobin, Strategy::StaticPartition, Strategy::DynamicPool] {
        let mut run = started(strategy, 4);
        let step = run.handle(RunEvent::InputFailed);
        assert!(matches!(step, Step::Abort { error: RunError::InputDirectory }));
        assert_eq!(run.phase(), Phase::Failed(RunError::InputDirectory));
    }
}

#[test]
fn round_robin_sends_each_file_as_it_is_read() {
    let mut run = started(Strategy::RoundRobin, 3);
    assert!(matches!(run.handle(RunEvent::InputOpened), Step::StartWorkers { count: 3 }));
    let mut sent = Vec::new();
    for event in [file("0.png"), dir("1"), file("2.png"), file("3.png"), file("4.png")] {
        match run.handle(event) {
            Step::Send { assignment } => {
                assert_eq!(assignment.item.source.dir, "in");
                assert_eq!(assignment.item.output_dir, "out");
                sent.push((assignment.worker, assignment.item.source.name));
            }
            Step::ReadEntry => {}
            other => panic!("unexpected step {:?}", other),
        }
    }
    assert_eq!(
        sent,
        vec![
            (0, "0.png".to_string()),
            (2, "2.png".to_string()),
            (0, "3.png".to_string()),
            (1, "4.png".to_string())
        ]
    );
    assert!(matches!(run.handle(RunEvent::EndOfListing), Step::CloseQueues));
    match run.handle(RunEvent::Drained(RunSummary { count: 4 })) {
        Step::Report { line } => assert_eq!(line, "Processed 4 images"),
        other => panic!("expected the report, got {:?}", other),
    }
}

#[test]
fn static_partition_spawns_chunks_at_the_end_of_the_listing() {
    let mut run = started(Strategy::StaticPartition, 4);
    assert!(matches!(run.handle(RunEvent::InputOpened), Step::ReadEntry));
    for event in
        [file("a.png"), file("b.png"), dir("sub"), file("c.png"), file("d.png"), file("e.png")]
    {
        assert!(matches!(run.handle(event), Step::ReadEntry));
    }
    match run.handle(RunEvent::EndOfListing) {
        Step::Spawn { chunks } => {
            let names: Vec<Vec<String>> = chunks
                .iter()
                .map(|chunk| chunk.iter().map(|item| item.source.name.clone()).collect())
                .collect();
            assert_eq!(
                names,
                vec![vec!["a.png", "b.png"], vec!["c.png", "d.png"], vec!["e.png"]]
            );
        }
        other => panic!("expected chunks, got {:?}", other),
    }
}

#[test]
fn dynamic_pool_submits_every_file() {
    let mut run = started(Strategy::DynamicPool, 8);
    run.handle(RunEvent::InputOpened);
    for event in [dir("x"), file("a.png"), file("b.png")] {
        assert!(matches!(run.handle(event), Step::ReadEntry));
    }
    match run.handle(RunEvent::EndOfListing) {
        Step::Submit { items, workers } => {
            assert_eq!(workers, 8);
            let names: Vec<&str> = items.iter().map(|i| i.source.name.as_str()).collect();
            assert_eq!(names, vec!["a.png", "b.png"]);
            assert_eq!(items[0].output_path().dir, "out");
        }
        other => panic!("expected a submission, got {:?}", other),
    }
}

#[test]
fn broken_listing_is_fatal() {
    let mut run = started(Strategy::StaticPartition, 4);
    run.handle(RunEvent::InputOpened);
    run.handle(file("a.png"));
    let step = run.handle(RunEvent::InputFailed);
    assert!(matches!(step, Step::Abort { error: RunError::InputDirectory }));
    assert_eq!(run.phase(), Phase::Failed(RunError::InputDirectory));

    // workers of the round robin are running by then: they are wound down first
    let mut run = started(Strategy::RoundRobin, 4);
    run.handle(RunEvent::InputOpened);
    assert!(matches!(run.handle(file("a.png")), Step::Send { .. }));
    assert!(matches!(run.handle(RunEvent::InputFailed), Step::CloseQueues));
    assert_eq!(run.phase(), Phase::WindingDown);
    let step = run.handle(RunEvent::Drained(RunSummary { count: 1 }));
    assert!(matches!(step, Step::Abort { error: RunError::InputDirectory }));
    assert_eq!(run.phase(), Phase::Failed(RunError::InputDirectory));
}

#[test]
fn nothing_is_reported_before_the_workers_have_drained() {
    let mut run = started(Strategy::DynamicPool, 2);
    assert!(matches!(run.handle(RunEvent::Drained(RunSummary { count: 9 })), Step::Nothing));
    run.handle(RunEvent::InputOpened);
    assert!(matches!(run.handle(RunEvent::Drained(RunSummary { count: 9 })), Step::Nothing));
    assert_eq!(run.phase(), Phase::Enumerating);
    run.handle(file("a.png"));
    run.handle(RunEvent::EndOfListing);
    assert!(matches!(run.handle(file("late.png")), Step::Nothing));
    match run.handle(RunEvent::Drained(RunSummary { count: 1 })) {
        Step::Report { line } => assert_eq!(line, "Processed 1 images"),
        other => panic!("expected the report, got {:?}", other),
    }
    assert!(matches!(run.handle(RunEvent::Drained(RunSummary { count: 2 })), Step::Nothing));
    assert_eq!(run.phase(), Phase::Finished(RunSummary { count: 1 }));
}
