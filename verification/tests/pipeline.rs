use margium::pipeline::{OpenWorker, Phase, WorkerAction, WorkerEvent};

#[test]
fn annotations_come_before_the_pages() {
    let (mut worker, first) = OpenWorker::start();
    assert_eq!(first, WorkerAction::LoadAnnotations);
    assert_eq!(worker.step(WorkerEvent::Sent), WorkerAction::OpenPages);
    assert_eq!(worker.step(WorkerEvent::Opened(2)), WorkerAction::RenderPage(0));
    assert_eq!(worker.step(WorkerEvent::Sent), WorkerAction::Pause);
    assert_eq!(worker.step(WorkerEvent::Rested), WorkerAction::RenderPage(1));
    assert_eq!(worker.step(WorkerEvent::Sent), WorkerAction::Pause);
    assert_eq!(worker.step(WorkerEvent::Rested), WorkerAction::Finish);
    assert_eq!(worker.phase, Phase::Done);
}

#[test]
fn page_that_cannot_be_drawn_is_passed_over() {
    let (mut worker, _) = OpenWorker::start();
    worker.step(WorkerEvent::Sent);
    worker.step(WorkerEvent::Opened(3));
    assert_eq!(worker.step(WorkerEvent::RenderFailed), WorkerAction::Pause);
    assert_eq!(worker.step(WorkerEvent::Rested), WorkerAction::RenderPage(1));
    assert_eq!(worker.step(WorkerEvent::RenderFailed), WorkerAction::Pause);
    assert_eq!(worker.step(WorkerEvent::Rested), WorkerAction::RenderPage(2));
}

#[test]
fn work_ends_when_nobody_listens() {
    let (mut worker, _) = OpenWorker::start();
    assert_eq!(worker.step(WorkerEvent::SendFailed), WorkerAction::Finish);
    let (mut worker, _) = OpenWorker::start();
    worker.step(WorkerEvent::Sent);
    worker.step(WorkerEvent::Opened(3));
    assert_eq!(worker.step(WorkerEvent::SendFailed), WorkerAction::Finish);
    assert_eq!(worker.step(WorkerEvent::Rested), WorkerAction::Finish);
    assert_eq!(worker.step(WorkerEvent::Sent), WorkerAction::Finish);
}

#[test]
fn document_without_pages_ends_the_work() {
    for event in [WorkerEvent::Opened(0), WorkerEvent::Opened(-1), WorkerEvent::OpenFailed] {
        let (mut worker, _) = OpenWorker::start();
        worker.step(WorkerEvent::Sent);
        assert_eq!(worker.step(event), WorkerAction::Finish);
    }
}

#[test]
fn pages_are_drawn_in_rising_order() {
    let (mut worker, _) = OpenWorker::start();
    worker.step(WorkerEvent::Sent);
    let mut action = worker.step(WorkerEvent::Opened(25));
    let mut drawn = Vec::new();
    while action != WorkerAction::Finish {
        action = match action {
            WorkerAction::RenderPage(page) => {
                drawn.push(page);
                worker.step(if page % 3 == 0 { WorkerEvent::RenderFailed } else { WorkerEvent::Sent })
            }
            WorkerAction::Pause => worker.step(WorkerEvent::Rested),
            other => panic!("unexpected action {:?}", other),
        };
    }
    assert_eq!(drawn, (0..25).collect::<Vec<i32>>());
}
