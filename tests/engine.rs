use email_checker::checkpoint::Marker;
use email_checker::engine::{
    after_cycle, Action, CycleOutcome, DeliveryError, Engine, Event, FetchError, NextStep, Phase,
    StoreError, EXIT_AUTH, EXIT_CYCLE_FAILED, EXIT_DEFECT,
};
use email_checker::message::{fetch_since, Message};

fn msg(id: u64, ts: u64) -> Message {
    Message::new(id, ts, "s".to_string(), "subj".to_string(), "body".to_string())
}

fn three() -> Vec<Message> {
    vec![msg(1, 10), msg(2, 20), msg(3, 30)]
}

/// Runs one cycle against a mailbox listing and a delivery script; returns
/// the final outcome and the number of deliveries attempted successfully.
fn run_cycle(
    engine: &mut Engine,
    stored: Option<Marker>,
    mailbox: Vec<Message>,
    fail_at: Option<usize>,
) -> (CycleOutcome, usize) {
    let mut action = engine.start();
    let mut attempts = 0usize;
    let mut ok = 0usize;
    let mut mailbox = Some(mailbox);
    loop {
        action = match action {
            Action::Load => engine.on_loaded(Ok(stored)),
            Action::Fetch(since) => {
                let listed = fetch_since(mailbox.take().unwrap(), &since);
                engine.on_fetched(Ok(listed))
            }
            Action::Deliver(_) => {
                let r = if fail_at == Some(attempts) { Err(DeliveryError::Unreachable) } else { ok += 1; Ok(()) };
                attempts += 1;
                engine.on_delivered(r)
            }
            Action::Save(_) => engine.on_saved(Ok(())),
            Action::Finish(o) => return (o, ok),
            Action::Reject => panic!("rejected"),
        };
    }
}

#[test]
fn all_deliveries_succeed() {
    let mut e = Engine::new(500);
    let (o, n) = run_cycle(&mut e, None, three(), None);
    assert_eq!(o, CycleOutcome::Success);
    assert_eq!(n, 3);
    assert_eq!(e.checkpoint(), Some(Marker::new(30, 3)));
    assert_eq!(e.delivered().len(), 3);
    assert_eq!(e.phase(), Phase::Done(CycleOutcome::Success));
}

#[test]
fn second_delivery_fails() {
    let mut e = Engine::new(500);
    let (o, n) = run_cycle(&mut e, None, three(), Some(1));
    assert_eq!(o, CycleOutcome::DeliveryFailed);
    assert_eq!(n, 1);
    assert_eq!(e.checkpoint(), Some(Marker::new(10, 1)));
    assert_eq!(e.delivered(), &vec![Marker::new(10, 1)]);
}

#[test]
fn next_cycle_retries_failed_message_first() {
    let mut e = Engine::new(500);
    run_cycle(&mut e, None, three(), Some(1));
    let cp = e.checkpoint();
    e.start();
    let a = e.on_loaded(Ok(cp));
    assert!(matches!(a, Action::Fetch(Some(m)) if m == Marker::new(10, 1)));
    match e.on_fetched(Ok(fetch_since(three(), &cp))) {
        Action::Deliver(p) => assert_eq!(p.timestamp, 20),
        other => panic!("unexpected {:?}", other),
    }
    assert_eq!(e.pending(), 2);
}

#[test]
fn first_delivery_fails_leaves_checkpoint() {
    let mut e = Engine::new(500);
    let (o, n) = run_cycle(&mut e, None, three(), Some(0));
    assert_eq!(o, CycleOutcome::DeliveryFailed);
    assert_eq!(n, 0);
    assert_eq!(e.checkpoint(), None);
}

#[test]
fn no_duplicates_across_run() {
    let mut e = Engine::new(500);
    let mut all = three();
    all.push(msg(2, 20));
    let (o, n) = run_cycle(&mut e, None, all, None);
    assert_eq!(o, CycleOutcome::Success);
    assert_eq!(n, 3);
    let d = e.delivered().clone();
    assert_eq!(d, vec![Marker::new(10, 1), Marker::new(20, 2), Marker::new(30, 3)]);
}

#[test]
fn empty_mailbox_succeeds() {
    let mut e = Engine::new(500);
    let (o, n) = run_cycle(&mut e, Some(Marker::new(5, 5)), vec![], None);
    assert_eq!(o, CycleOutcome::Success);
    assert_eq!(n, 0);
    assert_eq!(e.checkpoint(), Some(Marker::new(5, 5)));
}

#[test]
fn stale_messages_from_reader_are_dropped() {
    let mut e = Engine::new(500);
    e.start();
    e.on_loaded(Ok(Some(Marker::new(20, 2))));
    let a = e.on_fetched(Ok(vec![msg(1, 10), msg(3, 30), msg(2, 20), msg(4, 40)]));
    assert!(matches!(a, Action::Deliver(ref p) if p.timestamp == 30));
    assert_eq!(e.pending(), 2);
}

#[test]
fn errors_end_the_cycle() {
    let mut e = Engine::new(500);
    e.start();
    assert!(matches!(e.on_loaded(Err(StoreError::Io)), Action::Finish(CycleOutcome::StorageFailed)));
    e.start();
    e.on_loaded(Ok(None));
    assert!(matches!(e.on_fetched(Err(FetchError::Auth)), Action::Finish(CycleOutcome::AuthFailed)));
    e.start();
    e.on_loaded(Ok(None));
    assert!(matches!(e.on_fetched(Err(FetchError::Protocol)), Action::Finish(CycleOutcome::FetchFailed)));
    e.start();
    e.on_loaded(Ok(None));
    e.on_fetched(Ok(three()));
    assert!(matches!(e.on_delivered(Err(DeliveryError::Malformed)), Action::Finish(CycleOutcome::DeliveryDefect)));
    e.start();
    e.on_loaded(Ok(None));
    e.on_fetched(Ok(three()));
    assert!(matches!(e.on_delivered(Ok(())), Action::Save(m) if m == Marker::new(10, 1)));
    assert!(matches!(e.on_saved(Err(StoreError::Io)), Action::Finish(CycleOutcome::StorageFailed)));
    assert_eq!(e.checkpoint(), Some(Marker::new(10, 1)));
}

#[test]
fn overlapping_cycle_rejected() {
    let mut e = Engine::new(500);
    assert!(matches!(e.step(Event::Start), Action::Load));
    assert!(matches!(e.step(Event::Start), Action::Reject));
    assert!(matches!(e.step(Event::Saved(Ok(()))), Action::Reject));
    assert_eq!(e.phase(), Phase::Loading);
}

#[test]
fn payload_preview_uses_limit() {
    let mut e = Engine::new(2);
    e.start();
    e.on_loaded(Ok(None));
    match e.on_fetched(Ok(vec![msg(1, 1)])) {
        Action::Deliver(p) => assert_eq!(p.preview, "bo"),
        other => panic!("unexpected {:?}", other),
    }
}

#[test]
fn scheduling_decisions() {
    assert_eq!(after_cycle(CycleOutcome::Success, false), NextStep::SleepThenRepeat);
    assert_eq!(after_cycle(CycleOutcome::DeliveryFailed, false), NextStep::SleepThenRepeat);
    assert_eq!(after_cycle(CycleOutcome::Success, true), NextStep::Exit(0));
    assert_eq!(after_cycle(CycleOutcome::FetchFailed, true), NextStep::Exit(EXIT_CYCLE_FAILED));
    assert_eq!(after_cycle(CycleOutcome::AuthFailed, false), NextStep::Exit(EXIT_AUTH));
    assert_eq!(after_cycle(CycleOutcome::DeliveryDefect, true), NextStep::Exit(EXIT_DEFECT));
    assert!(CycleOutcome::AuthFailed.is_fatal());
    assert!(!CycleOutcome::StorageFailed.is_fatal());
}
