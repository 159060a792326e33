use dubbo::ready::{CloneInvoker, CloneStep, Inner, ObserveState, Polled, ReadyService, ReadyStep};

#[test]
fn ready_invoker_answers_its_poll() {
    let mut s = ReadyService::new();
    assert_eq!(s.begin_poll_ready(), ReadyStep::PollInner);
    assert_eq!(s.on_inner_polled(Polled::Ready(true)), ReadyStep::Answer(Polled::Ready(true)));
    assert_eq!(s.observed, ObserveState::Ready);
    assert!(s.can_call());
}

#[test]
fn unready_invoker_is_waited_on() {
    let mut s = ReadyService::new();
    assert_eq!(s.on_inner_polled(Polled::Pending), ReadyStep::SpawnWait);
    assert_eq!(s.inner, Inner::Pending);
    assert_eq!(s.observed, ObserveState::Pending);
    assert!(!s.can_call());
    assert_eq!(s.begin_poll_ready(), ReadyStep::PollWait);
    assert_eq!(s.on_wait_polled(Polled::Pending), ReadyStep::Answer(Polled::Pending));
    assert_eq!(s.on_wait_polled(Polled::Ready(false)), ReadyStep::Answer(Polled::Ready(false)));
    assert_eq!(s.inner, Inner::Ready);
    assert_eq!(s.observed, ObserveState::Ready);
}

#[test]
fn clone_waits_for_ready_before_asking() {
    let mut c = CloneInvoker::new();
    assert_eq!(c.begin_poll_ready(ObserveState::Ready), CloneStep::PollInner);
    assert_eq!(c.begin_poll_ready(ObserveState::Pending), CloneStep::StartWatch);
    assert!(c.polling);
    assert_eq!(c.begin_poll_ready(ObserveState::Ready), CloneStep::PollWatch);
    assert_eq!(c.on_watch_polled(None), CloneStep::AnswerPending);
    assert_eq!(c.on_watch_polled(Some(ObserveState::Ready)), CloneStep::PollInner);
    assert!(!c.polling);
    c.begin_poll_ready(ObserveState::Pending);
    assert_eq!(c.on_watch_polled(Some(ObserveState::Pending)), CloneStep::Restart);
    assert!(!c.polling);
}
