use concurrency::listener::{
    Listener, ListenerAction, ListenerError, ListenerEvent, ListenerPhase,
};

#[test]
fn bind_failure_stops_the_listener() {
    let mut l = Listener::new();
    assert_eq!(l.phase(), ListenerPhase::Binding);
    assert_eq!(
        l.on_event(ListenerEvent::BindFailed),
        ListenerAction::Stop { error: ListenerError::Bind }
    );
    assert_eq!(l.error(), Some(ListenerError::Bind));
    assert_eq!(l.on_event(ListenerEvent::Bound), ListenerAction::Nothing);
    assert_eq!(l.on_event(ListenerEvent::Accepted), ListenerAction::Nothing);
    assert_eq!(l.phase(), ListenerPhase::Stopped { error: ListenerError::Bind });
}

#[test]
fn accept_failure_stops_the_listener() {
    let mut l = Listener::new();
    assert_eq!(l.on_event(ListenerEvent::Bound), ListenerAction::Accept);
    assert_eq!(l.on_event(ListenerEvent::Accepted), ListenerAction::SpawnAndAccept);
    assert_eq!(
        l.on_event(ListenerEvent::AcceptFailed),
        ListenerAction::Stop { error: ListenerError::Accept }
    );
    assert_eq!(l.error(), Some(ListenerError::Accept));
    assert_eq!(l.on_event(ListenerEvent::Accepted), ListenerAction::Nothing);
}

#[test]
fn a_hundred_connections_are_all_accepted() {
    let mut l = Listener::new();
    assert_eq!(l.on_event(ListenerEvent::Bound), ListenerAction::Accept);
    let mut started = 0;
    for i in 0..100 {
        if l.on_event(ListenerEvent::Accepted) == ListenerAction::SpawnAndAccept {
            started += 1;
        }
        if i % 3 == 0 {
            assert_eq!(
                l.on_event(ListenerEvent::HandlerEnded { clean: i % 2 == 0 }),
                ListenerAction::Nothing
            );
        }
        assert_eq!(l.phase(), ListenerPhase::Accepting);
    }
    assert_eq!(started, 100);
    assert_eq!(l.error(), None);
}

#[test]
fn a_failed_handler_does_not_stop_the_listener() {
    let mut l = Listener::new();
    l.on_event(ListenerEvent::Bound);
    l.on_event(ListenerEvent::Accepted);
    assert_eq!(
        l.on_event(ListenerEvent::HandlerEnded { clean: false }),
        ListenerAction::Nothing
    );
    assert_eq!(l.phase(), ListenerPhase::Accepting);
    assert_eq!(l.on_event(ListenerEvent::Accepted), ListenerAction::SpawnAndAccept);
}

#[test]
fn nothing_is_accepted_before_the_bind() {
    let mut l = Listener::new();
    assert_eq!(l.on_event(ListenerEvent::Accepted), ListenerAction::Nothing);
    assert_eq!(l.on_event(ListenerEvent::AcceptFailed), ListenerAction::Nothing);
    assert_eq!(l.phase(), ListenerPhase::Binding);
    assert_eq!(l.error(), None);
}
