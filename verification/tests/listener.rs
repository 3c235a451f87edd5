use async_server::listener::{ListenAction, ListenEvent, ListenState};

#[test]
fn listener_binds_then_accepts_one_per_poll() {
    let mut l = ListenState::new();
    assert_eq!(l.first_action(), ListenAction::Bind);
    assert_eq!(l.step(ListenEvent::Bound), ListenAction::Accept);
    assert_eq!(l.step(ListenEvent::Accepted), ListenAction::Spawn);
    assert_eq!(l.first_action(), ListenAction::Accept);
    assert_eq!(l.step(ListenEvent::WouldBlock), ListenAction::Yield);
    assert_eq!(l, ListenState::Accept);
}
