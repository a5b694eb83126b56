use pollcast::heartbeat::Heartbeat;
use pollcast::heartbeat::TickAction;
use pollcast::registry::Registry;
use pollcast::session::FrameEvent;
use pollcast::session::SessionAction;
use pollcast::session::SessionCtl;
use pollcast::session::SessionState;

#[test]
fn session_life_cycle() {
    let mut s = SessionCtl::new();
    assert_eq!(s.state, SessionState::Connecting);
    s.activate();
    assert_eq!(s.state, SessionState::Active);
    assert_eq!(s.on_frame(FrameEvent::Ping), SessionAction::ReplyPong);
    assert_eq!(s.on_frame(FrameEvent::Pong), SessionAction::RecordAlive);
    assert_eq!(s.on_frame(FrameEvent::Text), SessionAction::RelayText);
    assert_eq!(s.on_frame(FrameEvent::Binary), SessionAction::Ignore);
    assert_eq!(s.on_frame(FrameEvent::Close), SessionAction::CloseSocket);
    assert_eq!(s.state, SessionState::Closing);
    assert!(s.should_issue_disconnect());
    s.finish_close();
    assert_eq!(s.state, SessionState::Closed);
}

#[test]
fn disconnect_duty_is_handed_out_once() {
    let mut s = SessionCtl::new();
    s.activate();
    // two termination triggers race: a read error and an external close
    assert_eq!(s.on_frame(FrameEvent::ReadError), SessionAction::CloseSocket);
    s.begin_close();
    assert!(s.should_issue_disconnect());
    assert!(!s.should_issue_disconnect());
    assert!(!s.should_issue_disconnect());
    s.finish_close();
    assert!(!s.should_issue_disconnect());
}

#[test]
fn closed_session_ignores_everything() {
    let mut s = SessionCtl::new();
    s.activate();
    s.begin_close();
    assert!(s.should_issue_disconnect());
    s.finish_close();
    assert_eq!(s.on_frame(FrameEvent::Text), SessionAction::Ignore);
    assert_eq!(s.on_frame(FrameEvent::Close), SessionAction::Ignore);
    s.begin_close();
    assert_eq!(s.state, SessionState::Closed);
}

#[test]
fn frames_do_nothing_before_activation() {
    let mut s = SessionCtl::new();
    assert_eq!(s.on_frame(FrameEvent::Text), SessionAction::Ignore);
    assert_eq!(s.state, SessionState::Connecting);
}

#[test]
fn heartbeat_pings_within_the_window_and_expires_past_it() {
    let mut hb = Heartbeat::new(5, 10, 100);
    assert_eq!(hb.on_tick(105), TickAction::SendPing);
    assert_eq!(hb.on_tick(110), TickAction::SendPing);
    assert_eq!(hb.on_tick(111), TickAction::CloseExpired);
    hb.record_alive(111);
    assert_eq!(hb.on_tick(121), TickAction::SendPing);
    assert_eq!(hb.on_tick(122), TickAction::CloseExpired);
}

#[test]
fn heartbeat_tolerates_a_clock_reading_before_last_seen() {
    let hb = Heartbeat::new(5, 10, 100);
    assert_eq!(hb.on_tick(99), TickAction::SendPing);
    assert_eq!(hb.on_tick(0), TickAction::SendPing);
}

#[test]
fn silent_peer_is_removed_within_one_cycle() {
    // ticks every 5 units, timeout 10, last sign of life at 100:
    // the deadline passes at 110, and the tick at 115 must catch it
    let hb = Heartbeat::new(5, 10, 100);
    let mut decision = None;
    for k in 0..4 {
        let t = 100 + k * 5;
        if hb.on_tick(t) == TickAction::CloseExpired {
            decision = Some(t);
            break;
        }
    }
    assert_eq!(decision, Some(115));

    // the session then closes and disconnects, and the peer leaves its group
    let mut r = Registry::new();
    let g = r.resolve_or_create_group(11);
    let silent = uuid::Uuid::new_v4().as_u128();
    let alive = uuid::Uuid::new_v4().as_u128();
    r.connect(g, silent);
    r.connect(g, alive);
    let mut s = SessionCtl::new();
    s.activate();
    s.begin_close();
    if s.should_issue_disconnect() {
        r.disconnect(g, silent);
    }
    s.finish_close();
    assert!(!r.is_member(g, silent));
    assert!(r.is_member(g, alive));
}
