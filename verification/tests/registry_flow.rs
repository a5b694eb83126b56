use pollcast::registry::Registry;

fn fresh_conn() -> u128 {
    uuid::Uuid::new_v4().as_u128()
}

fn id_text(n: u128) -> String {
    uuid::Uuid::from_u128(n).to_string()
}

#[test]
fn end_to_end_two_viewers_of_one_poll() {
    let mut r = Registry::new();
    let a = fresh_conn();
    let b = fresh_conn();

    // client A connects to poll 42 and receives its own id
    let g = r.resolve_or_create_group(42);
    r.connect(g, a);
    assert_eq!(r.take_outbox(a), vec![format!("your user id is {}", id_text(a))]);

    // client B connects: B gets its id, A learns that B joined
    let g2 = r.resolve_or_create_group(42);
    assert_eq!(g, g2);
    r.connect(g2, b);
    assert_eq!(r.take_outbox(b), vec![format!("your user id is {}", id_text(b))]);
    assert_eq!(
        r.take_outbox(a),
        vec![format!("user {} just joined the poll", id_text(b))]
    );

    // a push event reaches both, byte for byte
    let payload = "{\"poll_id\":42,\"option_text\":\"Yes\",\"vote_count\":3}";
    let found = r.notify_group_by_poll(42, payload);
    assert!(found);
    assert_eq!(r.take_outbox(a), vec![payload.to_string()]);
    assert_eq!(r.take_outbox(b), vec![payload.to_string()]);

    // B disconnects: A is told, B is gone from the membership
    r.disconnect(g, b);
    assert_eq!(r.take_outbox(a), vec![format!("{} disconnected.", id_text(b))]);
    assert!(!r.is_member(g, b));
    assert!(r.is_member(g, a));
    assert_eq!(r.connection_count(), 1);
}

#[test]
fn resolve_is_idempotent_per_poll() {
    let mut r = Registry::new();
    let g1 = r.resolve_or_create_group(7);
    let g2 = r.resolve_or_create_group(7);
    let h = r.resolve_or_create_group(8);
    let g3 = r.resolve_or_create_group(7);
    assert_eq!(g1, g2);
    assert_eq!(g1, g3);
    assert_ne!(g1, h);
    assert_eq!(h, r.resolve_or_create_group(8));
}

#[test]
fn group_survives_emptying_and_viewers_return() {
    let mut r = Registry::new();
    let g = r.resolve_or_create_group(5);
    let a = fresh_conn();
    r.connect(g, a);
    r.disconnect(g, a);
    assert_eq!(r.connection_count(), 0);
    // a returning viewer lands in the same group
    assert_eq!(r.resolve_or_create_group(5), g);
    let b = fresh_conn();
    r.connect(g, b);
    assert!(r.is_member(g, b));
}

#[test]
fn duplicate_disconnect_is_a_noop() {
    let mut r = Registry::new();
    let g = r.resolve_or_create_group(1);
    let a = fresh_conn();
    let b = fresh_conn();
    r.connect(g, a);
    r.connect(g, b);
    r.take_outbox(a);
    r.disconnect(g, b);
    r.disconnect(g, b);
    r.disconnect(g, b);
    // one removal, one notice: the later disconnects found nothing to do
    assert_eq!(
        r.take_outbox(a),
        vec![format!("{} disconnected.", id_text(b))]
    );
    assert!(!r.is_member(g, b));
    assert!(r.is_member(g, a));
    assert_eq!(r.connection_count(), 1);
}

#[test]
fn disconnect_of_unknown_connection_is_a_noop() {
    let mut r = Registry::new();
    let g = r.resolve_or_create_group(1);
    let a = fresh_conn();
    r.connect(g, a);
    r.take_outbox(a);
    r.disconnect(g, fresh_conn());
    assert_eq!(r.take_outbox(a), Vec::<String>::new());
    assert_eq!(r.connection_count(), 1);
}

#[test]
fn fanout_survives_one_failed_peer() {
    let mut r = Registry::new();
    let g = r.resolve_or_create_group(3);
    let a = fresh_conn();
    let b = fresh_conn();
    let bad = fresh_conn();
    r.connect(g, a);
    r.connect(g, b);
    r.connect(g, bad);
    r.take_outbox(a);
    r.take_outbox(b);

    r.broadcast(g, "update");
    // bad's socket write fails: its owning session disconnects it
    r.disconnect(g, bad);

    // the other two still hold the frame
    let got_a = r.take_outbox(a);
    let got_b = r.take_outbox(b);
    assert_eq!(got_a[0], "update");
    assert_eq!(got_b[0], "update");
    assert_eq!(got_a[1], format!("{} disconnected.", id_text(bad)));
    assert!(!r.is_member(g, bad));
}

#[test]
fn notify_for_poll_without_group_is_a_noop() {
    let mut r = Registry::new();
    let found = r.notify_group_by_poll(99, "anything");
    assert!(!found);
    assert_eq!(r.connection_count(), 0);
}

#[test]
fn notify_for_empty_group_is_a_quiet_success() {
    let mut r = Registry::new();
    let g = r.resolve_or_create_group(6);
    let found = r.notify_group_by_poll(6, "anything");
    assert!(found);
    let a = fresh_conn();
    r.connect(g, a);
    // the earlier event was not queued anywhere
    assert_eq!(
        r.take_outbox(a),
        vec![format!("your user id is {}", id_text(a))]
    );
}

#[test]
fn directed_message_reaches_only_its_target() {
    let mut r = Registry::new();
    let g = r.resolve_or_create_group(2);
    let a = fresh_conn();
    let b = fresh_conn();
    let c = fresh_conn();
    r.connect(g, a);
    r.connect(g, b);
    r.connect(g, c);
    r.take_outbox(a);
    r.take_outbox(b);
    r.take_outbox(c);

    let msg = format!("\\w {} psst", id_text(b));
    r.handle_client_text(g, &msg);
    assert_eq!(r.take_outbox(a), Vec::<String>::new());
    assert_eq!(r.take_outbox(b), vec![msg.clone()]);
    assert_eq!(r.take_outbox(c), Vec::<String>::new());
}

#[test]
fn directed_message_with_bad_target_goes_nowhere() {
    let mut r = Registry::new();
    let g = r.resolve_or_create_group(2);
    let a = fresh_conn();
    r.connect(g, a);
    r.take_outbox(a);
    r.handle_client_text(g, "\\w not-an-identifier hello");
    assert_eq!(r.take_outbox(a), Vec::<String>::new());
}

#[test]
fn plain_text_is_broadcast_to_the_senders_group() {
    let mut r = Registry::new();
    let g = r.resolve_or_create_group(2);
    let other = r.resolve_or_create_group(3);
    let a = fresh_conn();
    let b = fresh_conn();
    let outsider = fresh_conn();
    r.connect(g, a);
    r.connect(g, b);
    r.connect(other, outsider);
    r.take_outbox(a);
    r.take_outbox(b);
    r.take_outbox(outsider);

    r.handle_client_text(g, "hello room");
    assert_eq!(r.take_outbox(a), vec!["hello room".to_string()]);
    assert_eq!(r.take_outbox(b), vec!["hello room".to_string()]);
    assert_eq!(r.take_outbox(outsider), Vec::<String>::new());
}

#[test]
fn deliver_to_unknown_target_changes_nothing() {
    let mut r = Registry::new();
    let g = r.resolve_or_create_group(4);
    let a = fresh_conn();
    r.connect(g, a);
    r.take_outbox(a);
    r.deliver_to(fresh_conn(), "lost");
    assert_eq!(r.take_outbox(a), Vec::<String>::new());
}

#[test]
fn has_connection_tracks_registration() {
    let mut r = Registry::new();
    let g = r.resolve_or_create_group(4);
    let a = fresh_conn();
    assert!(!r.has_connection(a));
    r.connect(g, a);
    assert!(r.has_connection(a));
    r.disconnect(g, a);
    assert!(!r.has_connection(a));
}

#[test]
fn take_outbox_drains() {
    let mut r = Registry::new();
    let g = r.resolve_or_create_group(4);
    let a = fresh_conn();
    r.connect(g, a);
    assert_eq!(r.take_outbox(a).len(), 1);
    assert_eq!(r.take_outbox(a), Vec::<String>::new());
    assert_eq!(r.take_outbox(fresh_conn()), Vec::<String>::new());
}
