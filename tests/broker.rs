use mpc_websocket::dispatch::{Command, Delivery};
use mpc_websocket::error::ServerError;
use mpc_websocket::group::Group;
use mpc_websocket::notify::{filter_clients, Event, Notification};
use mpc_websocket::params::{Parameters, SessionKind};
use mpc_websocket::server::Server;
use mpc_websocket::session::Session;
use mpc_websocket::state::{Reply, State};

fn params(parties: u16, threshold: u16) -> Parameters {
    Parameters { parties, threshold }
}

fn connected(state: &mut State, conns: &[usize]) {
    for c in conns {
        state.connect(*c);
    }
}

fn group_id(reply: &Result<Reply, ServerError>) -> u128 {
    match reply {
        Ok(Reply::Group(info)) => info.uuid,
        other => panic!("expected group reply, got {:?}", other),
    }
}

fn session_id(reply: &Result<Reply, ServerError>) -> u128 {
    match reply {
        Ok(Reply::Session(info)) => info.uuid,
        other => panic!("expected session reply, got {:?}", other),
    }
}

/// A group of three members and a keygen session everyone signed up to.
fn full_session(state: &mut State) -> (u128, u128) {
    connected(state, &[1, 2, 3]);
    let (r, _) = state.group_create(1, params(3, 1), "t".to_string());
    let g = group_id(&r);
    state.group_join(2, g);
    state.group_join(3, g);
    let (r, _) = state.session_create(1, g, SessionKind::Keygen);
    let s = session_id(&r);
    for c in 1..=3 {
        state.session_signup(c, g, s);
    }
    (g, s)
}

fn targets(deliveries: &[Delivery]) -> Vec<usize> {
    deliveries
        .iter()
        .map(|d| match d {
            Delivery::Reply { conn, .. } => *conn,
            Delivery::Notify { conn, .. } => *conn,
        })
        .collect()
}

#[test]
fn parameters_default_is_three_one() {
    let p = Parameters::default();
    assert_eq!(p.parties, 3);
    assert_eq!(p.threshold, 1);
    assert_eq!(SessionKind::default(), SessionKind::Keygen);
    assert!(matches!(Notification::default(), Notification::Noop));
}

#[test]
fn fresh_identifiers_differ() {
    let a = Group::new(1, params(3, 1), "a".to_string());
    let b = Group::new(1, params(3, 1), "b".to_string());
    assert_ne!(a.uuid, b.uuid);
    assert_eq!(a.clients, vec![1]);
    let s = Session::new(SessionKind::Sign);
    let t = Session::default();
    assert_ne!(s.uuid, t.uuid);
    assert_eq!(t.kind, SessionKind::Keygen);
}

#[test]
fn signup_assigns_next_number() {
    let mut s = Session::new(SessionKind::Keygen);
    assert_eq!(s.signup(10), 1);
    assert_eq!(s.signup(11), 2);
    assert_eq!(s.signup(12), 3);
    assert_eq!(s.parties(), vec![(1, 10), (2, 11), (3, 12)]);
}

#[test]
fn load_rejects_zero_range_and_duplicates() {
    let p = params(3, 1);
    let mut s = Session::new(SessionKind::Sign);
    assert_eq!(s.load(&p, 1, 0), Err(ServerError::ZeroPartyNumber));
    assert_eq!(s.load(&p, 1, 4), Err(ServerError::PartyNumberOutOfRange));
    assert_eq!(s.load(&p, 1, 2), Ok(()));
    assert_eq!(s.load(&p, 2, 2), Err(ServerError::PartyNumberAlreadyExists(s.uuid)));
    assert_eq!(s.parties(), vec![(2, 1)]);
}

#[test]
fn finish_is_idempotent_per_party() {
    let mut s = Session::new(SessionKind::Keygen);
    s.signup(1);
    assert!(s.finish(1));
    assert!(!s.finish(1));
    assert_eq!(s.finished_count(), 1);
}

#[test]
fn filter_clients_removes_filtered() {
    assert_eq!(filter_clients(vec![1, 2, 3], Some(vec![2])), vec![1, 3]);
    assert_eq!(filter_clients(vec![1, 2, 3], None), vec![1, 2, 3]);
    assert_eq!(filter_clients(vec![1, 2, 3], Some(vec![4])), vec![1, 2, 3]);
    assert_eq!(filter_clients(vec![], Some(vec![1])), Vec::<usize>::new());
}

#[test]
fn minimal_keygen() {
    let mut state = State::new();
    connected(&mut state, &[1, 2, 3]);
    let (r, n) = state.group_create(1, params(3, 1), "t".to_string());
    let g = group_id(&r);
    assert!(matches!(n, Notification::Noop));
    let (_, n) = state.group_join(2, g);
    assert!(matches!(n, Notification::Noop));
    let (r, n) = state.group_join(3, g);
    assert_eq!(group_id(&r), g);
    let ready = state.notify(n);
    assert_eq!(targets(&ready), vec![1, 2, 3]);
    assert!(ready.iter().all(|d| matches!(d, Delivery::Notify { event: Event::GroupReady(_), .. })));

    let (r, n) = state.session_create(1, g, SessionKind::Keygen);
    let s = session_id(&r);
    let created = state.notify(n);
    assert_eq!(targets(&created), vec![2, 3]);

    let (r, n) = state.session_signup(1, g, s);
    assert!(matches!(r, Ok(Reply::PartyNumber(1))));
    assert!(matches!(n, Notification::Noop));
    let (r, _) = state.session_signup(2, g, s);
    assert!(matches!(r, Ok(Reply::PartyNumber(2))));
    let (r, n) = state.session_signup(3, g, s);
    assert!(matches!(r, Ok(Reply::PartyNumber(3))));
    let out = state.notify(n);
    assert_eq!(targets(&out), vec![1, 2, 3]);
    assert!(out.iter().all(|d| matches!(d, Delivery::Notify { event: Event::SessionReady(x), .. } if *x == s)));
}

#[test]
fn group_ready_broadcast_once() {
    let mut state = State::new();
    connected(&mut state, &[1, 2, 3, 4]);
    let (r, _) = state.group_create(1, params(2, 1), "pair".to_string());
    let g = group_id(&r);
    let (_, n) = state.group_join(2, g);
    assert_eq!(targets(&state.notify(n)), vec![1, 2]);
    let (r, n) = state.group_join(4, g);
    assert_eq!(r.unwrap_err(), ServerError::GroupFull(g));
    assert!(matches!(n, Notification::Noop));
    let (r, n) = state.group_join(2, g);
    assert_eq!(r.unwrap_err(), ServerError::GroupFull(g));
    assert!(matches!(n, Notification::Noop));
}

#[test]
fn relay_reaches_only_receiver() {
    let mut state = State::new();
    let (g, s) = full_session(&mut state);
    let (r, n) = state.session_message(2, g, s, 2, Some(3), "X".to_string());
    assert!(matches!(r, Ok(Reply::Ack)));
    let out = state.notify(n);
    assert_eq!(targets(&out), vec![3]);
    match &out[0] {
        Delivery::Notify { event: Event::SessionMessage(m), .. } => {
            assert_eq!(m.body, "X");
            assert_eq!(m.sender, 2);
            assert_eq!(m.receiver, Some(3));
        }
        other => panic!("unexpected delivery {:?}", other),
    }
    let (r, _) = state.session_message(2, g, s, 2, Some(7), "X".to_string());
    assert_eq!(r.unwrap_err(), ServerError::PartyNotSignedUp(7));
}

#[test]
fn broadcast_skips_sender() {
    let mut state = State::new();
    let (g, s) = full_session(&mut state);
    let (_, n) = state.session_message(2, g, s, 2, None, "Y".to_string());
    assert_eq!(targets(&state.notify(n)), vec![1, 3]);
}

#[test]
fn finish_protocol_closes_once() {
    let mut state = State::new();
    let (g, s) = full_session(&mut state);
    let (r, n) = state.session_finish(g, s, 1);
    assert!(matches!(r, Ok(Reply::Ack)));
    assert!(matches!(n, Notification::Noop));
    let (_, n) = state.session_finish(g, s, 2);
    assert!(matches!(n, Notification::Noop));
    let (_, n) = state.session_finish(g, s, 3);
    let out = state.notify(n);
    assert_eq!(targets(&out), vec![1, 2, 3]);
    assert!(out.iter().all(|d| matches!(d, Delivery::Notify { event: Event::SessionClosed(_), .. })));
    let (r, n) = state.session_finish(g, s, 2);
    assert!(matches!(r, Ok(Reply::Ack)));
    assert!(matches!(n, Notification::Noop));
}

#[test]
fn load_path() {
    let mut state = State::new();
    connected(&mut state, &[1, 2, 3]);
    let (r, _) = state.group_create(1, params(3, 1), "l".to_string());
    let g = group_id(&r);
    state.group_join(2, g);
    state.group_join(3, g);
    let (r, _) = state.session_create(1, g, SessionKind::Sign);
    let s = session_id(&r);
    let (r, _) = state.session_load(1, g, s, 1);
    assert!(matches!(r, Ok(Reply::PartyNumber(1))));
    let (r, _) = state.session_load(2, g, s, 2);
    assert!(matches!(r, Ok(Reply::PartyNumber(2))));
    let (r, n) = state.session_load(3, g, s, 3);
    assert!(matches!(r, Ok(Reply::PartyNumber(3))));
    assert_eq!(targets(&state.notify(n)), vec![1, 2, 3]);
    let (r, _) = state.session_load(1, g, s, 0);
    assert_eq!(r.unwrap_err(), ServerError::ZeroPartyNumber);
    let (r, _) = state.session_load(1, g, s, 2);
    assert_eq!(r.unwrap_err(), ServerError::PartyNumberAlreadyExists(s));
    let (r, _) = state.session_load(1, g, s, 4);
    assert_eq!(r.unwrap_err(), ServerError::PartyNumberOutOfRange);
}

#[test]
fn signup_on_full_session_fails() {
    let mut state = State::new();
    let (g, s) = full_session(&mut state);
    let (r, n) = state.session_signup(1, g, s);
    assert_eq!(r.unwrap_err(), ServerError::SessionFull(s));
    assert!(matches!(n, Notification::Noop));
}

#[test]
fn unknown_ids_are_domain_errors() {
    let mut state = State::new();
    let (g, s) = full_session(&mut state);
    let (r, _) = state.session_signup(1, g + 1, s);
    assert_eq!(r.unwrap_err(), ServerError::GroupNotFound(g + 1));
    let (r, _) = state.session_signup(1, g, s + 1);
    assert_eq!(r.unwrap_err(), ServerError::SessionNotFound(s + 1));
    let (r, _) = state.group_join(1, g + 1);
    assert_eq!(r.unwrap_err(), ServerError::GroupNotFound(g + 1));
    let (r, _) = state.group_create(1, params(0, 0), "none".to_string());
    assert_eq!(r.unwrap_err(), ServerError::NoParties);
    let (r, _) = state.session_finish(g, s, 9);
    assert_eq!(r.unwrap_err(), ServerError::PartyNotSignedUp(9));
}

#[test]
fn disconnect_teardown_keeps_stale_signups() {
    let mut state = State::new();
    let (g, s) = full_session(&mut state);
    state.disconnect(3);
    assert_eq!(state.clients, vec![1, 2]);
    assert_eq!(state.group_members(g), vec![1, 2]);
    assert_eq!(state.session_connections(g, s), vec![1, 2, 3]);
    let (_, n) = state.session_message(1, g, s, 1, None, "Z".to_string());
    assert_eq!(targets(&state.notify(n)), vec![2]);
    state.disconnect(1);
    assert_eq!(state.group_list().len(), 1);
    state.disconnect(2);
    assert_eq!(state.group_list().len(), 0);
    assert_eq!(state.group_members(g), Vec::<usize>::new());
}

#[test]
fn group_list_gives_metadata() {
    let mut state = State::new();
    connected(&mut state, &[1]);
    let (r, _) = state.group_create(1, params(5, 2), "five".to_string());
    let g = group_id(&r);
    let list = state.group_list();
    assert_eq!(list.len(), 1);
    assert_eq!(list[0].uuid, g);
    assert_eq!(list[0].params, params(5, 2));
    assert_eq!(list[0].label, "five");
}

#[test]
fn reply_precedes_notifications() {
    let mut server = Server::new();
    let c1 = server.client_connected().unwrap();
    let c2 = server.client_connected().unwrap();
    assert_eq!((c1, c2), (1, 2));
    let out = server.rpc_request(c1, Command::GroupCreate { params: params(2, 1), label: "r".to_string() });
    assert_eq!(targets(&out), vec![c1]);
    let g = match &out[0] {
        Delivery::Reply { result, .. } => group_id(result),
        other => panic!("unexpected delivery {:?}", other),
    };
    let out = server.rpc_request(c2, Command::GroupJoin { group_id: g });
    assert_eq!(targets(&out), vec![c2, c1, c2]);
    assert!(matches!(out[0], Delivery::Reply { .. }));
    assert!(out[1..].iter().all(|d| matches!(d, Delivery::Notify { .. })));
    let out = server.rpc_request(c2, Command::Close);
    assert_eq!(out.len(), 1);
    assert!(matches!(out[0], Delivery::Reply { result: Ok(Reply::Close), .. }));
    server.client_disconnected(c2);
    assert_eq!(server.client_connected(), Some(3));
}

#[test]
fn error_messages_describe_errors() {
    assert_eq!(ServerError::ZeroPartyNumber.message(), "party number may not be zero");
    assert_eq!(ServerError::NotDirectory("x".to_string()).message(), "x is not a directory");
}

#[test]
fn signup_after_loads_never_reuses_a_number() {
    let mut state = State::new();
    connected(&mut state, &[1, 2, 3]);
    let (r, _) = state.group_create(1, params(3, 1), "mixed".to_string());
    let g = group_id(&r);
    state.group_join(2, g);
    state.group_join(3, g);
    let (r, _) = state.session_create(1, g, SessionKind::Sign);
    let s = session_id(&r);
    state.session_load(1, g, s, 2);
    state.session_load(2, g, s, 1);
    let (r, n) = state.session_signup(3, g, s);
    assert_eq!(r.unwrap_err(), ServerError::PartyNumberAlreadyExists(s));
    assert!(matches!(n, Notification::Noop));
    assert_eq!(state.session_connections(g, s), vec![1, 2]);
}

#[test]
fn server_request_carries_plan_events() {
    let mut server = Server::new();
    let c1 = server.client_connected().unwrap();
    let c2 = server.client_connected().unwrap();
    let out = server.rpc_request(c1, Command::GroupCreate { params: params(2, 1), label: "e".to_string() });
    let g = match &out[0] {
        Delivery::Reply { result, .. } => group_id(result),
        other => panic!("unexpected delivery {:?}", other),
    };
    let out = server.rpc_request(c2, Command::GroupJoin { group_id: g });
    assert!(out[1..].iter().all(|d| matches!(d, Delivery::Notify { event: Event::GroupReady(info), .. } if info.uuid == g)));
    let out = server.rpc_request(c1, Command::SessionCreate { group_id: g, kind: SessionKind::Keygen });
    let s = match &out[0] {
        Delivery::Reply { result, .. } => session_id(result),
        other => panic!("unexpected delivery {:?}", other),
    };
    assert_eq!(targets(&out), vec![c1, c2]);
    assert!(matches!(&out[1], Delivery::Notify { event: Event::SessionCreated(info), .. } if info.uuid == s));
    server.client_disconnected(c1);
    server.client_disconnected(c2);
    assert_eq!(server.state.group_list().len(), 0);
}
