use futures_channel::mpsc::{unbounded, UnboundedReceiver};
use tokio_tungstenite::tungstenite::Message;

use peer_hub::connection::{step, ConnAction, ConnEvent, ConnState};
use peer_hub::dispatch::Endpoints;
use peer_hub::peer::{contains_id, PeerId};
use peer_hub::peers::PeerMap;
use peer_hub::request::Request;
use peer_hub::response::{PeerDirection, Response};
use peer_hub::sink::Sink;

fn pid(n: u16) -> PeerId {
    PeerId::new(0x7f00_0001, n, false)
}

fn drain(rx: &mut UnboundedReceiver<Message>) -> Vec<String> {
    let mut out = Vec::new();
    while let Ok(Some(m)) = rx.try_next() {
        match m {
            Message::Text(t) => out.push(t),
            other => panic!("unexpected frame {:?}", other),
        }
    }
    out
}

fn sorted(mut v: Vec<PeerId>) -> Vec<PeerId> {
    v.sort_by_key(|p| (p.ip, p.port, p.is_v6));
    v
}

type Handler = for<'a> fn(Request<'a, ()>) -> Response;

fn echo(req: Request<'_, ()>) -> Response {
    let v: serde_json::Value = serde_json::from_str(req.payload()).unwrap();
    let msg = v.get("msg").and_then(|m| m.as_str()).unwrap_or("");
    let mut out = serde_json::Map::new();
    out.insert("msg".to_string(), serde_json::Value::String(msg.to_string()));
    let text = serde_json::Value::Object(out).to_string();
    Response::text(&text).to_origin(req.peer())
}

fn shout(_req: Request<'_, ()>) -> Response {
    Response::text("to everyone").to_all()
}

fn dispatch_text(
    endpoints: &Endpoints<Handler>,
    peers: &PeerMap,
    from: PeerId,
    text: &str,
) -> Option<Vec<PeerId>> {
    let data = text.to_string();
    let (state, action) = step(ConnState::Active, &ConnEvent::Text(data.clone()), endpoints);
    assert_eq!(state, ConnState::Active);
    match action {
        ConnAction::Dispatch(i) => {
            let snapshot = peers.snapshot();
            let handler = endpoints.handler(i);
            let response = handler(Request::new(from, &snapshot, &data, ()));
            let mut delivery = peers.snapshot();
            Some(response.respond(&mut delivery))
        }
        ConnAction::Ignore => None,
        other => panic!("unexpected action {:?}", other),
    }
}

#[test]
fn register_then_deregister_leaves_nothing() {
    let mut peers = PeerMap::new();
    let (tx, _rx) = unbounded();
    peers.register(pid(1), Sink::new(tx));
    assert!(peers.contains(pid(1)));
    assert_eq!(peers.len(), 1);
    peers.deregister(pid(1));
    assert!(!peers.contains(pid(1)));
    assert_eq!(peers.len(), 0);
    assert!(peers.ids().is_empty());
}

#[test]
fn sequence_of_changes_keeps_last_state_per_peer() {
    let mut peers = PeerMap::new();
    let (t1, _r1) = unbounded();
    let (t2, _r2) = unbounded();
    let (t3, _r3) = unbounded();
    let (t1b, _r1b) = unbounded();
    peers.register(pid(1), Sink::new(t1));
    peers.register(pid(2), Sink::new(t2));
    peers.deregister(pid(1));
    peers.register(pid(3), Sink::new(t3));
    peers.register(pid(1), Sink::new(t1b));
    peers.deregister(pid(2));
    assert_eq!(sorted(peers.ids()), vec![pid(1), pid(3)]);
    assert_eq!(peers.len(), 2);
}

#[test]
fn registering_twice_keeps_one_entry_with_last_sink() {
    let mut peers = PeerMap::new();
    let (old_tx, mut old_rx) = unbounded();
    let (new_tx, mut new_rx) = unbounded();
    peers.register(pid(1), Sink::new(old_tx));
    peers.register(pid(1), Sink::new(new_tx));
    assert_eq!(peers.len(), 1);
    let sent = Response::text("x").to_all().respond(&mut peers);
    assert_eq!(sent, vec![pid(1)]);
    assert_eq!(drain(&mut new_rx), vec!["x".to_string()]);
    assert!(drain(&mut old_rx).is_empty());
}

#[test]
fn deregister_twice_is_same_as_once() {
    let mut peers = PeerMap::new();
    let (t1, _r1) = unbounded();
    let (t2, _r2) = unbounded();
    peers.register(pid(1), Sink::new(t1));
    peers.register(pid(2), Sink::new(t2));
    peers.deregister(pid(1));
    let once = peers.ids();
    peers.deregister(pid(1));
    assert_eq!(peers.ids(), once);
    assert_eq!(once, vec![pid(2)]);
}

#[test]
fn deregister_absent_is_noop() {
    let mut peers = PeerMap::new();
    let (t1, _r1) = unbounded();
    peers.register(pid(1), Sink::new(t1));
    peers.deregister(pid(9));
    assert_eq!(peers.ids(), vec![pid(1)]);
}

#[test]
fn get_returns_registered_sink() {
    let mut peers = PeerMap::new();
    let (t1, mut r1) = unbounded();
    peers.register(pid(1), Sink::new(t1));
    assert!(peers.get(pid(2)).is_none());
    peers.get(pid(1)).unwrap().tx().unbounded_send(Message::Text("direct".to_string())).unwrap();
    assert_eq!(drain(&mut r1), vec!["direct".to_string()]);
}

fn three_peers() -> (PeerMap, Vec<UnboundedReceiver<Message>>) {
    let mut peers = PeerMap::new();
    let mut rxs = Vec::new();
    for n in 1..=3u16 {
        let (tx, rx) = unbounded();
        peers.register(pid(n), Sink::new(tx));
        rxs.push(rx);
    }
    (peers, rxs)
}

#[test]
fn all_reaches_every_registered_peer() {
    let (mut peers, mut rxs) = three_peers();
    let sent = Response::text("hello").to_all().respond(&mut peers);
    assert_eq!(sorted(sent), vec![pid(1), pid(2), pid(3)]);
    for rx in rxs.iter_mut() {
        assert_eq!(drain(rx), vec!["hello".to_string()]);
    }
}

#[test]
fn all_except_skips_listed_peers() {
    let (mut peers, mut rxs) = three_peers();
    let sent = Response::text("m").to_all_except(vec![pid(2), pid(7)]).respond(&mut peers);
    assert_eq!(sorted(sent), vec![pid(1), pid(3)]);
    assert_eq!(drain(&mut rxs[0]), vec!["m".to_string()]);
    assert!(drain(&mut rxs[1]).is_empty());
    assert_eq!(drain(&mut rxs[2]), vec!["m".to_string()]);
}

#[test]
fn multiple_reaches_only_registered_listed_peers() {
    let (mut peers, mut rxs) = three_peers();
    let sent = Response::text("m").to_selected(vec![pid(3), pid(8), pid(1)]).respond(&mut peers);
    assert_eq!(sorted(sent), vec![pid(1), pid(3)]);
    assert_eq!(drain(&mut rxs[0]), vec!["m".to_string()]);
    assert!(drain(&mut rxs[1]).is_empty());
    assert_eq!(drain(&mut rxs[2]), vec!["m".to_string()]);
}

#[test]
fn origin_reaches_only_that_peer() {
    let (mut peers, mut rxs) = three_peers();
    let sent = Response::text("pong").to_origin(pid(2)).respond(&mut peers);
    assert_eq!(sent, vec![pid(2)]);
    assert!(drain(&mut rxs[0]).is_empty());
    assert_eq!(drain(&mut rxs[1]), vec!["pong".to_string()]);
    assert!(drain(&mut rxs[2]).is_empty());
}

#[test]
fn origin_not_registered_reaches_nobody() {
    let (mut peers, mut rxs) = three_peers();
    let sent = Response::text("pong").to_origin(pid(9)).respond(&mut peers);
    assert!(sent.is_empty());
    for rx in rxs.iter_mut() {
        assert!(drain(rx).is_empty());
    }
}

#[test]
fn none_and_empty_reach_nobody() {
    let (mut peers, mut rxs) = three_peers();
    assert!(Response::text("x").to_none().respond(&mut peers).is_empty());
    let empty = Response::empty();
    assert_eq!(empty.content(), "");
    assert!(matches!(empty.to(), PeerDirection::Nobody));
    assert!(empty.respond(&mut peers).is_empty());
    for rx in rxs.iter_mut() {
        assert!(drain(rx).is_empty());
    }
}

#[test]
fn default_direction_is_nobody() {
    assert!(matches!(PeerDirection::default(), PeerDirection::Nobody));
}

#[test]
fn to_direction_keeps_content_and_direction() {
    let (mut peers, _rxs) = three_peers();
    let r = Response::text("c").to_direction(PeerDirection::Multiple(vec![pid(1)]));
    assert_eq!(r.content(), "c");
    assert_eq!(r.respond(&mut peers), vec![pid(1)]);
}

#[test]
fn closed_recipient_is_skipped_silently() {
    let (mut peers, mut rxs) = three_peers();
    let gone = rxs.remove(1);
    drop(gone);
    let sent = Response::text("still").to_all().respond(&mut peers);
    assert_eq!(sent.len(), 3);
    assert_eq!(drain(&mut rxs[0]), vec!["still".to_string()]);
    assert_eq!(drain(&mut rxs[1]), vec!["still".to_string()]);
}

#[test]
fn messages_to_one_peer_keep_their_order() {
    let (mut peers, mut rxs) = three_peers();
    Response::text("A").to_origin(pid(1)).respond(&mut peers);
    Response::text("B").to_all().respond(&mut peers);
    Response::text("C").to_selected(vec![pid(1)]).respond(&mut peers);
    assert_eq!(drain(&mut rxs[0]), vec!["A".to_string(), "B".to_string(), "C".to_string()]);
}

#[test]
fn payload_status_is_json_object() {
    assert_eq!(Response::payload_status(200).to_all().content(), "{\"status\":200}");
    assert_eq!(Response::payload_status(0).to_all().content(), "{\"status\":0}");
    assert_eq!(Response::payload_status(65535).to_all().content(), "{\"status\":65535}");
}

#[test]
fn text_keeps_content() {
    assert_eq!(Response::text("héllo").to_all().content(), "héllo");
}

#[test]
fn find_caller_ignores_case() {
    let mut endpoints: Endpoints<Handler> = Endpoints::new();
    endpoints.endpoint("Echo", echo);
    endpoints.endpoint("shout", shout);
    assert_eq!(endpoints.find_caller("echo"), Some(0));
    assert_eq!(endpoints.find_caller("ECHO"), Some(0));
    assert_eq!(endpoints.find_caller("Shout"), Some(1));
    assert_eq!(endpoints.find_caller("nope"), None);
    assert_eq!(endpoints.find_caller(""), None);
}

#[test]
fn find_caller_first_of_case_variants_wins() {
    let mut endpoints: Endpoints<Handler> = Endpoints::new();
    endpoints.endpoint("shout", shout);
    endpoints.endpoint("SHOUT", echo);
    assert_eq!(endpoints.len(), 2);
    assert_eq!(endpoints.find_caller("Shout"), Some(0));
}

#[test]
fn endpoint_with_same_name_replaces_handler() {
    let mut endpoints: Endpoints<Handler> = Endpoints::new();
    endpoints.endpoint("a", shout);
    endpoints.endpoint("b", shout);
    endpoints.endpoint("a", echo);
    assert_eq!(endpoints.len(), 2);
    assert_eq!(endpoints.find_caller("a"), Some(0));
    assert!(*endpoints.handler(0) == echo as Handler);
}

#[test]
fn route_reads_type_field() {
    let mut endpoints: Endpoints<Handler> = Endpoints::new();
    endpoints.endpoint("Echo", echo);
    endpoints.endpoint("shout", shout);
    assert_eq!(endpoints.route("{\"type\":\"Echo\",\"msg\":\"hi\"}"), Some(0));
    assert_eq!(endpoints.route("{\"msg\":1,\"type\":\"SHOUT\"}"), Some(1));
    assert_eq!(endpoints.route("{\"msg\":\"hi\"}"), None);
    assert_eq!(endpoints.route("{\"type\":\"Nope\"}"), None);
    assert_eq!(endpoints.route("{\"type\":5}"), None);
    assert_eq!(endpoints.route("not json"), None);
    assert_eq!(endpoints.route("[\"Echo\"]"), None);
}

#[test]
fn echo_reaches_only_origin() {
    let mut endpoints: Endpoints<Handler> = Endpoints::new();
    endpoints.endpoint("Echo", echo);
    let (peers, mut rxs) = three_peers();
    let sent = dispatch_text(&endpoints, &peers, pid(1), "{\"type\":\"Echo\",\"msg\":\"hi\"}");
    assert_eq!(sent, Some(vec![pid(1)]));
    assert_eq!(drain(&mut rxs[0]), vec!["{\"msg\":\"hi\"}".to_string()]);
    assert!(drain(&mut rxs[1]).is_empty());
    assert!(drain(&mut rxs[2]).is_empty());
}

#[test]
fn broadcast_reaches_both_peers() {
    let mut endpoints: Endpoints<Handler> = Endpoints::new();
    endpoints.endpoint("shout", shout);
    let mut peers = PeerMap::new();
    let (t1, mut r1) = unbounded();
    let (t2, mut r2) = unbounded();
    peers.register(pid(1), Sink::new(t1));
    peers.register(pid(2), Sink::new(t2));
    let sent = dispatch_text(&endpoints, &peers, pid(1), "{\"type\":\"shout\"}");
    assert_eq!(sorted(sent.unwrap()), vec![pid(1), pid(2)]);
    assert_eq!(drain(&mut r1), vec!["to everyone".to_string()]);
    assert_eq!(drain(&mut r2), vec!["to everyone".to_string()]);
}

#[test]
fn message_without_type_is_dropped_and_connection_stays() {
    let mut endpoints: Endpoints<Handler> = Endpoints::new();
    endpoints.endpoint("shout", shout);
    let (peers, mut rxs) = three_peers();
    assert_eq!(dispatch_text(&endpoints, &peers, pid(1), "{\"msg\":\"hi\"}"), None);
    for rx in rxs.iter_mut() {
        assert!(drain(rx).is_empty());
    }
}

#[test]
fn unknown_type_is_dropped() {
    let mut endpoints: Endpoints<Handler> = Endpoints::new();
    endpoints.endpoint("shout", shout);
    endpoints.endpoint("Echo", echo);
    let (peers, mut rxs) = three_peers();
    assert_eq!(dispatch_text(&endpoints, &peers, pid(1), "{\"type\":\"Nope\"}"), None);
    for rx in rxs.iter_mut() {
        assert!(drain(rx).is_empty());
    }
}

#[test]
fn connection_lifecycle_steps() {
    let endpoints: Endpoints<Handler> = Endpoints::new();
    let text = ConnEvent::Text("{\"type\":\"x\"}".to_string());
    assert_eq!(
        step(ConnState::Connecting, &ConnEvent::Accepted, &endpoints),
        (ConnState::Active, ConnAction::Register)
    );
    assert_eq!(
        step(ConnState::Connecting, &ConnEvent::Refused, &endpoints),
        (ConnState::Closed, ConnAction::Ignore)
    );
    assert_eq!(step(ConnState::Active, &ConnEvent::Other, &endpoints), (ConnState::Active, ConnAction::Ignore));
    assert_eq!(step(ConnState::Active, &text, &endpoints), (ConnState::Active, ConnAction::Ignore));
    assert_eq!(
        step(ConnState::Active, &ConnEvent::Ended, &endpoints),
        (ConnState::Closed, ConnAction::Deregister)
    );
    assert_eq!(step(ConnState::Closed, &ConnEvent::Ended, &endpoints), (ConnState::Closed, ConnAction::Ignore));
    assert_eq!(step(ConnState::Closed, &ConnEvent::Accepted, &endpoints), (ConnState::Closed, ConnAction::Ignore));
}

#[test]
fn active_text_dispatches_to_named_handler() {
    let mut endpoints: Endpoints<Handler> = Endpoints::new();
    endpoints.endpoint("a", shout);
    endpoints.endpoint("B", echo);
    let ev = ConnEvent::Text("{\"type\":\"b\"}".to_string());
    assert_eq!(step(ConnState::Active, &ev, &endpoints), (ConnState::Active, ConnAction::Dispatch(1)));
    assert_eq!(step(ConnState::Connecting, &ev, &endpoints), (ConnState::Connecting, ConnAction::Ignore));
}

#[test]
fn request_exposes_its_parts() {
    let (peers, _rxs) = three_peers();
    let data = "{\"type\":\"x\"}".to_string();
    let req = Request::new(pid(2), &peers, &data, 41u32);
    assert_eq!(req.peer(), pid(2));
    assert_eq!(req.peers().len(), 3);
    assert_eq!(req.payload(), &data);
    assert_eq!(*req.shared(), 41);
}

#[test]
fn snapshot_is_unaffected_by_later_changes() {
    let (mut peers, _rxs) = three_peers();
    let snap = peers.snapshot();
    peers.deregister(pid(1));
    assert_eq!(snap.len(), 3);
    assert_eq!(peers.len(), 2);
    assert!(snap.contains(pid(1)));
}

#[test]
fn contains_id_checks_membership() {
    assert!(contains_id(&vec![pid(1), pid(2)], pid(2)));
    assert!(!contains_id(&vec![pid(1), pid(2)], pid(3)));
    assert!(!contains_id(&Vec::new(), pid(1)));
    assert_ne!(PeerId::new(1, 80, false), PeerId::new(1, 80, true));
}
