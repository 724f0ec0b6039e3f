use futures_channel::mpsc::{unbounded, UnboundedReceiver};
use swap_relay::channel::{Reply, Tx};
use swap_relay::errors::DecodeError;
use swap_relay::identity::ConnId;
use swap_relay::messages::{Frame, SwapRequest, SwapResponse};
use swap_relay::models::{TimeStamp, TokenInfoInnerResponse, TokenInfoResponse};
use swap_relay::peers::Delivery;
use swap_relay::server::Server;
use swap_relay::session::{Reaction, Session, SessionEvent, SessionState};
use swap_relay::wire::{decode_request, encode_response};
use tokio_tungstenite::tungstenite::protocol::Message;

type Rx = UnboundedReceiver<Message>;

fn peer(port: u16) -> ConnId {
    ConnId::v4(0x7f00_0001, port)
}

fn channel() -> (Tx, Rx) {
    unbounded()
}

/// The requests that wait in a connection's queue, oldest first.
fn drain(rx: &mut Rx) -> Vec<SwapRequest> {
    let mut seen = Vec::new();
    while let Ok(message) = rx.try_recv() {
        match message {
            Message::Binary(bytes) => seen.push(decode_request(&bytes).unwrap()),
            other => panic!("unexpected frame {:?}", other),
        }
    }
    seen
}

fn which_token(token: &str) -> Frame {
    Frame::Binary(encode_response(&SwapResponse::WhichToken(token.to_string())))
}

fn sui_report() -> TokenInfoResponse {
    TokenInfoResponse {
        coins: vec![(
            "0xabc".to_string(),
            TokenInfoInnerResponse {
                confidence: 0.9f64.to_bits(),
                decimals: 9,
                price: 1.23f64.to_bits(),
                symbol: "SUI".to_string(),
                timestamp: TimeStamp(1_700_000_000),
            },
        )],
    }
}

fn token_price(report: TokenInfoResponse) -> Frame {
    Frame::Binary(encode_response(&SwapResponse::TokenPrice(report)))
}

fn hub() -> Server {
    Server::new("127.0.0.1:8080".to_string(), 10)
}

#[test]
fn new_hub_is_empty() {
    let server = hub();
    assert_eq!(server.addr, "127.0.0.1:8080");
    assert_eq!(server.timeout_secs, 10);
    assert_eq!(server.peers.len(), 0);
    assert_eq!(server.tokens.len(), 0);
}

#[test]
fn a_new_session_is_greeted_and_entered() {
    let mut server = hub();
    let (tx, mut rx) = channel();
    let (session, greeting) = Session::open(&mut server.peers, peer(1), tx);
    assert_eq!(greeting, Reply { request: SwapRequest::WhichToken, queued: true });
    assert_eq!(session.id(), peer(1));
    assert_eq!(session.state(), &SessionState::Connected);
    assert!(session.is_live());
    assert!(!session.is_registered());
    assert!(server.peers.contains(peer(1)));
    assert_eq!(server.peers.len(), 1);
    assert_eq!(drain(&mut rx), vec![SwapRequest::WhichToken]);
}

#[test]
fn first_claim_is_valid_and_second_is_repeated() {
    let mut server = hub();
    let (tx_a, mut rx_a) = channel();
    let (tx_b, mut rx_b) = channel();

    let (mut a, _) = Session::open(&mut server.peers, peer(1), tx_a);
    assert_eq!(drain(&mut rx_a), vec![SwapRequest::WhichToken]);
    let reaction = a.on_frame(&mut server.peers, &mut server.tokens, &which_token("SUI"));
    assert_eq!(
        reaction,
        Reaction {
            event: SessionEvent::Registered,
            reply: Some(Reply { request: SwapRequest::ValidToken, queued: true }),
        }
    );
    assert_eq!(drain(&mut rx_a), vec![SwapRequest::ValidToken]);
    assert_eq!(a.state(), &SessionState::Registered("SUI".to_string()));
    assert_eq!(server.tokens.token_of(peer(1)), Some(&"SUI".to_string()));
    assert_eq!(server.tokens.holder_of(&"SUI".to_string()), Some(peer(1)));

    let (mut b, _) = Session::open(&mut server.peers, peer(2), tx_b);
    assert_eq!(drain(&mut rx_b), vec![SwapRequest::WhichToken]);
    let reaction = b.on_frame(&mut server.peers, &mut server.tokens, &which_token("SUI"));
    assert_eq!(
        reaction,
        Reaction {
            event: SessionEvent::Rejected,
            reply: Some(Reply { request: SwapRequest::RepeatedToken, queued: true }),
        }
    );
    assert_eq!(drain(&mut rx_b), vec![SwapRequest::RepeatedToken]);
    assert_eq!(b.state(), &SessionState::Rejected);
    assert!(!b.is_live());
    assert!(!server.peers.contains(peer(2)));

    assert_eq!(server.tokens.len(), 1);
    assert_eq!(server.tokens.holder_of(&"SUI".to_string()), Some(peer(1)));
    assert_eq!(server.tokens.token_of(peer(1)), Some(&"SUI".to_string()));
    assert_eq!(server.tokens.token_of(peer(2)), None);
    assert!(server.peers.contains(peer(1)));

    b.close(&mut server.peers, &mut server.tokens);
    assert_eq!(b.state(), &SessionState::Closed);
    assert_eq!(server.tokens.holder_of(&"SUI".to_string()), Some(peer(1)));
    assert_eq!(server.peers.len(), 1);
}

#[test]
fn a_tick_asks_the_registered_agent_once_and_its_report_is_taken() {
    let mut server = hub();
    let (tx_a, mut rx_a) = channel();
    let (mut a, _) = Session::open(&mut server.peers, peer(1), tx_a);
    a.on_frame(&mut server.peers, &mut server.tokens, &which_token("SUI"));
    drain(&mut rx_a);

    let report = server.broadcast();
    assert_eq!(report, vec![Delivery { peer: peer(1), request: SwapRequest::TokenPrice, delivered: true }]);
    assert_eq!(drain(&mut rx_a), vec![SwapRequest::TokenPrice]);

    let reaction = a.on_frame(&mut server.peers, &mut server.tokens, &token_price(sui_report()));
    assert_eq!(reaction, Reaction { event: SessionEvent::Price(sui_report()), reply: None });
    assert_eq!(drain(&mut rx_a), vec![]);
    assert_eq!(a.state(), &SessionState::Registered("SUI".to_string()));
    assert!(server.peers.contains(peer(1)));
}

#[test]
fn a_peer_that_left_is_not_asked_at_the_next_tick() {
    let mut server = hub();
    let (tx_a, mut rx_a) = channel();
    let (mut a, _) = Session::open(&mut server.peers, peer(1), tx_a);
    a.on_frame(&mut server.peers, &mut server.tokens, &which_token("SUI"));
    assert_eq!(server.broadcast(), vec![Delivery { peer: peer(1), request: SwapRequest::TokenPrice, delivered: true }]);
    assert_eq!(
        drain(&mut rx_a),
        vec![SwapRequest::WhichToken, SwapRequest::ValidToken, SwapRequest::TokenPrice]
    );

    drop(rx_a);
    a.close(&mut server.peers, &mut server.tokens);

    assert_eq!(server.broadcast(), vec![]);
    assert!(!server.peers.contains(peer(1)));
    assert_eq!(server.tokens.token_of(peer(1)), None);
    assert_eq!(server.tokens.holder_of(&"SUI".to_string()), None);
    assert_eq!(server.peers.len(), 0);
    assert_eq!(server.tokens.len(), 0);
}

#[test]
fn a_dead_peer_is_pruned_by_the_tick_that_finds_it() {
    let mut server = hub();
    let (tx_a, rx_a) = channel();
    let (tx_b, mut rx_b) = channel();
    let (mut a, _) = Session::open(&mut server.peers, peer(1), tx_a);
    let (mut b, _) = Session::open(&mut server.peers, peer(2), tx_b);
    a.on_frame(&mut server.peers, &mut server.tokens, &which_token("SUI"));
    b.on_frame(&mut server.peers, &mut server.tokens, &which_token("BTC"));
    drain(&mut rx_b);
    drop(rx_a);

    let report = server.broadcast();
    assert_eq!(
        report,
        vec![
            Delivery { peer: peer(1), request: SwapRequest::TokenPrice, delivered: false },
            Delivery { peer: peer(2), request: SwapRequest::TokenPrice, delivered: true },
        ]
    );
    assert!(!server.peers.contains(peer(1)));
    assert!(server.peers.contains(peer(2)));
    assert_eq!(drain(&mut rx_b), vec![SwapRequest::TokenPrice]);
    // The binding stays until the session's own teardown.
    assert_eq!(server.tokens.token_of(peer(1)), Some(&"SUI".to_string()));

    assert_eq!(server.broadcast(), vec![Delivery { peer: peer(2), request: SwapRequest::TokenPrice, delivered: true }]);
    a.close(&mut server.peers, &mut server.tokens);
    assert_eq!(server.tokens.token_of(peer(1)), None);
    assert_eq!(server.tokens.holder_of(&"SUI".to_string()), None);
}

#[test]
fn a_tick_asks_each_registered_peer_once_and_no_other() {
    let mut server = hub();
    let (tx_a, mut rx_a) = channel();
    let (tx_b, mut rx_b) = channel();
    let (tx_c, mut rx_c) = channel();
    let (mut a, _) = Session::open(&mut server.peers, peer(1), tx_a);
    let (_c, _) = Session::open(&mut server.peers, peer(3), tx_c);
    let (mut b, _) = Session::open(&mut server.peers, peer(2), tx_b);
    a.on_frame(&mut server.peers, &mut server.tokens, &which_token("SUI"));
    b.on_frame(&mut server.peers, &mut server.tokens, &which_token("BTC"));
    drain(&mut rx_a);
    drain(&mut rx_b);
    drain(&mut rx_c);

    for _ in 0..3 {
        let report = server.broadcast();
        assert_eq!(
            report,
            vec![
                Delivery { peer: peer(1), request: SwapRequest::TokenPrice, delivered: true },
                Delivery { peer: peer(2), request: SwapRequest::TokenPrice, delivered: true },
            ]
        );
        assert_eq!(drain(&mut rx_a), vec![SwapRequest::TokenPrice]);
        assert_eq!(drain(&mut rx_b), vec![SwapRequest::TokenPrice]);
        assert_eq!(drain(&mut rx_c), vec![]);
    }
    assert_eq!(server.peers.len(), 3);
}

#[test]
fn a_tick_on_an_empty_hub_does_nothing() {
    let mut server = hub();
    assert_eq!(server.broadcast(), vec![]);
    assert_eq!(server.peers.len(), 0);
}

#[test]
fn teardown_leaves_no_trace_of_the_connection() {
    let mut server = hub();
    let (tx_a, _rx_a) = channel();
    let (tx_b, _rx_b) = channel();
    let (mut a, _) = Session::open(&mut server.peers, peer(1), tx_a);
    let (mut b, _) = Session::open(&mut server.peers, peer(2), tx_b);
    a.on_frame(&mut server.peers, &mut server.tokens, &which_token("SUI"));
    b.on_frame(&mut server.peers, &mut server.tokens, &which_token("BTC"));

    a.close(&mut server.peers, &mut server.tokens);
    assert_eq!(a.state(), &SessionState::Closed);
    assert!(!server.peers.contains(peer(1)));
    assert_eq!(server.tokens.token_of(peer(1)), None);
    assert_eq!(server.tokens.holder_of(&"SUI".to_string()), None);
    assert!(server.peers.contains(peer(2)));
    assert_eq!(server.tokens.holder_of(&"BTC".to_string()), Some(peer(2)));

    // A session that never registered leaves the token registry alone.
    let (tx_c, _rx_c) = channel();
    let (mut c, _) = Session::open(&mut server.peers, peer(3), tx_c);
    c.close(&mut server.peers, &mut server.tokens);
    assert!(!server.peers.contains(peer(3)));
    assert_eq!(server.tokens.len(), 1);

    // The token is free again.
    let (tx_d, _rx_d) = channel();
    let (mut d, _) = Session::open(&mut server.peers, peer(4), tx_d);
    let reaction = d.on_frame(&mut server.peers, &mut server.tokens, &which_token("SUI"));
    assert_eq!(reaction.event, SessionEvent::Registered);
}

#[test]
fn a_malformed_frame_is_passed_over() {
    let mut server = hub();
    let (tx_a, mut rx_a) = channel();
    let (mut a, _) = Session::open(&mut server.peers, peer(1), tx_a);
    drain(&mut rx_a);

    let reaction = a.on_frame(&mut server.peers, &mut server.tokens, &Frame::Binary(vec![9, 9]));
    assert_eq!(
        reaction,
        Reaction { event: SessionEvent::Malformed(DecodeError::UnexpectedEnd), reply: None }
    );
    let reaction =
        a.on_frame(&mut server.peers, &mut server.tokens, &Frame::Binary(vec![7, 0, 0, 0]));
    assert_eq!(
        reaction,
        Reaction { event: SessionEvent::Malformed(DecodeError::UnknownVariant(7)), reply: None }
    );
    let reaction = a.on_frame(&mut server.peers, &mut server.tokens, &Frame::Other);
    assert_eq!(reaction, Reaction { event: SessionEvent::NonBinary, reply: None });
    assert_eq!(a.state(), &SessionState::Connected);
    assert!(a.is_live());
    assert!(server.peers.contains(peer(1)));
    assert_eq!(drain(&mut rx_a), vec![]);

    let reaction = a.on_frame(&mut server.peers, &mut server.tokens, &which_token("SUI"));
    assert_eq!(reaction.event, SessionEvent::Registered);
    assert_eq!(drain(&mut rx_a), vec![SwapRequest::ValidToken]);

    let reaction = a.on_frame(&mut server.peers, &mut server.tokens, &Frame::Binary(vec![]));
    assert_eq!(reaction.event, SessionEvent::Malformed(DecodeError::UnexpectedEnd));
    assert_eq!(a.state(), &SessionState::Registered("SUI".to_string()));
    let reaction = a.on_frame(&mut server.peers, &mut server.tokens, &token_price(sui_report()));
    assert_eq!(reaction.event, SessionEvent::Price(sui_report()));
}

#[test]
fn a_price_before_registration_is_not_taken() {
    let mut server = hub();
    let (tx_a, mut rx_a) = channel();
    let (mut a, _) = Session::open(&mut server.peers, peer(1), tx_a);
    drain(&mut rx_a);
    let reaction = a.on_frame(&mut server.peers, &mut server.tokens, &token_price(sui_report()));
    assert_eq!(reaction, Reaction { event: SessionEvent::NotRegistered, reply: None });
    assert_eq!(a.state(), &SessionState::Connected);
    assert_eq!(drain(&mut rx_a), vec![]);
    assert_eq!(server.tokens.len(), 0);
}

#[test]
fn frames_after_the_end_are_dropped() {
    let mut server = hub();
    let (tx_a, mut rx_a) = channel();
    let (mut a, _) = Session::open(&mut server.peers, peer(1), tx_a);
    a.close(&mut server.peers, &mut server.tokens);
    drain(&mut rx_a);
    let reaction = a.on_frame(&mut server.peers, &mut server.tokens, &which_token("SUI"));
    assert_eq!(reaction, Reaction { event: SessionEvent::Finished, reply: None });
    assert_eq!(a.state(), &SessionState::Closed);
    assert_eq!(server.tokens.len(), 0);
    assert_eq!(drain(&mut rx_a), vec![]);
}

#[test]
fn a_registered_agent_may_change_its_token() {
    let mut server = hub();
    let (tx_a, _rx_a) = channel();
    let (mut a, _) = Session::open(&mut server.peers, peer(1), tx_a);
    a.on_frame(&mut server.peers, &mut server.tokens, &which_token("SUI"));
    let reaction = a.on_frame(&mut server.peers, &mut server.tokens, &which_token("BTC"));
    assert_eq!(reaction.event, SessionEvent::Registered);
    assert_eq!(a.state(), &SessionState::Registered("BTC".to_string()));
    assert_eq!(server.tokens.holder_of(&"SUI".to_string()), None);
    assert_eq!(server.tokens.holder_of(&"BTC".to_string()), Some(peer(1)));
    assert_eq!(server.tokens.len(), 1);
}

#[test]
fn a_reply_to_a_dead_connection_is_reported_not_raised() {
    let mut server = hub();
    let (tx_a, rx_a) = channel();
    let (mut a, _) = Session::open(&mut server.peers, peer(1), tx_a);
    drop(rx_a);
    let reaction = a.on_frame(&mut server.peers, &mut server.tokens, &which_token("SUI"));
    assert_eq!(
        reaction,
        Reaction {
            event: SessionEvent::Registered,
            reply: Some(Reply { request: SwapRequest::ValidToken, queued: false }),
        }
    );
}

#[test]
fn send_swap_request_message_reports_delivery() {
    let (tx, mut rx) = channel();
    assert_eq!(
        Server::send_swap_request_message(SwapRequest::TokenPrice, &tx, peer(1)),
        Reply { request: SwapRequest::TokenPrice, queued: true }
    );
    assert_eq!(
        Server::send_swap_request_message(SwapRequest::RepeatedToken, &tx, peer(1)),
        Reply { request: SwapRequest::RepeatedToken, queued: true }
    );
    assert_eq!(drain(&mut rx), vec![SwapRequest::TokenPrice, SwapRequest::RepeatedToken]);
    drop(rx);
    assert_eq!(
        Server::send_swap_request_message(SwapRequest::TokenPrice, &tx, peer(1)),
        Reply { request: SwapRequest::TokenPrice, queued: false }
    );
}

#[test]
fn the_frame_on_the_queue_is_the_encoded_request() {
    let (tx, mut rx) = channel();
    assert_eq!(
        swap_relay::channel::send_request(&tx, SwapRequest::ValidToken),
        Reply { request: SwapRequest::ValidToken, queued: true }
    );
    assert_eq!(rx.try_recv().unwrap(), Message::Binary(vec![1, 0, 0, 0]));
}

#[test]
fn a_greeting_to_a_dead_connection_is_reported_not_raised() {
    let mut server = hub();
    let (tx, rx) = channel();
    drop(rx);
    let (session, greeting) = Session::open(&mut server.peers, peer(1), tx);
    assert_eq!(greeting, Reply { request: SwapRequest::WhichToken, queued: false });
    assert_eq!(session.state(), &SessionState::Connected);
    assert!(server.peers.contains(peer(1)));
}

#[test]
fn a_bad_frame_then_a_token_leaves_greeting_and_confirmation_on_the_queue() {
    let mut server = hub();
    let (tx, mut rx) = channel();
    let (mut a, _) = Session::open(&mut server.peers, ConnId::v4(0x7f00_0001, 5000), tx);
    a.on_frame(&mut server.peers, &mut server.tokens, &Frame::Binary(vec![0xff]));
    a.on_frame(&mut server.peers, &mut server.tokens, &which_token("SUI"));
    assert_eq!(drain(&mut rx), vec![SwapRequest::WhichToken, SwapRequest::ValidToken]);
    assert_eq!(server.tokens.token_of(a.id()), Some(&"SUI".to_string()));
    assert_eq!(server.tokens.holder_of(&"SUI".to_string()), Some(a.id()));
    assert_eq!(server.peers.len(), 1);
}
