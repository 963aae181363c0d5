use annex::protocol::{HostMsg, IceCandidate};
use annex::signaling::{
    ClientText, SignalAction, SignalConfig, SignalError, SignalEvent, SignalPhase, Signalling,
};

fn config(token: Option<&str>) -> SignalConfig {
    SignalConfig {
        auth_token: token.map(|t| t.to_string()),
        width: 1920,
        height: 1080,
        fps: 60,
        max_clients: 4,
        max_message_len: 64 * 1024,
    }
}

/// A text frame of ordinary size, arriving while one client is connected.
fn text(msg: ClientText) -> SignalEvent {
    SignalEvent::Text { msg, len: 100, clients: 1 }
}

fn candidate() -> IceCandidate {
    IceCandidate {
        candidate: "candidate:1 1 udp 1 192.168.1.75 5000 typ host".to_string(),
        sdp_mid: Some("0".to_string()),
        sdp_mline_index: Some(0),
    }
}

#[test]
fn a_full_session_runs_in_order_and_cleans_up_once() {
    let mut s = Signalling::new(config(Some("tok")));
    assert_eq!(
        s.step(text(ClientText::Hello { token: Some("tok".to_string()) })),
        vec![SignalAction::BuildSession]
    );
    assert_eq!(
        s.step(SignalEvent::SessionBuilt),
        vec![SignalAction::CountClient, SignalAction::WatchConnection, SignalAction::CreateOffer]
    );
    assert_eq!(
        s.step(SignalEvent::OfferCreated("v=0".to_string())),
        vec![
            SignalAction::SendOffer("v=0".to_string()),
            SignalAction::SendConfig { w: 1920, h: 1080, fps: 60 }
        ]
    );
    assert_eq!(s.step(SignalEvent::LocalIce(candidate())), vec![SignalAction::ForwardIce(candidate())]);
    assert_eq!(
        s.step(text(ClientText::Answer("answer".to_string()))),
        vec![SignalAction::AcceptAnswer("answer".to_string())]
    );
    assert_eq!(
        s.step(text(ClientText::Ice(candidate()))),
        vec![SignalAction::AddIce(candidate())]
    );
    assert_eq!(s.step(text(ClientText::Input)), vec![]);
    assert_eq!(s.step(text(ClientText::Unparsable)), vec![]);
    assert_eq!(s.step(SignalEvent::OtherFrame), vec![]);
    assert!(!s.is_closed());
    assert_eq!(s.step(SignalEvent::Ended), vec![SignalAction::Cleanup]);
    assert!(s.is_closed());
    assert_eq!(s.step(SignalEvent::Ended), vec![]);
    assert_eq!(s.step(SignalEvent::SendFailed), vec![]);
}

#[test]
fn a_wrong_or_missing_token_is_refused_before_anything_is_built() {
    for token in [Some("nope".to_string()), None, Some(String::new())] {
        let mut s = Signalling::new(config(Some("tok")));
        let acts = s.step(text(ClientText::Hello { token }));
        assert_eq!(acts, vec![SignalAction::SendError(SignalError::BadToken), SignalAction::CountRejected]);
        assert_eq!(s.phase, SignalPhase::Closed);
        assert_eq!(s.step(SignalEvent::SessionBuilt), vec![]);
    }
}

#[test]
fn anything_but_hello_first_is_refused() {
    for ev in [
        text(ClientText::Answer("x".to_string())),
        SignalEvent::OtherFrame,
        SignalEvent::Ended,
        text(ClientText::Unparsable),
    ] {
        let mut s = Signalling::new(config(Some("tok")));
        assert_eq!(
            s.step(ev),
            vec![SignalAction::SendError(SignalError::ExpectedHello), SignalAction::CountRejected]
        );
        assert!(s.is_closed());
    }
}

#[test]
fn an_open_endpoint_accepts_any_hello() {
    let mut s = Signalling::new(config(None));
    assert_eq!(
        s.step(text(ClientText::Hello { token: None })),
        vec![SignalAction::BuildSession]
    );
}

#[test]
fn failures_are_reported_to_the_client() {
    let mut s = Signalling::new(config(None));
    s.step(text(ClientText::Hello { token: None }));
    assert_eq!(
        s.step(SignalEvent::SessionFailed("no codec".to_string())),
        vec![SignalAction::SendError(SignalError::Failed("no codec".to_string()))]
    );
    assert!(s.is_closed());

    let mut s = Signalling::new(config(None));
    s.step(text(ClientText::Hello { token: None }));
    s.step(SignalEvent::SessionBuilt);
    assert_eq!(
        s.step(SignalEvent::OfferFailed("offer".to_string())),
        vec![SignalAction::SendError(SignalError::Failed("offer".to_string()))]
    );

    let mut s = Signalling::new(config(None));
    s.step(text(ClientText::Hello { token: None }));
    s.step(SignalEvent::SessionBuilt);
    s.step(SignalEvent::OfferCreated("v=0".to_string()));
    assert_eq!(
        s.step(SignalEvent::AnswerRejected("bad sdp".to_string())),
        vec![
            SignalAction::SendError(SignalError::Failed("bad sdp".to_string())),
            SignalAction::Cleanup
        ]
    );

    let mut s = Signalling::new(config(None));
    s.step(text(ClientText::Hello { token: None }));
    s.step(SignalEvent::SessionBuilt);
    s.step(SignalEvent::OfferCreated("v=0".to_string()));
    assert_eq!(s.step(SignalEvent::SendFailed), vec![SignalAction::Cleanup]);
}

#[test]
fn error_messages_read_as_the_client_expects() {
    assert_eq!(
        SignalError::ExpectedHello.to_host_msg(),
        HostMsg::Error("expected hello first".to_string())
    );
    assert_eq!(
        SignalError::BadToken.to_host_msg(),
        HostMsg::Error("bad or missing token".to_string())
    );
    assert_eq!(
        SignalError::TooManyClients.to_host_msg(),
        HostMsg::Error("too many clients".to_string())
    );
    assert_eq!(
        SignalError::MessageTooLarge.to_host_msg(),
        HostMsg::Error("message too large".to_string())
    );
    assert_eq!(
        SignalError::Failed("x".to_string()).to_host_msg(),
        HostMsg::Error("x".to_string())
    );
}

#[test]
fn a_client_beyond_the_ceiling_is_refused() {
    let mut s = Signalling::new(config(Some("tok")));
    let hello = SignalEvent::Text {
        msg: ClientText::Hello { token: Some("tok".to_string()) },
        len: 30,
        clients: 4,
    };
    assert_eq!(s.step(hello), vec![SignalAction::SendError(SignalError::TooManyClients)]);
    assert!(s.is_closed());
    assert_eq!(s.step(SignalEvent::SessionBuilt), vec![]);

    // One below the ceiling is still served.
    let mut s = Signalling::new(config(Some("tok")));
    let hello = SignalEvent::Text {
        msg: ClientText::Hello { token: Some("tok".to_string()) },
        len: 30,
        clients: 3,
    };
    assert_eq!(s.step(hello), vec![SignalAction::BuildSession]);

    // A wrong token is refused as such, and counted, even at the ceiling.
    let mut s = Signalling::new(config(Some("tok")));
    let hello = SignalEvent::Text {
        msg: ClientText::Hello { token: Some("guess".to_string()) },
        len: 30,
        clients: 9,
    };
    assert_eq!(
        s.step(hello),
        vec![SignalAction::SendError(SignalError::BadToken), SignalAction::CountRejected]
    );
}

#[test]
fn oversized_messages_end_the_connection() {
    let big = |msg: ClientText| SignalEvent::Text { msg, len: 64 * 1024 + 1, clients: 0 };

    let mut s = Signalling::new(config(None));
    assert_eq!(
        s.step(big(ClientText::Hello { token: None })),
        vec![SignalAction::SendError(SignalError::MessageTooLarge), SignalAction::CountRejected]
    );
    assert!(s.is_closed());

    let mut s = Signalling::new(config(None));
    s.step(text(ClientText::Hello { token: None }));
    assert_eq!(
        s.step(big(ClientText::Unparsable)),
        vec![SignalAction::SendError(SignalError::MessageTooLarge)]
    );
    assert!(s.is_closed());

    let mut s = Signalling::new(config(None));
    s.step(text(ClientText::Hello { token: None }));
    s.step(SignalEvent::SessionBuilt);
    s.step(SignalEvent::OfferCreated("v=0".to_string()));
    assert_eq!(
        s.step(big(ClientText::Answer("x".to_string()))),
        vec![SignalAction::SendError(SignalError::MessageTooLarge), SignalAction::Cleanup]
    );
    assert!(s.is_closed());

    // Exactly at the cap is fine.
    let mut s = Signalling::new(config(None));
    let at_cap = SignalEvent::Text { msg: ClientText::Hello { token: None }, len: 64 * 1024, clients: 0 };
    assert_eq!(s.step(at_cap), vec![SignalAction::BuildSession]);
}

#[test]
fn candidates_gathered_before_the_offer_follow_it() {
    let other = IceCandidate {
        candidate: "candidate:2 1 udp 1 10.0.0.2 5001 typ host".to_string(),
        sdp_mid: None,
        sdp_mline_index: None,
    };
    let mut s = Signalling::new(config(None));
    s.step(text(ClientText::Hello { token: None }));
    s.step(SignalEvent::SessionBuilt);
    assert_eq!(s.step(SignalEvent::LocalIce(candidate())), vec![]);
    assert_eq!(s.step(SignalEvent::LocalIce(other.clone())), vec![]);
    assert_eq!(
        s.step(SignalEvent::OfferCreated("v=0".to_string())),
        vec![
            SignalAction::SendOffer("v=0".to_string()),
            SignalAction::SendConfig { w: 1920, h: 1080, fps: 60 },
            SignalAction::ForwardIce(candidate()),
            SignalAction::ForwardIce(other.clone()),
        ]
    );
    assert!(s.pending.is_empty());
    assert_eq!(s.step(SignalEvent::LocalIce(other.clone())), vec![SignalAction::ForwardIce(other)]);
}

#[test]
fn a_connected_client_gets_a_keyframe() {
    let mut s = Signalling::new(config(None));
    s.step(text(ClientText::Hello { token: None }));
    s.step(SignalEvent::SessionBuilt);
    s.step(SignalEvent::OfferCreated("v=0".to_string()));
    assert_eq!(s.step(SignalEvent::PeerConnected), vec![SignalAction::RequestKeyframe]);
    assert!(!s.is_closed());
}
