use messaging_core::api::{Message, MessageEnvelope, MsgPayload};
use messaging_core::client::MessageSender;
use messaging_core::server::{ConnEvent, ServerCore, SERVER_TOKEN};
use messaging_core::stream::StreamReader;

fn envelope(user: &str, content: Message) -> MessageEnvelope {
    MessageEnvelope::new(Some(MsgPayload::new(user, content)), None)
}

#[test]
fn accept_assigns_fresh_tokens() {
    let mut core = ServerCore::new();
    let a = core.accept();
    let b = core.accept();
    let c = core.accept();
    assert_ne!(a, b);
    assert_ne!(a, c);
    assert_ne!(b, c);
    assert_ne!(a, SERVER_TOKEN);
    assert_ne!(b, SERVER_TOKEN);
    assert_ne!(c, SERVER_TOKEN);
    assert_eq!(core.live_count(), 3);
}

#[test]
fn fanout_reaches_everyone_but_the_sender() {
    let mut core = ServerCore::new();
    let a = core.accept();
    let b = core.accept();
    let c = core.accept();
    let targets = core
        .handle_event(a, ConnEvent::Frame(envelope("alice", Message::OtherText("hi".into()))))
        .unwrap();
    assert_eq!(targets, vec![b, c]);
    assert_eq!(core.live_count(), 3);
}

#[test]
fn exit_removes_the_sender_from_the_registry() {
    let mut core = ServerCore::new();
    let a = core.accept();
    let b = core.accept();
    let c = core.accept();
    // the farewell still goes to the others
    let farewell = core
        .handle_event(a, ConnEvent::Frame(envelope("alice", Message::Exit)))
        .unwrap();
    assert_eq!(farewell, vec![b, c]);
    assert_eq!(core.live_count(), 2);
    // a later broadcast no longer targets the departed connection
    let targets = core
        .handle_event(b, ConnEvent::Frame(envelope("bob", Message::OtherText("x".into()))))
        .unwrap();
    assert_eq!(targets, vec![c]);
    // and events for the stale token are reported as unknown
    assert!(core
        .handle_event(a, ConnEvent::Frame(envelope("alice", Message::Login)))
        .is_none());
}

#[test]
fn closed_streams_are_removed_silently() {
    let mut core = ServerCore::new();
    let a = core.accept();
    let b = core.accept();
    let targets = core.handle_event(a, ConnEvent::CleanClose).unwrap();
    assert!(targets.is_empty());
    assert_eq!(core.live_count(), 1);
    let targets = core.handle_event(b, ConnEvent::Abrupt).unwrap();
    assert!(targets.is_empty());
    assert_eq!(core.live_count(), 0);
}

#[test]
fn unknown_token_changes_nothing() {
    let mut core = ServerCore::new();
    let a = core.accept();
    assert!(core.handle_event(a + 100, ConnEvent::CleanClose).is_none());
    assert_eq!(core.live_count(), 1);
}

#[test]
fn login_then_text_reaches_both_peers_and_not_the_sender() {
    // a client logs in and says hello; two identified peers are
    // connected; both get the text with the sender's name, the sender
    // gets nothing back
    let mut core = ServerCore::new();
    let client = core.accept();
    let peer1 = core.accept();
    let peer2 = core.accept();
    for (tok, name) in [(peer1, "pia"), (peer2, "quinn")] {
        core.handle_event(tok, ConnEvent::Frame(envelope(name, Message::Login)))
            .unwrap();
    }

    let sender = MessageSender::new("alice");
    let login = sender.build_envelope(Message::Login);
    let _ = core.handle_event(client, ConnEvent::Frame(login)).unwrap();

    let hello = sender.build_envelope(Message::OtherText("hello".to_string()));
    let wire = hello.serialize().unwrap();
    let targets = core.handle_event(client, ConnEvent::Frame(hello)).unwrap();
    assert_eq!(targets, vec![peer1, peer2]);
    assert!(!targets.contains(&client));

    // deliver the broadcast bytes to each targeted peer
    for _ in &targets {
        let mut reader = StreamReader::new();
        reader.push_chunk(&wire);
        let payload = reader.try_take_frame().unwrap();
        let received = MessageEnvelope::deserialize(&payload).unwrap();
        let p = received.payload.unwrap();
        assert_eq!(p.from_user, "alice");
        assert_eq!(p.content, Message::OtherText("hello".to_string()));
    }
}
