use messaging_core::api::{FileData, Message, MessageEnvelope, MsgPayload};
use messaging_core::auth::UserSignData;
use messaging_core::client::{MessageReceiver, MessageSender, UserInput, parse_user_input};
use messaging_core::config::{ClientConfig, ServerConfig};
use messaging_core::error::MsgSystemError;
use messaging_core::auth::Auth;
use messaging_core::frame::{interpret_auth_response, AuthResponse, Frame, Header, MessageUtil, Payload};

fn envelope(user: &str, content: Message) -> MessageEnvelope {
    MessageEnvelope::new(Some(MsgPayload::new(user, content)), None)
}

#[test]
fn input_lines_are_classified() {
    match parse_user_input(".file a b.txt") {
        UserInput::Attachment { path, image } => {
            assert_eq!(path, "a b.txt");
            assert!(!image);
        }
        other => panic!("expected an attachment, got {:?}", classify(&other)),
    }
    match parse_user_input(".image  cat.png") {
        UserInput::Attachment { path, image } => {
            assert_eq!(path, "cat.png");
            assert!(image);
        }
        other => panic!("expected an attachment, got {:?}", classify(&other)),
    }
    assert!(matches!(parse_user_input(".quit"), UserInput::Quit));
    match parse_user_input("hello world") {
        UserInput::Text(t) => assert_eq!(t, "hello world"),
        other => panic!("expected text, got {:?}", classify(&other)),
    }
}

fn classify(input: &UserInput) -> &'static str {
    match input {
        UserInput::Attachment { .. } => "attachment",
        UserInput::Quit => "quit",
        UserInput::Text(_) => "text",
    }
}

#[test]
fn odd_file_commands_follow_the_first_token() {
    // any first token that merely opens with .file is not the file
    // command itself and falls through to the image variant
    match parse_user_input(".filex doc.bin") {
        UserInput::Attachment { path, image } => {
            assert_eq!(path, "doc.bin");
            assert!(image);
        }
        other => panic!("expected an attachment, got {:?}", classify(&other)),
    }
    // a bare command has an empty path
    match parse_user_input(".file") {
        UserInput::Attachment { path, image } => {
            assert_eq!(path, "");
            assert!(!image);
        }
        other => panic!("expected an attachment, got {:?}", classify(&other)),
    }
}

#[test]
fn sender_stamps_its_identity() {
    let sender = MessageSender::new("Alice");
    assert_eq!(sender.username(), "Alice");
    let env = sender.build_envelope(Message::OtherText("hi".to_string()));
    let p = env.payload.unwrap();
    assert_eq!(p.from_user, "Alice");
    assert_eq!(p.content, Message::OtherText("hi".to_string()));
    assert!(env.error.is_none());
}

#[test]
fn attachments_are_stored_under_the_lowercased_sender() {
    let receiver = MessageReceiver::new("./storage");
    let data = FileData::new(vec![1], "a.txt".to_string(), Some("txt".to_string()));
    let env = envelope("Alice", Message::File(data));
    let dir = receiver.process_message(&env).unwrap();
    assert_eq!(dir, "./storage/from_alice");
    let none = receiver.process_message(&envelope("Alice", Message::Login));
    assert!(none.is_none());
}

#[test]
fn every_variant_renders_its_own_line() {
    let receiver = MessageReceiver::new("./storage");
    let file = FileData::new(vec![1], "a.txt".to_string(), Some("txt".to_string()));
    let image = FileData::new(vec![2], "b.png".to_string(), Some("png".to_string()));
    assert_eq!(
        receiver.interpret_message_to_stdout(&envelope("Alice", Message::File(file))),
        "Alice has sent a file with name: a.txt. Stored in: ./storage/from_alice"
    );
    assert_eq!(
        receiver.interpret_message_to_stdout(&envelope("Alice", Message::Image(image))),
        "Alice has sent an image with name: b.png. Stored in: ./storage/from_alice"
    );
    assert_eq!(
        receiver.interpret_message_to_stdout(&envelope("Alice", Message::OtherText("hi".into()))),
        "Alice: hi"
    );
    assert_eq!(
        receiver.interpret_message_to_stdout(&envelope("Alice", Message::Login)),
        "Alice has joined the channel"
    );
    assert_eq!(
        receiver.interpret_message_to_stdout(&envelope("Alice", Message::Exit)),
        "Alice has left the channel"
    );
}

#[test]
fn file_extensions_follow_the_path_rule() {
    assert_eq!(FileData::get_file_extension("a.txt"), Some("txt".to_string()));
    assert_eq!(
        FileData::get_file_extension("dir/archive.tar.gz"),
        Some("gz".to_string())
    );
    assert_eq!(FileData::get_file_extension("noext"), None);
    assert_eq!(FileData::get_file_extension(".hidden"), None);
    assert_eq!(FileData::get_file_extension("a.b/c"), None);
    assert_eq!(FileData::get_file_extension("foo."), Some("".to_string()));
}

#[test]
fn configs_come_from_arguments_or_defaults() {
    let args: Vec<String> = vec!["prog".into(), "127.0.0.1".into(), "4000".into()];
    let server = ServerConfig::from_args(&args).unwrap();
    assert_eq!(server.to_string(), "127.0.0.1:4000");

    let client = ClientConfig::from_args(&args).unwrap();
    assert_eq!(client.to_string(), "127.0.0.1:4000");
    assert_eq!(client.storage_path, "./storage");

    let short: Vec<String> = vec!["prog".into()];
    assert!(matches!(
        ServerConfig::from_args(&short),
        Err(MsgSystemError::ServerConfigurationNotProvided)
    ));
    assert!(matches!(
        ClientConfig::from_args(&short),
        Err(MsgSystemError::ServerConfigurationNotProvided)
    ));

    assert_eq!(ServerConfig::default().to_string(), "127.0.0.1:11111");
    assert_eq!(ClientConfig::default().to_string(), "127.0.0.1:11111");
}

#[test]
fn password_hashing_is_stable_and_not_the_password() {
    let one = UserSignData::new("alice", "secret");
    let two = UserSignData::new("alice", "secret");
    let other = UserSignData::new("alice", "different");
    assert_eq!(one.password, two.password);
    assert_ne!(one.password, other.password);
    assert_ne!(&one.password[..], "secret".as_bytes());
    assert_eq!(one.username, "alice");
}

#[test]
fn auth_frames_carry_the_right_shape() {
    let login = MessageUtil::create_auth_login_frame("alice", "secret");
    match login.payload {
        Payload::Auth(messaging_core::auth::Auth::Login(d)) => assert_eq!(d.username, "alice"),
        _ => panic!("expected a login payload"),
    }
    let register = MessageUtil::create_auth_register_frame("bob", "hunter");
    match register.payload {
        Payload::Auth(messaging_core::auth::Auth::Register(d)) => assert_eq!(d.username, "bob"),
        _ => panic!("expected a register payload"),
    }
    let logout = MessageUtil::create_auth_logout_frame(messaging_core::auth::AuthToken(
        "tok".to_string(),
    ));
    assert!(matches!(
        logout.payload,
        Payload::Auth(messaging_core::auth::Auth::Logout)
    ));
    let _ = Header::new();
}

#[test]
fn auth_answers_are_interpreted() {
    let yes = Frame::new(Header::new(), Payload::Auth(Auth::LoggedIn(true)));
    assert_eq!(interpret_auth_response(&yes), AuthResponse::Accepted);
    let no = Frame::new(Header::new(), Payload::Auth(Auth::LoggedIn(false)));
    assert_eq!(interpret_auth_response(&no), AuthResponse::Rejected);
    let odd = Frame::new(Header::new(), Payload::Msg(Message::Login));
    assert_eq!(interpret_auth_response(&odd), AuthResponse::Unexpected);
}
