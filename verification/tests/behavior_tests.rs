use overlay_server::api::{
    ChatRequest, ChatResponse, ClientListError, ContentRequest, ContentResponse, ContentType,
    LoginError, LogoutError, MessageError, RegisterError, Request, Response,
};
use overlay_server::chat_behavior::ChatBehavior;
use overlay_server::media_behavior::MediaBehavior;
use overlay_server::packet::{Ack, Packet, PacketType, SourceRoutingHeader};
use overlay_server::server::{packet_sent_event, set_path_event, ServerEvent};
use overlay_server::specialized_behavior::{
    checked_path, handle_error, BehaviorStep, ProcessError, ServerType, SetPathError,
    SpecializedBehavior,
};
use overlay_server::text_behavior::{is_supported, ContentPlan, TextBehavior};
use std::io;
use std::path::PathBuf;

fn s(text: &str) -> String {
    text.to_string()
}

#[test]
fn supported_file_names() {
    assert!(is_supported(&s("page.rrml")));
    assert!(is_supported(&s("notes.txt")));
    assert!(is_supported(&s(".txt")));
    assert!(is_supported(&s(".rrml")));
    assert!(is_supported(&s("a.txt.txt")));
    assert!(!is_supported(&s("")));
    assert!(!is_supported(&s("txt")));
    assert!(!is_supported(&s("image.png")));
    assert!(!is_supported(&s("notes.txt ")));
    assert!(!is_supported(&s("notes.TXT")));
    assert!(!is_supported(&s("notes.txt.bak")));
    assert!(!is_supported(&s("rrml")));
}

#[test]
fn process_error_messages() {
    assert_eq!(ProcessError::UnexpectedRequest.message(), "Unexpected request");
    assert_eq!(ProcessError::Deserialize.message(), "Deserialization error");
    assert_eq!(ProcessError::Serialize.message(), "Serialization error");
    assert_eq!(ProcessError::FileSystem.message(), "Filesystem error");
}

#[test]
fn new_content_behaviors_have_an_empty_path() {
    assert_eq!(TextBehavior::new().path(), &PathBuf::new());
    assert_eq!(MediaBehavior::new().path(), &PathBuf::new());
    assert!(TextBehavior::new().path().as_os_str().is_empty());
    assert_eq!(MediaBehavior::new().path().as_os_str().len(), 0);
    for server_type in [ServerType::ContentText, ServerType::ContentMedia] {
        let behavior = SpecializedBehavior::new(server_type);
        assert!(behavior.path().expect("a content server has a path").as_os_str().is_empty());
    }
}

#[test]
fn checked_path_follows_the_listing() {
    assert!(matches!(checked_path(PathBuf::from("/srv"), Ok(())), Ok(path) if path == PathBuf::from("/srv")));
    let failure = io::Error::new(io::ErrorKind::NotFound, "gone");
    match checked_path(PathBuf::from("/srv"), Err(failure)) {
        Err(SetPathError::FileSystem(error)) => assert_eq!(error.kind(), io::ErrorKind::NotFound),
        other => panic!("unexpected outcome {:?}", other),
    }
}

#[test]
fn set_path_keeps_the_old_path_on_failure() {
    let mut text = TextBehavior::new();
    assert!(text.set_path(PathBuf::from("/srv/text"), Ok(())).is_ok());
    assert_eq!(text.path(), &PathBuf::from("/srv/text"));
    let failure = io::Error::new(io::ErrorKind::PermissionDenied, "no");
    match text.set_path(PathBuf::from("/root"), Err(failure)) {
        Err(SetPathError::FileSystem(error)) => {
            assert_eq!(error.kind(), io::ErrorKind::PermissionDenied)
        }
        other => panic!("unexpected outcome {:?}", other),
    }
    assert_eq!(text.path(), &PathBuf::from("/srv/text"));

    let mut media = MediaBehavior::new();
    assert!(media.set_path(PathBuf::from("/srv/media"), Ok(())).is_ok());
    assert_eq!(media.path(), &PathBuf::from("/srv/media"));
    let failure = io::Error::new(io::ErrorKind::NotFound, "gone");
    assert!(matches!(
        media.set_path(PathBuf::from("/nowhere"), Err(failure)),
        Err(SetPathError::FileSystem(_))
    ));
    assert_eq!(media.path(), &PathBuf::from("/srv/media"));
}

#[test]
fn text_plan_and_responses() {
    let text = TextBehavior::new();
    let chat = Request::Chat(ChatRequest::Logout(s("a")));
    assert!(matches!(text.plan(chat), Err(ProcessError::UnexpectedRequest)));
    assert!(matches!(text.plan(Request::Content(ContentRequest::List)), Ok(ContentPlan::ListDirectory)));
    match text.plan(Request::Content(ContentRequest::Content(s("a.txt")))) {
        Ok(ContentPlan::ReadFile(name)) => assert_eq!(name, "a.txt"),
        other => panic!("unexpected plan {:?}", other),
    }
    match text.plan(Request::Content(ContentRequest::Content(s("a.png")))) {
        Ok(ContentPlan::Reply(response)) => {
            assert_eq!(response, ContentResponse::ContentNotFound(s("a.png")))
        }
        other => panic!("unexpected plan {:?}", other),
    }
    assert_eq!(
        text.list(vec![s("b.txt"), s("c.png"), s("a.rrml"), s("d"), s("b.txt")]),
        ContentResponse::List(vec![s("b.txt"), s("a.rrml"), s("b.txt")])
    );
    assert_eq!(text.list(Vec::new()), ContentResponse::List(Vec::new()));
    assert_eq!(
        text.content(s("a.txt"), Some(vec![1, 2, 3])),
        ContentResponse::Content(s("a.txt"), ContentType::Text, vec![1, 2, 3])
    );
    assert_eq!(text.content(s("a.txt"), None), ContentResponse::ContentNotFound(s("a.txt")));
    assert_eq!(
        text.content(s("a.png"), Some(vec![1])),
        ContentResponse::ContentNotFound(s("a.png"))
    );
}

#[test]
fn media_plan_and_responses() {
    let media = MediaBehavior::new();
    let chat = Request::Chat(ChatRequest::ClientList(s("a")));
    assert!(matches!(media.plan(chat), Err(ProcessError::UnexpectedRequest)));
    assert!(matches!(media.plan(Request::Content(ContentRequest::List)), Ok(ContentPlan::ListDirectory)));
    match media.plan(Request::Content(ContentRequest::Content(s("a.png")))) {
        Ok(ContentPlan::ReadFile(name)) => assert_eq!(name, "a.png"),
        other => panic!("unexpected plan {:?}", other),
    }
    assert_eq!(
        media.list(vec![s("b.txt"), s("c.png")]),
        ContentResponse::List(vec![s("b.txt"), s("c.png")])
    );
    assert_eq!(
        media.content(s("a.png"), Some(vec![9, 8])),
        ContentResponse::Content(s("a.png"), ContentType::Image, vec![9, 8])
    );
    assert_eq!(media.content(s("a.png"), None), ContentResponse::ContentNotFound(s("a.png")));
}

#[test]
fn chat_server_takes_no_content_path() {
    let mut chat = ChatBehavior::new();
    assert_eq!(chat.register(s("ann"), s("pw1"), 10), Ok(()));
    assert!(matches!(chat.set_path(PathBuf::from("/tmp")), Err(SetPathError::WrongServerType)));
    assert_eq!(chat.get_client_list(), vec![s("ann")]);
}

#[test]
fn chat_refuses_content_requests() {
    let mut chat = ChatBehavior::new();
    assert_eq!(
        chat.process_assembled(Request::Content(ContentRequest::List), 3),
        Err(ProcessError::UnexpectedRequest)
    );
    assert_eq!(
        chat.process_assembled(Request::Chat(ChatRequest::Register(s("ann"), s("pw"))), 3),
        Ok((Response::Chat(ChatResponse::ClientList(s("ann"), vec![s("ann")])), 3))
    );
}

#[test]
fn error_response_carries_the_message() {
    assert_eq!(
        handle_error(ProcessError::FileSystem),
        Response::Content(ContentResponse::InternalServerError(s("Filesystem error")))
    );
    assert_eq!(
        handle_error(ProcessError::UnexpectedRequest),
        Response::Content(ContentResponse::InternalServerError(s("Unexpected request")))
    );
}

#[test]
fn chat_register_login_logout() {
    let mut chat = ChatBehavior::new();
    assert!(chat.get_client_list().is_empty());
    assert_eq!(chat.register(s("ann"), s("pw1"), 10), Ok(()));
    assert_eq!(chat.register(s("bob"), s("pw2"), 11), Ok(()));
    assert_eq!(chat.register(s("ann"), s("other"), 12), Err(RegisterError::AlreadyRegistered));
    assert_eq!(chat.get_client_list(), vec![s("ann"), s("bob")]);
    // a new client is logged in at once
    assert!(chat.is_auth(&s("ann"), 10));
    assert!(!chat.is_auth(&s("ann"), 11));
    assert!(!chat.is_auth(&s("zoe"), 10));
    assert_eq!(chat.login(&s("ann"), &s("pw1")), Err(LoginError::AlreadyLogged));
    assert_eq!(chat.login(&s("zoe"), &s("pw1")), Err(LoginError::NotRegistered));
    assert_eq!(chat.logout(&s("ann"), 11), Err(LogoutError::InvalidNodeId));
    assert_eq!(chat.logout(&s("zoe"), 10), Err(LogoutError::NotRegistered));
    assert_eq!(chat.logout(&s("ann"), 10), Ok(()));
    assert!(!chat.is_auth(&s("ann"), 10));
    assert!(chat.is_auth(&s("bob"), 11));
    assert_eq!(chat.logout(&s("ann"), 10), Err(LogoutError::NotLogged));
    assert_eq!(chat.login(&s("ann"), &s("bad")), Err(LoginError::WrongPassword));
    assert!(!chat.is_auth(&s("ann"), 10));
    assert_eq!(chat.login(&s("ann"), &s("pw1")), Ok(()));
    assert!(chat.is_auth(&s("ann"), 10));
    assert_eq!(chat.get_client_list(), vec![s("ann"), s("bob")]);
}

#[test]
fn chat_message_checks() {
    let mut chat = ChatBehavior::new();
    assert_eq!(chat.register(s("ann"), s("pw1"), 10), Ok(()));
    assert_eq!(chat.register(s("bob"), s("pw2"), 11), Ok(()));
    assert_eq!(chat.can_send_message(s("ann"), 10, s("bob")), Ok((11, s("ann"))));
    assert_eq!(
        chat.can_send_message(s("ann"), 11, s("bob")),
        Err(MessageError::SenderNotLogged(s("ann")))
    );
    assert_eq!(
        chat.can_send_message(s("zoe"), 10, s("bob")),
        Err(MessageError::SenderNotLogged(s("zoe")))
    );
    assert_eq!(
        chat.can_send_message(s("ann"), 10, s("zoe")),
        Err(MessageError::RecipientNotRegistered(s("zoe")))
    );
    assert_eq!(chat.logout(&s("bob"), 11), Ok(()));
    assert_eq!(
        chat.can_send_message(s("ann"), 10, s("bob")),
        Err(MessageError::RecipientNotLogged(s("bob")))
    );
    // a client may write to itself
    assert_eq!(chat.can_send_message(s("ann"), 10, s("ann")), Ok((10, s("ann"))));
}

#[test]
fn chat_requests_and_responses() {
    let mut chat = ChatBehavior::new();
    assert_eq!(
        chat.process_request(ChatRequest::Register(s("gean"), s("password1")), 71),
        (ChatResponse::ClientList(s("gean"), vec![s("gean")]), 71)
    );
    assert_eq!(
        chat.process_request(ChatRequest::Register(s("marco"), s("password2")), 73),
        (ChatResponse::ClientList(s("marco"), vec![s("gean"), s("marco")]), 73)
    );
    assert_eq!(
        chat.process_request(ChatRequest::Register(s("marco"), s("x")), 74),
        (ChatResponse::RegisterFailure(s("marco"), RegisterError::AlreadyRegistered), 74)
    );
    assert_eq!(
        chat.process_request(ChatRequest::ClientList(s("gean")), 71),
        (ChatResponse::ClientList(s("gean"), vec![s("gean"), s("marco")]), 71)
    );
    assert_eq!(
        chat.process_request(ChatRequest::ClientList(s("gean")), 73),
        (ChatResponse::ClientListFailure(s("gean"), ClientListError::NotLogged), 73)
    );
    // a message goes to the node of the recipient
    assert_eq!(
        chat.process_request(ChatRequest::Message(s("gean"), s("marco"), s("ciao come stai")), 71),
        (ChatResponse::Message(s("gean"), s("ciao come stai")), 73)
    );
    assert_eq!(
        chat.process_request(ChatRequest::Message(s("marco"), s("gean"), s("beneeeee")), 73),
        (ChatResponse::Message(s("marco"), s("beneeeee")), 71)
    );
    assert_eq!(
        chat.process_request(ChatRequest::Message(s("marco"), s("nobody"), s("hi")), 73),
        (
            ChatResponse::MessageFailure(MessageError::RecipientNotRegistered(s("nobody"))),
            73
        )
    );
    assert_eq!(
        chat.process_request(ChatRequest::Logout(s("gean")), 73),
        (ChatResponse::LogoutFailure(s("gean"), LogoutError::InvalidNodeId), 73)
    );
    assert_eq!(
        chat.process_request(ChatRequest::Logout(s("gean")), 71),
        (ChatResponse::LogoutSuccess(s("gean")), 71)
    );
    assert_eq!(
        chat.process_request(ChatRequest::Message(s("marco"), s("gean"), s("hi")), 73),
        (ChatResponse::MessageFailure(MessageError::RecipientNotLogged(s("gean"))), 73)
    );
    assert_eq!(
        chat.process_request(ChatRequest::Login(s("gean"), s("wrong")), 71),
        (ChatResponse::LoginFailure(s("gean"), LoginError::WrongPassword), 71)
    );
    assert_eq!(
        chat.process_request(ChatRequest::Login(s("gean"), s("password1")), 71),
        (ChatResponse::ClientList(s("gean"), vec![s("gean"), s("marco")]), 71)
    );
    assert_eq!(
        chat.process_request(ChatRequest::Login(s("gean"), s("password1")), 71),
        (ChatResponse::LoginFailure(s("gean"), LoginError::AlreadyLogged), 71)
    );
}

#[test]
fn behavior_is_chosen_by_the_server_type() {
    assert!(matches!(SpecializedBehavior::new(ServerType::Chat), SpecializedBehavior::Chat(_)));
    assert!(matches!(SpecializedBehavior::new(ServerType::ContentText), SpecializedBehavior::Text(_)));
    assert!(matches!(
        SpecializedBehavior::new(ServerType::ContentMedia),
        SpecializedBehavior::Media(_)
    ));
    assert!(!SpecializedBehavior::new(ServerType::Chat).serves_content());
    assert!(SpecializedBehavior::new(ServerType::ContentText).serves_content());
    assert!(SpecializedBehavior::new(ServerType::ContentMedia).serves_content());
    assert_eq!(SpecializedBehavior::new(ServerType::Chat).path(), None);
    assert_eq!(SpecializedBehavior::new(ServerType::ContentText).path(), Some(&PathBuf::new()));
}

#[test]
fn chat_server_rejects_a_content_path() {
    let mut chat = SpecializedBehavior::new(ServerType::Chat);
    assert!(matches!(chat.set_path(PathBuf::from("/tmp"), Ok(())), Err(SetPathError::WrongServerType)));
    let failure = io::Error::new(io::ErrorKind::NotFound, "gone");
    assert!(matches!(
        chat.set_path(PathBuf::from("/tmp"), Err(failure)),
        Err(SetPathError::WrongServerType)
    ));
    assert_eq!(chat.path(), None);
}

#[test]
fn content_server_takes_a_listed_path() {
    for server_type in [ServerType::ContentText, ServerType::ContentMedia] {
        let mut server = SpecializedBehavior::new(server_type);
        assert!(server.set_path(PathBuf::from("/srv"), Ok(())).is_ok());
        assert_eq!(server.path(), Some(&PathBuf::from("/srv")));
        let failure = io::Error::new(io::ErrorKind::NotFound, "gone");
        assert!(matches!(
            server.set_path(PathBuf::from("/nowhere"), Err(failure)),
            Err(SetPathError::FileSystem(_))
        ));
        assert_eq!(server.path(), Some(&PathBuf::from("/srv")));
    }
}

#[test]
fn requests_are_dispatched_by_behavior() {
    let mut chat = SpecializedBehavior::new(ServerType::Chat);
    match chat.process_assembled(Request::Chat(ChatRequest::Register(s("ann"), s("pw"))), 5) {
        Ok(BehaviorStep::Reply(response, dest)) => {
            assert_eq!(response, Response::Chat(ChatResponse::ClientList(s("ann"), vec![s("ann")])));
            assert_eq!(dest, 5);
        }
        other => panic!("unexpected step {:?}", other),
    }
    assert!(matches!(
        chat.process_assembled(Request::Content(ContentRequest::List), 5),
        Err(ProcessError::UnexpectedRequest)
    ));

    let mut text = SpecializedBehavior::new(ServerType::ContentText);
    assert!(matches!(
        text.process_assembled(Request::Chat(ChatRequest::Logout(s("ann"))), 5),
        Err(ProcessError::UnexpectedRequest)
    ));
    assert!(matches!(
        text.process_assembled(Request::Content(ContentRequest::List), 5),
        Ok(BehaviorStep::ListDirectory)
    ));
    match text.process_assembled(Request::Content(ContentRequest::Content(s("a.rrml"))), 5) {
        Ok(BehaviorStep::ReadFile(name)) => assert_eq!(name, "a.rrml"),
        other => panic!("unexpected step {:?}", other),
    }
    match text.process_assembled(Request::Content(ContentRequest::Content(s("a.jpg"))), 5) {
        Ok(BehaviorStep::Reply(response, dest)) => {
            assert_eq!(response, Response::Content(ContentResponse::ContentNotFound(s("a.jpg"))));
            assert_eq!(dest, 5);
        }
        other => panic!("unexpected step {:?}", other),
    }
    assert_eq!(
        text.list(vec![s("a.jpg"), s("b.txt")]),
        Response::Content(ContentResponse::List(vec![s("b.txt")]))
    );
    assert_eq!(
        text.content(s("b.txt"), Some(vec![7])),
        Response::Content(ContentResponse::Content(s("b.txt"), ContentType::Text, vec![7]))
    );

    let mut media = SpecializedBehavior::new(ServerType::ContentMedia);
    match media.process_assembled(Request::Content(ContentRequest::Content(s("a.jpg"))), 5) {
        Ok(BehaviorStep::ReadFile(name)) => assert_eq!(name, "a.jpg"),
        other => panic!("unexpected step {:?}", other),
    }
    assert_eq!(
        media.list(vec![s("a.jpg"), s("b.txt")]),
        Response::Content(ContentResponse::List(vec![s("a.jpg"), s("b.txt")]))
    );
    assert_eq!(
        media.content(s("a.jpg"), Some(vec![7])),
        Response::Content(ContentResponse::Content(s("a.jpg"), ContentType::Image, vec![7]))
    );
    assert_eq!(
        media.content(s("a.jpg"), None),
        Response::Content(ContentResponse::ContentNotFound(s("a.jpg")))
    );
    // a chat server has nothing to list
    assert_eq!(
        chat.list(vec![s("a.txt")]),
        Response::Content(ContentResponse::InternalServerError(s("Unexpected request")))
    );
    assert_eq!(
        chat.content(s("a.txt"), Some(vec![1])),
        Response::Content(ContentResponse::InternalServerError(s("Unexpected request")))
    );
}

#[test]
fn events_for_the_controller() {
    assert!(set_path_event(Ok(())).is_none());
    assert!(matches!(
        set_path_event(Err(SetPathError::WrongServerType)),
        Some(ServerEvent::UnexpectedCommand)
    ));
    let failure = io::Error::new(io::ErrorKind::NotFound, "gone");
    match set_path_event(Err(SetPathError::FileSystem(failure))) {
        Some(ServerEvent::MediaPathError(error)) => assert_eq!(error.kind(), io::ErrorKind::NotFound),
        other => panic!("unexpected event {:?}", other),
    }
    let packet = Packet {
        routing_header: SourceRoutingHeader { hop_index: 1, hops: vec![1, 2] },
        session_id: 3,
        pack_type: PacketType::Ack(Ack { fragment_index: 4 }),
    };
    match packet_sent_event(packet.clone(), true) {
        Some(ServerEvent::PacketSent(sent)) => assert_eq!(sent, packet),
        other => panic!("unexpected event {:?}", other),
    }
    assert!(packet_sent_event(packet, false).is_none());
}
