//! The requests that clients make of a server and the responses they get,
//! as plain data.

use vstd::prelude::*;

verus! {

pub type UserName = String;

pub type Password = String;

pub type ContentName = String;

pub type Message = String;

/// What a piece of content is.
#[derive(Debug, Clone, Copy, PartialEq, Eq, Structural)]
pub enum ContentType {
    Text,
    Image,
}

/// A request to a content server.
#[derive(Debug, Clone, PartialEq, Eq)]
pub enum ContentRequest {
    List,
    Content(ContentName),
}

/// A response of a content server.
#[derive(Debug, Clone, PartialEq, Eq)]
pub enum ContentResponse {
    List(Vec<ContentName>),
    Content(ContentName, ContentType, Vec<u8>),
    ContentNotFound(ContentName),
    InternalServerError(String),
}

#[derive(Debug, Clone, Copy, PartialEq, Eq, Structural)]
pub enum ClientListError {
    NotLogged,
}

#[derive(Debug, Clone, Copy, PartialEq, Eq, Structural)]
pub enum RegisterError {
    AlreadyRegistered,
}

#[derive(Debug, Clone, Copy, PartialEq, Eq, Structural)]
pub enum LoginError {
    AlreadyLogged,
    WrongPassword,
    NotRegistered,
}

#[derive(Debug, Clone, Copy, PartialEq, Eq, Structural)]
pub enum LogoutError {
    NotLogged,
    InvalidNodeId,
    NotRegistered,
}

#[derive(Debug, Clone, PartialEq, Eq)]
pub enum MessageError {
    SenderNotLogged(UserName),
    RecipientNotLogged(UserName),
    RecipientNotRegistered(UserName),
}

/// A request to a chat server.
#[derive(Debug, Clone, PartialEq, Eq)]
pub enum ChatRequest {
    ClientList(UserName),
    Message(UserName, UserName, Message),
    Register(UserName, Password),
    Login(UserName, Password),
    Logout(UserName),
}

/// A response of a chat server.
#[derive(Debug, Clone, PartialEq, Eq)]
pub enum ChatResponse {
    ClientList(UserName, Vec<UserName>),
    ClientListFailure(UserName, ClientListError),
    Message(UserName, Message),
    MessageFailure(MessageError),
    RegisterFailure(UserName, RegisterError),
    LoginFailure(UserName, LoginError),
    LogoutSuccess(UserName),
    LogoutFailure(UserName, LogoutError),
    InternalServerError(String),
}

/// A request to a server.
#[derive(Debug, Clone, PartialEq, Eq)]
pub enum Request {
    Chat(ChatRequest),
    Content(ContentRequest),
}

/// A response of a server.
#[derive(Debug, Clone, PartialEq, Eq)]
pub enum Response {
    Chat(ChatResponse),
    Content(ContentResponse),
}

/// The texts of a list of strings.
pub open spec fn texts(names: Seq<String>) -> Seq<Seq<char>> {
    Seq::new(names.len(), |i: int| names[i]@)
}

/// A content response as mathematics.
pub enum ContentResponseView {
    List(Seq<Seq<char>>),
    Content(Seq<char>, ContentType, Seq<u8>),
    ContentNotFound(Seq<char>),
    InternalServerError(Seq<char>),
}

impl View for ContentResponse {
    type V = ContentResponseView;

    open spec fn view(&self) -> ContentResponseView {
        match *self {
            ContentResponse::List(names) => ContentResponseView::List(texts(names@)),
            ContentResponse::Content(name, kind, data) => ContentResponseView::Content(
                name@,
                kind,
                data@,
            ),
            ContentResponse::ContentNotFound(name) => ContentResponseView::ContentNotFound(name@),
            ContentResponse::InternalServerError(text) => ContentResponseView::InternalServerError(
                text@,
            ),
        }
    }
}

/// A message failure as mathematics.
pub enum MessageErrorView {
    SenderNotLogged(Seq<char>),
    RecipientNotLogged(Seq<char>),
    RecipientNotRegistered(Seq<char>),
}

impl View for MessageError {
    type V = MessageErrorView;

    open spec fn view(&self) -> MessageErrorView {
        match *self {
            MessageError::SenderNotLogged(name) => MessageErrorView::SenderNotLogged(name@),
            MessageError::RecipientNotLogged(name) => MessageErrorView::RecipientNotLogged(name@),
            MessageError::RecipientNotRegistered(name) => MessageErrorView::RecipientNotRegistered(
                name@,
            ),
        }
    }
}

/// A chat request as mathematics.
pub enum ChatRequestView {
    ClientList(Seq<char>),
    Message(Seq<char>, Seq<char>, Seq<char>),
    Register(Seq<char>, Seq<char>),
    Login(Seq<char>, Seq<char>),
    Logout(Seq<char>),
}

impl View for ChatRequest {
    type V = ChatRequestView;

    open spec fn view(&self) -> ChatRequestView {
        match *self {
            ChatRequest::ClientList(name) => ChatRequestView::ClientList(name@),
            ChatRequest::Message(sender, recipient, text) => ChatRequestView::Message(
                sender@,
                recipient@,
                text@,
            ),
            ChatRequest::Register(name, password) => ChatRequestView::Register(name@, password@),
            ChatRequest::Login(name, password) => ChatRequestView::Login(name@, password@),
            ChatRequest::Logout(name) => ChatRequestView::Logout(name@),
        }
    }
}

/// A chat response as mathematics.
pub enum ChatResponseView {
    ClientList(Seq<char>, Seq<Seq<char>>),
    ClientListFailure(Seq<char>, ClientListError),
    Message(Seq<char>, Seq<char>),
    MessageFailure(MessageErrorView),
    RegisterFailure(Seq<char>, RegisterError),
    LoginFailure(Seq<char>, LoginError),
    LogoutSuccess(Seq<char>),
    LogoutFailure(Seq<char>, LogoutError),
    InternalServerError(Seq<char>),
}

impl View for ChatResponse {
    type V = ChatResponseView;

    open spec fn view(&self) -> ChatResponseView {
        match *self {
            ChatResponse::ClientList(name, names) => ChatResponseView::ClientList(
                name@,
                texts(names@),
            ),
            ChatResponse::ClientListFailure(name, error) => ChatResponseView::ClientListFailure(
                name@,
                error,
            ),
            ChatResponse::Message(sender, text) => ChatResponseView::Message(sender@, text@),
            ChatResponse::MessageFailure(error) => ChatResponseView::MessageFailure(error@),
            ChatResponse::RegisterFailure(name, error) => ChatResponseView::RegisterFailure(
                name@,
                error,
            ),
            ChatResponse::LoginFailure(name, error) => ChatResponseView::LoginFailure(name@, error),
            ChatResponse::LogoutSuccess(name) => ChatResponseView::LogoutSuccess(name@),
            ChatResponse::LogoutFailure(name, error) => ChatResponseView::LogoutFailure(
                name@,
                error,
            ),
            ChatResponse::InternalServerError(text) => ChatResponseView::InternalServerError(text@),
        }
    }
}

/// A response of a server as mathematics.
pub enum ResponseView {
    Chat(ChatResponseView),
    Content(ContentResponseView),
}

impl View for Response {
    type V = ResponseView;

    open spec fn view(&self) -> ResponseView {
        match *self {
            Response::Chat(response) => ResponseView::Chat(response@),
            Response::Content(response) => ResponseView::Content(response@),
        }
    }
}

impl View for ContentRequest {
    type V = Option<Seq<char>>;

    /// The name of the content asked for, or nothing for a list.
    open spec fn view(&self) -> Option<Seq<char>> {
        match *self {
            ContentRequest::List => None,
            ContentRequest::Content(name) => Some(name@),
        }
    }
}

/// A request to a server as mathematics.
pub enum RequestView {
    Chat(ChatRequestView),
    Content(Option<Seq<char>>),
}

impl View for Request {
    type V = RequestView;

    open spec fn view(&self) -> RequestView {
        match *self {
            Request::Chat(request) => RequestView::Chat(request@),
            Request::Content(request) => RequestView::Content(request@),
        }
    }
}

} // verus!
