//! What the transport core and an application behaviour hand to each other,
//! and what can go wrong in a behaviour.

use crate::api::{
    texts, ContentName, ContentResponse, ContentResponseView, ContentType, Request, RequestView,
    Response, ResponseView,
};
use crate::chat_behavior::{after_request, response_to, ChatBehavior};
use crate::media_behavior::MediaBehavior;
use crate::packet::NodeId;
use crate::text_behavior::{supported, supported_among, ContentPlan, TextBehavior};
use std::io;
use std::path::PathBuf;
use vstd::prelude::*;

verus! {

/// `std::io::Error`, carried through unread.
#[verifier::external_type_specification]
#[verifier::external_body]
pub struct ExIoError(io::Error);

/// `std::path::PathBuf`, carried through unread.
#[verifier::external_type_specification]
#[verifier::external_body]
pub struct ExPathBuf(PathBuf);

/// The bytes that a path holds, in the encoding of the platform.
pub uninterp spec fn path_bytes(path: PathBuf) -> Seq<u8>;

/// `PathBuf::new`, which its documentation says allocates an empty path:
/// the path returned holds no bytes.
#[verifier::external_body]
pub(crate) fn empty_path() -> (path: PathBuf)
    ensures
        path_bytes(path) == Seq::<u8>::empty(),
{
    PathBuf::new()
}

/// A serialized response and the node it is meant for.
#[derive(Debug, Clone, PartialEq, Eq)]
pub struct AssembledResponse {
    pub data: Vec<u8>,
    pub dest: NodeId,
}

/// Why a content directory was not taken.
#[derive(Debug)]
pub enum SetPathError {
    WrongServerType,
    FileSystem(io::Error),
}

/// Why a request got no regular response.
#[derive(Debug, Clone, Copy, PartialEq, Eq, Structural)]
pub enum ProcessError {
    UnexpectedRequest,
    Deserialize,
    Serialize,
    FileSystem,
}

impl ProcessError {
    /// What the requester is told of the error.
    pub open spec fn message_spec(self) -> Seq<char> {
        match self {
            ProcessError::UnexpectedRequest => "Unexpected request"@,
            ProcessError::Deserialize => "Deserialization error"@,
            ProcessError::Serialize => "Serialization error"@,
            ProcessError::FileSystem => "Filesystem error"@,
        }
    }

    /// What the requester is told of the error.
    pub fn message(&self) -> (text: &'static str)
        ensures
            text@ == self.message_spec(),
    {
        match self {
            ProcessError::UnexpectedRequest => "Unexpected request",
            ProcessError::Deserialize => "Deserialization error",
            ProcessError::Serialize => "Serialization error",
            ProcessError::FileSystem => "Filesystem error",
        }
    }
}

/// The response that tells the requester of an error.
pub fn handle_error(err: ProcessError) -> (response: Response)
    ensures
        response@ == ResponseView::Content(
            ContentResponseView::InternalServerError(err.message_spec()),
        ),
{
    let error_message = err.message().to_owned();
    Response::Content(ContentResponse::InternalServerError(error_message))
}

/// The outcome of taking a content directory whose listing was tried: the
/// directory is taken when the listing worked, and the failure of the
/// listing is handed on when it did not.
pub fn checked_path(path: PathBuf, listing: Result<(), io::Error>) -> (result: Result<
    PathBuf,
    SetPathError,
>)
    ensures
        match listing {
            Ok(_) => result == Ok::<PathBuf, SetPathError>(path),
            Err(error) => result == Err::<PathBuf, SetPathError>(SetPathError::FileSystem(error)),
        },
{
    match listing {
        Ok(_) => Ok(path),
        Err(error) => Err(SetPathError::FileSystem(error)),
    }
}

/// What a server is made to be.
#[derive(Debug, Clone, Copy, PartialEq, Eq, Structural)]
pub enum ServerType {
    Chat,
    ContentText,
    ContentMedia,
}

/// What is to be done next for a request.
#[derive(Debug)]
pub enum BehaviorStep {
    /// Send this response to this node.
    Reply(Response, NodeId),
    /// List the content directory and hand the names to `list`.
    ListDirectory,
    /// Look for the file of this name in the content directory and hand
    /// what was found to `content`.
    ReadFile(ContentName),
}

/// A step as mathematics.
pub enum BehaviorStepView {
    Reply(ResponseView, NodeId),
    ListDirectory,
    ReadFile(Seq<char>),
}

impl View for BehaviorStep {
    type V = BehaviorStepView;

    open spec fn view(&self) -> BehaviorStepView {
        match *self {
            BehaviorStep::Reply(response, dest) => BehaviorStepView::Reply(response@, dest),
            BehaviorStep::ListDirectory => BehaviorStepView::ListDirectory,
            BehaviorStep::ReadFile(name) => BehaviorStepView::ReadFile(name@),
        }
    }
}

/// The one behaviour of a server: a chat registry, or a directory of
/// text files, or a directory of media files.
pub enum SpecializedBehavior {
    Chat(ChatBehavior),
    Text(TextBehavior),
    Media(MediaBehavior),
}

impl SpecializedBehavior {
    /// The parts are well formed.
    pub open spec fn wf(&self) -> bool {
        *self matches SpecializedBehavior::Chat(chat) ==> chat.wf()
    }

    /// The kind of server that the behaviour makes.
    pub open spec fn server_type(&self) -> ServerType {
        match *self {
            SpecializedBehavior::Chat(_) => ServerType::Chat,
            SpecializedBehavior::Text(_) => ServerType::ContentText,
            SpecializedBehavior::Media(_) => ServerType::ContentMedia,
        }
    }

    /// The behaviour of a new server of the given kind: an empty registry,
    /// or an empty path as content directory.
    pub fn new(server_type: ServerType) -> (behavior: SpecializedBehavior)
        ensures
            behavior.wf(),
            behavior.server_type() == server_type,
            match behavior {
                SpecializedBehavior::Chat(chat) => chat@.len() == 0,
                SpecializedBehavior::Text(text) => path_bytes(text.directory())
                    == Seq::<u8>::empty(),
                SpecializedBehavior::Media(media) => path_bytes(media.directory())
                    == Seq::<u8>::empty(),
            },
    {
        match server_type {
            ServerType::Chat => SpecializedBehavior::Chat(ChatBehavior::new()),
            ServerType::ContentText => SpecializedBehavior::Text(TextBehavior::new()),
            ServerType::ContentMedia => SpecializedBehavior::Media(MediaBehavior::new()),
        }
    }

    /// Whether the server serves the files of a directory.
    pub fn serves_content(&self) -> (yes: bool)
        ensures
            yes == (self.server_type() != ServerType::Chat),
    {
        match self {
            SpecializedBehavior::Chat(_) => false,
            _ => true,
        }
    }

    /// Takes `path` as content directory. A chat server refuses. A content
    /// server takes it if `listing`, the outcome of the caller's attempt
    /// to list it, is a success, and hands on the failure if not.
    pub fn set_path(&mut self, path: PathBuf, listing: Result<(), io::Error>) -> (result: Result<
        (),
        SetPathError,
    >)
        requires
            old(self).wf(),
        ensures
            final(self).wf(),
            final(self).server_type() == old(self).server_type(),
            match (*old(self), *final(self)) {
                (SpecializedBehavior::Chat(before), SpecializedBehavior::Chat(after)) => {
                    &&& result == Err::<(), SetPathError>(SetPathError::WrongServerType)
                    &&& after@ == before@
                },
                (SpecializedBehavior::Text(before), SpecializedBehavior::Text(after)) => match listing {
                    Ok(_) => result == Ok::<(), SetPathError>(()) && after.directory() == path,
                    Err(error) => result == Err::<(), SetPathError>(SetPathError::FileSystem(error))
                        && after.directory() == before.directory(),
                },
                (
                    SpecializedBehavior::Media(before),
                    SpecializedBehavior::Media(after),
                ) => match listing {
                    Ok(_) => result == Ok::<(), SetPathError>(()) && after.directory() == path,
                    Err(error) => result == Err::<(), SetPathError>(SetPathError::FileSystem(error))
                        && after.directory() == before.directory(),
                },
                _ => false,
            },
    {
        match self {
            SpecializedBehavior::Chat(chat) => chat.set_path(path),
            SpecializedBehavior::Text(text) => text.set_path(path, listing),
            SpecializedBehavior::Media(media) => media.set_path(path, listing),
        }
    }

    /// The content directory of a content server.
    pub fn path(&self) -> (path: Option<&PathBuf>)
        ensures
            match *self {
                SpecializedBehavior::Chat(_) => path is None,
                SpecializedBehavior::Text(text) => path == Some(&text.directory()),
                SpecializedBehavior::Media(media) => path == Some(&media.directory()),
            },
    {
        match self {
            SpecializedBehavior::Chat(_) => None,
            SpecializedBehavior::Text(text) => Some(text.path()),
            SpecializedBehavior::Media(media) => Some(media.path()),
        }
    }

    /// Takes up a request that came from node `initiator_id`. A chat
    /// server answers chat requests at once; a content server has the
    /// directory listed or a file looked for, or answers at once that a
    /// file is not served. A request of the other kind is refused.
    pub fn process_assembled(&mut self, assembled: Request, initiator_id: NodeId) -> (result: Result<
        BehaviorStep,
        ProcessError,
    >)
        requires
            old(self).wf(),
        ensures
            final(self).wf(),
            final(self).server_type() == old(self).server_type(),
            match (*old(self), *final(self), assembled@) {
                (
                    SpecializedBehavior::Chat(before),
                    SpecializedBehavior::Chat(after),
                    RequestView::Chat(request),
                ) => {
                    &&& after@ == after_request(before@, request, initiator_id)
                    &&& result is Ok
                    &&& result->Ok_0@ == BehaviorStepView::Reply(
                        ResponseView::Chat(response_to(before@, request, initiator_id).0),
                        response_to(before@, request, initiator_id).1,
                    )
                },
                (
                    SpecializedBehavior::Chat(before),
                    SpecializedBehavior::Chat(after),
                    RequestView::Content(_),
                ) => {
                    &&& after@ == before@
                    &&& result == Err::<BehaviorStep, ProcessError>(ProcessError::UnexpectedRequest)
                },
                (SpecializedBehavior::Text(before), SpecializedBehavior::Text(after), request) => {
                    &&& after.directory() == before.directory()
                    &&& match request {
                        RequestView::Chat(_) => result == Err::<BehaviorStep, ProcessError>(
                            ProcessError::UnexpectedRequest,
                        ),
                        RequestView::Content(None) => result is Ok && result->Ok_0@
                            == BehaviorStepView::ListDirectory,
                        RequestView::Content(Some(name)) => result is Ok && result->Ok_0@
                            == if supported(name) {
                            BehaviorStepView::ReadFile(name)
                        } else {
                            BehaviorStepView::Reply(
                                ResponseView::Content(ContentResponseView::ContentNotFound(name)),
                                initiator_id,
                            )
                        },
                    }
                },
                (SpecializedBehavior::Media(before), SpecializedBehavior::Media(after), request) => {
                    &&& after.directory() == before.directory()
                    &&& match request {
                        RequestView::Chat(_) => result == Err::<BehaviorStep, ProcessError>(
                            ProcessError::UnexpectedRequest,
                        ),
                        RequestView::Content(None) => result is Ok && result->Ok_0@
                            == BehaviorStepView::ListDirectory,
                        RequestView::Content(Some(name)) => result is Ok && result->Ok_0@
                            == BehaviorStepView::ReadFile(name),
                    }
                },
                _ => false,
            },
    {
        match self {
            SpecializedBehavior::Chat(chat) => {
                match chat.process_assembled(assembled, initiator_id) {
                    Ok((response, dest)) => Ok(BehaviorStep::Reply(response, dest)),
                    Err(err) => Err(err),
                }
            },
            SpecializedBehavior::Text(text) => {
                match text.plan(assembled) {
                    Ok(plan) => Ok(step_of(plan, initiator_id)),
                    Err(err) => Err(err),
                }
            },
            SpecializedBehavior::Media(media) => {
                match media.plan(assembled) {
                    Ok(plan) => Ok(step_of(plan, initiator_id)),
                    Err(err) => Err(err),
                }
            },
        }
    }

    /// The response to a list request, from the names found in the
    /// content directory: a text server lists those that it serves, a
    /// media server all. A chat server, which lists nothing, answers with
    /// an error.
    pub fn list(&self, names: Vec<String>) -> (response: Response)
        ensures
            response@ == match *self {
                SpecializedBehavior::Chat(_) => ResponseView::Content(
                    ContentResponseView::InternalServerError(
                        ProcessError::UnexpectedRequest.message_spec(),
                    ),
                ),
                SpecializedBehavior::Text(_) => ResponseView::Content(
                    ContentResponseView::List(supported_among(names@, names@.len() as int)),
                ),
                SpecializedBehavior::Media(_) => ResponseView::Content(
                    ContentResponseView::List(texts(names@)),
                ),
            },
    {
        match self {
            SpecializedBehavior::Chat(_) => handle_error(ProcessError::UnexpectedRequest),
            SpecializedBehavior::Text(text) => Response::Content(text.list(names)),
            SpecializedBehavior::Media(media) => Response::Content(media.list(names)),
        }
    }

    /// The response to a request for the file `content_name`, from what
    /// the caller found: the bytes of the file, as text from a text server
    /// and as an image from a media server, or word that the file is not
    /// found. A chat server, which has no files, answers with an error.
    pub fn content(&self, content_name: ContentName, file: Option<Vec<u8>>) -> (response: Response)
        ensures
            response@ == match *self {
                SpecializedBehavior::Chat(_) => ResponseView::Content(
                    ContentResponseView::InternalServerError(
                        ProcessError::UnexpectedRequest.message_spec(),
                    ),
                ),
                SpecializedBehavior::Text(_) => ResponseView::Content(
                    match file {
                        Some(data) if supported(content_name@) => ContentResponseView::Content(
                            content_name@,
                            ContentType::Text,
                            data@,
                        ),
                        _ => ContentResponseView::ContentNotFound(content_name@),
                    },
                ),
                SpecializedBehavior::Media(_) => ResponseView::Content(
                    match file {
                        Some(data) => ContentResponseView::Content(
                            content_name@,
                            ContentType::Image,
                            data@,
                        ),
                        None => ContentResponseView::ContentNotFound(content_name@),
                    },
                ),
            },
    {
        match self {
            SpecializedBehavior::Chat(_) => handle_error(ProcessError::UnexpectedRequest),
            SpecializedBehavior::Text(text) => Response::Content(text.content(content_name, file)),
            SpecializedBehavior::Media(media) => Response::Content(
                media.content(content_name, file),
            ),
        }
    }
}

/// The step that carries out a plan for a request from node `initiator_id`.
fn step_of(plan: ContentPlan, initiator_id: NodeId) -> (step: BehaviorStep)
    ensures
        step@ == match plan {
            ContentPlan::ListDirectory => BehaviorStepView::ListDirectory,
            ContentPlan::ReadFile(name) => BehaviorStepView::ReadFile(name@),
            ContentPlan::Reply(response) => BehaviorStepView::Reply(
                ResponseView::Content(response@),
                initiator_id,
            ),
        },
{
    match plan {
        ContentPlan::ListDirectory => BehaviorStep::ListDirectory,
        ContentPlan::ReadFile(name) => BehaviorStep::ReadFile(name),
        ContentPlan::Reply(response) => BehaviorStep::Reply(
            Response::Content(response),
            initiator_id,
        ),
    }
}

} // verus!
