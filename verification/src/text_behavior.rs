//! The decisions of a server of text files. Reading the directory and the
//! files is left to the caller.

use crate::api::{
    texts, ContentName, ContentRequest, ContentResponse, ContentResponseView, ContentType, Request,
};
use crate::specialized_behavior::{checked_path, empty_path, path_bytes, ProcessError, SetPathError};
use std::io;
use std::path::PathBuf;
use vstd::prelude::*;

verus! {

/// Whether `text` ends with `suffix`.
pub open spec fn is_suffix(suffix: Seq<char>, text: Seq<char>) -> bool {
    suffix.len() <= text.len() && text.subrange(text.len() - suffix.len(), text.len() as int)
        == suffix
}

/// Whether a file of this name is served as text: its name ends in `.rrml`
/// or in `.txt`.
pub open spec fn supported(name: Seq<char>) -> bool {
    is_suffix(".rrml"@, name) || is_suffix(".txt"@, name)
}

/// `str::ends_with` with a string as pattern: whether the pattern matches
/// a suffix of the text.
#[verifier::external_body]
pub(crate) fn ends_with(text: &str, suffix: &str) -> (found: bool)
    ensures
        found == is_suffix(suffix@, text@),
{
    text.ends_with(suffix)
}

/// Whether a file of this name is served as text.
pub fn is_supported(file_name: &String) -> (yes: bool)
    ensures
        yes == supported(file_name@),
{
    ends_with(file_name.as_str(), ".rrml") || ends_with(file_name.as_str(), ".txt")
}

/// The texts of the first `n` of `names` that are served as text, in order.
pub open spec fn supported_among(names: Seq<String>, n: int) -> Seq<Seq<char>>
    decreases n,
{
    if n <= 0 {
        Seq::empty()
    } else if supported(names[n - 1]@) {
        supported_among(names, n - 1).push(names[n - 1]@)
    } else {
        supported_among(names, n - 1)
    }
}

/// What the caller has to do for a content request before the response can
/// be made.
#[derive(Debug)]
pub enum ContentPlan {
    /// List the content directory and hand the names to `list`.
    ListDirectory,
    /// Look for the file of this name in the content directory and hand
    /// what was found to `content`.
    ReadFile(ContentName),
    /// Nothing: this is the response.
    Reply(ContentResponse),
}

/// A plan as mathematics.
pub enum ContentPlanView {
    ListDirectory,
    ReadFile(Seq<char>),
    Reply(ContentResponseView),
}

impl View for ContentPlan {
    type V = ContentPlanView;

    open spec fn view(&self) -> ContentPlanView {
        match *self {
            ContentPlan::ListDirectory => ContentPlanView::ListDirectory,
            ContentPlan::ReadFile(name) => ContentPlanView::ReadFile(name@),
            ContentPlan::Reply(response) => ContentPlanView::Reply(response@),
        }
    }
}

/// A server of the text files of one directory.
pub struct TextBehavior {
    path: PathBuf,
}

impl TextBehavior {
    /// The content directory.
    pub closed spec fn directory(&self) -> PathBuf {
        self.path
    }

    /// A behaviour with an empty path as content directory.
    pub fn new() -> (behavior: TextBehavior)
        ensures
            path_bytes(behavior.directory()) == Seq::<u8>::empty(),
    {
        Self { path: empty_path() }
    }

    /// The content directory.
    pub fn path(&self) -> (path: &PathBuf)
        ensures
            *path == self.directory(),
    {
        &self.path
    }

    /// Takes `path` as content directory if `listing`, the outcome of the
    /// caller's attempt to list it, is a success; keeps the old one and
    /// reports the failure if not.
    pub fn set_path(&mut self, path: PathBuf, listing: Result<(), io::Error>) -> (result: Result<
        (),
        SetPathError,
    >)
        ensures
            match listing {
                Ok(_) => result == Ok::<(), SetPathError>(()) && final(self).directory() == path,
                Err(error) => result == Err::<(), SetPathError>(SetPathError::FileSystem(error))
                    && final(self).directory() == old(self).directory(),
            },
    {
        match checked_path(path, listing) {
            Ok(path) => {
                self.path = path;
                Ok(())
            },
            Err(error) => Err(error),
        }
    }

    /// What to do for a request: refuse what is no content request; have
    /// the directory listed for a list; have the file looked for if its
    /// name is served as text, and answer that it is not found if not.
    pub fn plan(&self, request: Request) -> (result: Result<ContentPlan, ProcessError>)
        ensures
            match request {
                Request::Chat(_) => result == Err::<ContentPlan, ProcessError>(
                    ProcessError::UnexpectedRequest,
                ),
                Request::Content(ContentRequest::List) => result is Ok && result->Ok_0@
                    == ContentPlanView::ListDirectory,
                Request::Content(ContentRequest::Content(name)) => result is Ok && result->Ok_0@
                    == if supported(name@) {
                    ContentPlanView::ReadFile(name@)
                } else {
                    ContentPlanView::Reply(ContentResponseView::ContentNotFound(name@))
                },
            },
    {
        match request {
            Request::Content(ContentRequest::List) => Ok(ContentPlan::ListDirectory),
            Request::Content(ContentRequest::Content(content_name)) => {
                if is_supported(&content_name) {
                    Ok(ContentPlan::ReadFile(content_name))
                } else {
                    Ok(ContentPlan::Reply(ContentResponse::ContentNotFound(content_name)))
                }
            },
            Request::Chat(_) => Err(ProcessError::UnexpectedRequest),
        }
    }

    /// The response to a list request, from the names found in the content
    /// directory: those that are served as text, in the order given.
    pub fn list(&self, names: Vec<String>) -> (response: ContentResponse)
        ensures
            response@ == ContentResponseView::List(supported_among(names@, names@.len() as int)),
    {
        let mut content_names: Vec<ContentName> = Vec::new();
        let mut i: usize = 0;
        while i < names.len()
            invariant
                i <= names@.len(),
                texts(content_names@) == supported_among(names@, i as int),
            decreases names@.len() - i,
        {
            if is_supported(&names[i]) {
                let ghost before = content_names@;
                content_names.push(names[i].clone());
                proof {
                    assert(texts(content_names@) =~= texts(before).push(names@[i as int]@));
                }
            }
            i += 1;
        }
        ContentResponse::List(content_names)
    }

    /// The response to a request for the file `content_name`, from what
    /// the caller found: the bytes of the file as text, or word that it is
    /// not found when there is no such file or its name is not served.
    pub fn content(&self, content_name: ContentName, file: Option<Vec<u8>>) -> (response:
        ContentResponse)
        ensures
            response@ == match file {
                Some(data) if supported(content_name@) => ContentResponseView::Content(
                    content_name@,
                    ContentType::Text,
                    data@,
                ),
                _ => ContentResponseView::ContentNotFound(content_name@),
            },
    {
        match file {
            Some(content_data) => {
                if is_supported(&content_name) {
                    ContentResponse::Content(content_name, ContentType::Text, content_data)
                } else {
                    ContentResponse::ContentNotFound(content_name)
                }
            },
            None => ContentResponse::ContentNotFound(content_name),
        }
    }
}

} // verus!
