//! The decisions of a server of media files. Reading the directory and the
//! files is left to the caller.

use crate::api::{
    texts, ContentName, ContentRequest, ContentResponse, ContentResponseView, ContentType, Request,
};
use crate::specialized_behavior::{checked_path, empty_path, path_bytes, ProcessError, SetPathError};
use crate::text_behavior::{ContentPlan, ContentPlanView};
use std::io;
use std::path::PathBuf;
use vstd::prelude::*;

verus! {

/// A server of the files of one directory, all taken as images.
pub struct MediaBehavior {
    path: PathBuf,
}

impl MediaBehavior {
    /// The content directory.
    pub closed spec fn directory(&self) -> PathBuf {
        self.path
    }

    /// A behaviour with an empty path as content directory.
    pub fn new() -> (behavior: MediaBehavior)
        ensures
            path_bytes(behavior.directory()) == Seq::<u8>::empty(),
    {
        Self { path: empty_path() }
    }

    /// The content directory.
    pub fn path(&self) -> (path: &PathBuf)
        ensures
            *path == self.directory(),
    {
        &self.path
    }

    /// Takes `path` as content directory if `listing`, the outcome of the
    /// caller's attempt to list it, is a success; keeps the old one and
    /// reports the failure if not.
    pub fn set_path(&mut self, path: PathBuf, listing: Result<(), io::Error>) -> (result: Result<
        (),
        SetPathError,
    >)
        ensures
            match listing {
                Ok(_) => result == Ok::<(), SetPathError>(()) && final(self).directory() == path,
                Err(error) => result == Err::<(), SetPathError>(SetPathError::FileSystem(error))
                    && final(self).directory() == old(self).directory(),
            },
    {
        match checked_path(path, listing) {
            Ok(path) => {
                self.path = path;
                Ok(())
            },
            Err(error) => Err(error),
        }
    }

    /// What to do for a request: refuse what is no content request; have
    /// the directory listed for a list; have the file looked for
    /// otherwise.
    pub fn plan(&self, request: Request) -> (result: Result<ContentPlan, ProcessError>)
        ensures
            match request {
                Request::Chat(_) => result == Err::<ContentPlan, ProcessError>(
                    ProcessError::UnexpectedRequest,
                ),
                Request::Content(ContentRequest::List) => result is Ok && result->Ok_0@
                    == ContentPlanView::ListDirectory,
                Request::Content(ContentRequest::Content(name)) => result is Ok && result->Ok_0@
                    == ContentPlanView::ReadFile(name@),
            },
    {
        match request {
            Request::Content(ContentRequest::List) => Ok(ContentPlan::ListDirectory),
            Request::Content(ContentRequest::Content(content_name)) => Ok(
                ContentPlan::ReadFile(content_name),
            ),
            Request::Chat(_) => Err(ProcessError::UnexpectedRequest),
        }
    }

    /// The response to a list request: the names found in the content
    /// directory, as given.
    pub fn list(&self, names: Vec<String>) -> (response: ContentResponse)
        ensures
            response@ == ContentResponseView::List(texts(names@)),
    {
        ContentResponse::List(names)
    }

    /// The response to a request for the file `content_name`, from what
    /// the caller found: the bytes of the file as an image, or word that
    /// there is no such file.
    pub fn content(&self, content_name: ContentName, file: Option<Vec<u8>>) -> (response:
        ContentResponse)
        ensures
            response@ == match file {
                Some(data) => ContentResponseView::Content(
                    content_name@,
                    ContentType::Image,
                    data@,
                ),
                None => ContentResponseView::ContentNotFound(content_name@),
            },
    {
        match file {
            Some(content_data) => ContentResponse::Content(
                content_name,
                ContentType::Image,
                content_data,
            ),
            None => ContentResponse::ContentNotFound(content_name),
        }
    }
}

} // verus!
