//! Mapping a request path under a root directory to a response.
use vstd::prelude::*;

use crate::http::Request;
use crate::response::{extension, file_entries, html_entries, Body, Response, Status};
use vstd::string::StringSliceAdditionalSpecFns;

verus! {

/// The body of the response to a path that names no regular file.
pub const NOT_FOUND_PAGE: &'static str =
    "<!DOCTYPE html>\n<html>\n<head><title>404 Not Found</title></head>\n<body><h1>Not Found</h1></body>\n</html>\n";

/// What the command line configures: the port, and the root directory when
/// the working directory is not meant.
pub struct Args {
    pub port: u16,
    pub root: Option<String>,
}

/// `rel` appended to `root` as a path is pushed onto another: an absolute `rel`
/// replaces `root`; otherwise a `/` is put between them unless `root` is empty
/// or already ends in one. No `..` segment is rejected.
pub open spec fn join(root: Seq<char>, rel: Seq<char>) -> Seq<char> {
    if rel.len() > 0 && rel[0] == '/' {
        rel
    } else if root.len() == 0 || root.last() == '/' {
        root + rel
    } else {
        root + seq!['/'] + rel
    }
}

/// Serves the files below one root directory.
#[derive(Debug, Clone)]
pub struct StaticFileHandler {
    root: String,
}

impl StaticFileHandler {
    pub closed spec fn spec_root(&self) -> Seq<char> {
        self.root@
    }

    pub fn with_root(root: String) -> (r: StaticFileHandler)
        ensures
            r.spec_root() == root@,
    {
        StaticFileHandler { root }
    }

    /// The filesystem path that `request_path` names: its leading `/` taken
    /// off, the rest joined to the root.
    pub fn file_path(&self, request_path: &str) -> (r: String)
        requires
            request_path@.len() > 0,
            request_path@[0] == '/',
        ensures
            r@ == join(self.spec_root(), request_path@.drop_first()),
    {
        let n = request_path.unicode_len();
        let rel = request_path.substring_char(1, n);
        assert(rel@ =~= request_path@.drop_first());
        let rn = rel.unicode_len();
        let k = self.root.as_str().unicode_len();
        if rn > 0 && rel.get_char(0) == '/' {
            rel.to_owned()
        } else if k == 0 || self.root.as_str().get_char(k - 1) == '/' {
            let mut s = self.root.clone();
            s.append(rel);
            s
        } else {
            let mut s = self.root.clone();
            s.append("/");
            proof {
                reveal_strlit("/");
            }
            s.append(rel);
            assert(s@ =~= self.root@ + seq!['/'] + rel@);
            s
        }
    }

    /// The response to `request`, given what the filesystem holds at
    /// `file_path(request.path)`: `Some(len)` for a regular file of `len`
    /// bytes, `None` where no regular file is found.
    pub fn handle(&self, request: &Request, file_len: Option<u64>) -> (r: Response)
        requires
            request.path@.len() > 0,
            request.path@[0] == '/',
        ensures
            r.wf(),
            match file_len {
                None => {
                    &&& r.status == Status::NotFound
                    &&& r.headers@ == html_entries(NOT_FOUND_PAGE.spec_bytes().len())
                    &&& r.body matches Body::Bytes(b) && b@ == NOT_FOUND_PAGE.spec_bytes()
                },
                Some(len) => {
                    &&& r.status == Status::OK
                    &&& r.headers@ == file_entries(
                        join(self.spec_root(), request.path@.drop_first()),
                        len as nat,
                    )
                    &&& r.body == Body::Stream(len)
                },
            },
    {
        match file_len {
            None => Response::from_html(Status::NotFound, NOT_FOUND_PAGE),
            Some(len) => {
                let path = self.file_path(request.path.as_str());
                Response::from_file(path.as_str(), len)
            },
        }
    }
}

} // verus!
