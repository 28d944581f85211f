//! The errors of running git and of resolving paths against the tree.
use crate::model::error::{ModelError, PathNotFoundError, WrongNodeTypeError};
use vstd::prelude::*;
use vstd::string::*;

verus! {

#[verifier::external_type_specification]
#[verifier::external_body]
pub struct ExIoError(std::io::Error);

/// The text of an I/O error (its `Display`). Nothing is claimed of it.
#[verifier::external_body]
pub(crate) fn io_error_message(error: &std::io::Error) -> String {
    error.to_string()
}

/// A git command that failed: what git printed and what went wrong.
#[derive(Debug)]
pub struct GitCommandError {
    git_output: String,
    msg: String,
}

impl Clone for GitCommandError {
    fn clone(&self) -> (r: Self)
        ensures
            r.spec_git_output() == self.spec_git_output(),
            r.spec_msg() == self.spec_msg(),
    {
        GitCommandError { git_output: self.git_output.clone(), msg: self.msg.clone() }
    }
}

impl GitCommandError {
    pub closed spec fn spec_git_output(&self) -> Seq<char> {
        self.git_output@
    }

    pub closed spec fn spec_msg(&self) -> Seq<char> {
        self.msg@
    }

    /// The text of the error: the message, a line break, git's output.
    pub open spec fn spec_text(&self) -> Seq<char> {
        self.spec_msg() + seq!['\n'] + self.spec_git_output()
    }

    pub fn new(git_output: String, msg: String) -> (r: GitCommandError)
        ensures
            r.spec_git_output() == git_output@,
            r.spec_msg() == msg@,
    {
        GitCommandError { git_output, msg }
    }

    pub fn get_git_output(&self) -> (r: &String)
        ensures
            r@ == self.spec_git_output(),
    {
        &self.git_output
    }

    /// The message, a line break, git's output.
    pub fn to_string(&self) -> (r: String)
        ensures
            r@ == self.spec_text(),
    {
        let mut out = self.msg.clone();
        let newline = "\n";
        proof {
            reveal_strlit("\n");
        }
        out.append(newline);
        out.append(self.git_output.as_str());
        proof {
            assert(out@ =~= self.spec_text());
        }
        out
    }
}

/// Running git failed, or git reported an error.
#[derive(Debug)]
pub enum GitError {
    Io(std::io::Error),
    Git(GitCommandError),
}

impl GitError {
    /// The text of the error.
    pub fn to_string(&self) -> (r: String)
        ensures
            self matches GitError::Git(e) ==> r@ == e.spec_text(),
    {
        match self {
            GitError::Io(err) => io_error_message(err),
            GitError::Git(err) => err.to_string(),
        }
    }
}

impl From<std::io::Error> for GitError {
    fn from(err: std::io::Error) -> (r: GitError) {
        GitError::Io(err)
    }
}

impl vstd::std_specs::convert::FromSpecImpl<std::io::Error> for GitError {
    open spec fn obeys_from_spec() -> bool {
        true
    }

    open spec fn from_spec(err: std::io::Error) -> GitError {
        GitError::Io(err)
    }
}

impl From<GitCommandError> for GitError {
    fn from(value: GitCommandError) -> (r: GitError) {
        GitError::Git(value)
    }
}

impl vstd::std_specs::convert::FromSpecImpl<GitCommandError> for GitError {
    open spec fn obeys_from_spec() -> bool {
        true
    }

    open spec fn from_spec(value: GitCommandError) -> GitError {
        GitError::Git(value)
    }
}

/// Running git failed, git reported an error, or a path did not resolve.
#[derive(Debug)]
pub enum GitModelError {
    Io(std::io::Error),
    Git(GitCommandError),
    WrongNodeType(WrongNodeTypeError),
    PathNotFound(PathNotFoundError),
}

impl GitModelError {
    /// The text of the error.
    pub fn to_string(&self) -> (r: String)
        ensures
            self matches GitModelError::Git(e) ==> r@ == e.spec_text(),
            self matches GitModelError::WrongNodeType(e) ==> r@ == e.spec_message(),
            self matches GitModelError::PathNotFound(e) ==> r@ == e.spec_message(),
    {
        match self {
            GitModelError::Git(err) => err.to_string(),
            GitModelError::Io(err) => io_error_message(err),
            GitModelError::WrongNodeType(err) => err.message().clone(),
            GitModelError::PathNotFound(err) => err.message().clone(),
        }
    }
}

impl From<GitCommandError> for GitModelError {
    fn from(err: GitCommandError) -> (r: Self) {
        GitModelError::Git(err)
    }
}

impl vstd::std_specs::convert::FromSpecImpl<GitCommandError> for GitModelError {
    open spec fn obeys_from_spec() -> bool {
        true
    }

    open spec fn from_spec(err: GitCommandError) -> Self {
        GitModelError::Git(err)
    }
}

impl From<WrongNodeTypeError> for GitModelError {
    fn from(err: WrongNodeTypeError) -> (r: Self) {
        GitModelError::WrongNodeType(err)
    }
}

impl vstd::std_specs::convert::FromSpecImpl<WrongNodeTypeError> for GitModelError {
    open spec fn obeys_from_spec() -> bool {
        true
    }

    open spec fn from_spec(err: WrongNodeTypeError) -> Self {
        GitModelError::WrongNodeType(err)
    }
}

impl From<PathNotFoundError> for GitModelError {
    fn from(err: PathNotFoundError) -> (r: Self) {
        GitModelError::PathNotFound(err)
    }
}

impl vstd::std_specs::convert::FromSpecImpl<PathNotFoundError> for GitModelError {
    open spec fn obeys_from_spec() -> bool {
        true
    }

    open spec fn from_spec(err: PathNotFoundError) -> Self {
        GitModelError::PathNotFound(err)
    }
}

impl From<ModelError> for GitModelError {
    fn from(err: ModelError) -> (r: Self) {
        match err {
            ModelError::PathNotFound(err) => GitModelError::PathNotFound(err),
            ModelError::WrongNodeType(err) => GitModelError::WrongNodeType(err),
        }
    }
}

impl vstd::std_specs::convert::FromSpecImpl<ModelError> for GitModelError {
    open spec fn obeys_from_spec() -> bool {
        true
    }

    open spec fn from_spec(err: ModelError) -> Self {
        match err {
            ModelError::PathNotFound(e) => GitModelError::PathNotFound(e),
            ModelError::WrongNodeType(e) => GitModelError::WrongNodeType(e),
        }
    }
}

impl From<std::io::Error> for GitModelError {
    fn from(err: std::io::Error) -> (r: Self) {
        GitModelError::Io(err)
    }
}

impl vstd::std_specs::convert::FromSpecImpl<std::io::Error> for GitModelError {
    open spec fn obeys_from_spec() -> bool {
        true
    }

    open spec fn from_spec(err: std::io::Error) -> Self {
        GitModelError::Io(err)
    }
}

impl From<GitError> for GitModelError {
    fn from(err: GitError) -> (r: Self) {
        match err {
            GitError::Io(err) => GitModelError::Io(err),
            GitError::Git(err) => GitModelError::Git(err),
        }
    }
}

impl vstd::std_specs::convert::FromSpecImpl<GitError> for GitModelError {
    open spec fn obeys_from_spec() -> bool {
        true
    }

    open spec fn from_spec(err: GitError) -> Self {
        match err {
            GitError::Io(e) => GitModelError::Io(e),
            GitError::Git(e) => GitModelError::Git(e),
        }
    }
}

/// A version that is not valid for a path.
#[derive(Debug)]
pub struct InvalidVersionError {
    msg: String,
}

impl Clone for InvalidVersionError {
    fn clone(&self) -> (r: Self)
        ensures
            r.spec_message() == self.spec_message(),
    {
        InvalidVersionError { msg: self.msg.clone() }
    }
}

impl InvalidVersionError {
    pub closed spec fn spec_message(&self) -> Seq<char> {
        self.msg@
    }

    pub fn new(msg: String) -> (r: InvalidVersionError)
        ensures
            r.spec_message() == msg@,
    {
        InvalidVersionError { msg }
    }

    pub fn to_string(&self) -> (r: String)
        ensures
            r@ == self.spec_message(),
    {
        self.msg.clone()
    }
}

/// A path that does not resolve: missing, of the wrong type or with an
/// invalid version.
#[derive(Debug)]
pub enum InvalidPathError {
    PathNotFound(PathNotFoundError),
    WrongNodeType(WrongNodeTypeError),
    InvalidVersion(InvalidVersionError),
}

impl InvalidPathError {
    /// The text of the error.
    pub fn to_string(&self) -> (r: String)
        ensures
            self matches InvalidPathError::PathNotFound(e) ==> r@ == e.spec_message(),
            self matches InvalidPathError::WrongNodeType(e) ==> r@ == e.spec_message(),
            self matches InvalidPathError::InvalidVersion(e) ==> r@ == e.spec_message(),
    {
        match self {
            InvalidPathError::PathNotFound(err) => err.message().clone(),
            InvalidPathError::WrongNodeType(err) => err.message().clone(),
            InvalidPathError::InvalidVersion(err) => err.to_string(),
        }
    }
}

impl From<ModelError> for InvalidPathError {
    fn from(err: ModelError) -> (r: Self) {
        match err {
            ModelError::PathNotFound(err) => InvalidPathError::PathNotFound(err),
            ModelError::WrongNodeType(err) => InvalidPathError::WrongNodeType(err),
        }
    }
}

impl vstd::std_specs::convert::FromSpecImpl<ModelError> for InvalidPathError {
    open spec fn obeys_from_spec() -> bool {
        true
    }

    open spec fn from_spec(err: ModelError) -> Self {
        match err {
            ModelError::PathNotFound(e) => InvalidPathError::PathNotFound(e),
            ModelError::WrongNodeType(e) => InvalidPathError::WrongNodeType(e),
        }
    }
}

impl From<PathNotFoundError> for InvalidPathError {
    fn from(value: PathNotFoundError) -> (r: Self) {
        InvalidPathError::PathNotFound(value)
    }
}

impl vstd::std_specs::convert::FromSpecImpl<PathNotFoundError> for InvalidPathError {
    open spec fn obeys_from_spec() -> bool {
        true
    }

    open spec fn from_spec(value: PathNotFoundError) -> Self {
        InvalidPathError::PathNotFound(value)
    }
}

impl From<WrongNodeTypeError> for InvalidPathError {
    fn from(value: WrongNodeTypeError) -> (r: Self) {
        InvalidPathError::WrongNodeType(value)
    }
}

impl vstd::std_specs::convert::FromSpecImpl<WrongNodeTypeError> for InvalidPathError {
    open spec fn obeys_from_spec() -> bool {
        true
    }

    open spec fn from_spec(value: WrongNodeTypeError) -> Self {
        InvalidPathError::WrongNodeType(value)
    }
}

impl From<InvalidVersionError> for InvalidPathError {
    fn from(value: InvalidVersionError) -> (r: Self) {
        InvalidPathError::InvalidVersion(value)
    }
}

impl vstd::std_specs::convert::FromSpecImpl<InvalidVersionError> for InvalidPathError {
    open spec fn obeys_from_spec() -> bool {
        true
    }

    open spec fn from_spec(value: InvalidVersionError) -> Self {
        InvalidPathError::InvalidVersion(value)
    }
}

/// Asserting a path failed: git failed, or the path does not resolve.
#[derive(Debug)]
pub enum PathAssertionError {
    Git(GitError),
    InvalidPath(InvalidPathError),
}

impl PathAssertionError {
    /// The text of the error.
    pub fn to_string(&self) -> (r: String)
        ensures
            self matches PathAssertionError::Git(GitError::Git(e)) ==> r@ == e.spec_text(),
            self matches PathAssertionError::InvalidPath(InvalidPathError::PathNotFound(e)) ==> r@
                == e.spec_message(),
            self matches PathAssertionError::InvalidPath(InvalidPathError::WrongNodeType(e)) ==> r@
                == e.spec_message(),
            self matches PathAssertionError::InvalidPath(InvalidPathError::InvalidVersion(e)) ==> r@
                == e.spec_message(),
    {
        match self {
            PathAssertionError::Git(err) => err.to_string(),
            PathAssertionError::InvalidPath(err) => err.to_string(),
        }
    }
}

impl From<GitError> for PathAssertionError {
    fn from(err: GitError) -> (r: Self) {
        PathAssertionError::Git(err)
    }
}

impl vstd::std_specs::convert::FromSpecImpl<GitError> for PathAssertionError {
    open spec fn obeys_from_spec() -> bool {
        true
    }

    open spec fn from_spec(err: GitError) -> Self {
        PathAssertionError::Git(err)
    }
}

impl From<GitCommandError> for PathAssertionError {
    fn from(err: GitCommandError) -> (r: Self) {
        PathAssertionError::Git(GitError::Git(err))
    }
}

impl vstd::std_specs::convert::FromSpecImpl<GitCommandError> for PathAssertionError {
    open spec fn obeys_from_spec() -> bool {
        true
    }

    open spec fn from_spec(err: GitCommandError) -> Self {
        PathAssertionError::Git(GitError::Git(err))
    }
}

impl From<ModelError> for PathAssertionError {
    fn from(err: ModelError) -> (r: Self) {
        match err {
            ModelError::PathNotFound(err) => PathAssertionError::InvalidPath(
                InvalidPathError::PathNotFound(err),
            ),
            ModelError::WrongNodeType(err) => PathAssertionError::InvalidPath(
                InvalidPathError::WrongNodeType(err),
            ),
        }
    }
}

impl vstd::std_specs::convert::FromSpecImpl<ModelError> for PathAssertionError {
    open spec fn obeys_from_spec() -> bool {
        true
    }

    open spec fn from_spec(err: ModelError) -> Self {
        match err {
            ModelError::PathNotFound(e) => PathAssertionError::InvalidPath(
                InvalidPathError::PathNotFound(e),
            ),
            ModelError::WrongNodeType(e) => PathAssertionError::InvalidPath(
                InvalidPathError::WrongNodeType(e),
            ),
        }
    }
}

impl From<InvalidVersionError> for PathAssertionError {
    fn from(value: InvalidVersionError) -> (r: Self) {
        PathAssertionError::InvalidPath(InvalidPathError::InvalidVersion(value))
    }
}

impl vstd::std_specs::convert::FromSpecImpl<InvalidVersionError> for PathAssertionError {
    open spec fn obeys_from_spec() -> bool {
        true
    }

    open spec fn from_spec(value: InvalidVersionError) -> Self {
        PathAssertionError::InvalidPath(InvalidPathError::InvalidVersion(value))
    }
}

impl From<PathNotFoundError> for PathAssertionError {
    fn from(value: PathNotFoundError) -> (r: Self) {
        PathAssertionError::InvalidPath(InvalidPathError::PathNotFound(value))
    }
}

impl vstd::std_specs::convert::FromSpecImpl<PathNotFoundError> for PathAssertionError {
    open spec fn obeys_from_spec() -> bool {
        true
    }

    open spec fn from_spec(value: PathNotFoundError) -> Self {
        PathAssertionError::InvalidPath(InvalidPathError::PathNotFound(value))
    }
}

impl From<WrongNodeTypeError> for PathAssertionError {
    fn from(value: WrongNodeTypeError) -> (r: Self) {
        PathAssertionError::InvalidPath(InvalidPathError::WrongNodeType(value))
    }
}

impl vstd::std_specs::convert::FromSpecImpl<WrongNodeTypeError> for PathAssertionError {
    open spec fn obeys_from_spec() -> bool {
        true
    }

    open spec fn from_spec(value: WrongNodeTypeError) -> Self {
        PathAssertionError::InvalidPath(InvalidPathError::WrongNodeType(value))
    }
}

impl From<std::io::Error> for PathAssertionError {
    fn from(value: std::io::Error) -> (r: Self) {
        PathAssertionError::Git(GitError::Io(value))
    }
}

impl vstd::std_specs::convert::FromSpecImpl<std::io::Error> for PathAssertionError {
    open spec fn obeys_from_spec() -> bool {
        true
    }

    open spec fn from_spec(value: std::io::Error) -> Self {
        PathAssertionError::Git(GitError::Io(value))
    }
}

} // verus!
