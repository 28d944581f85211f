//! The errors of starting, continuing, aborting and reverting derivations.
use crate::git::error::{io_error_message, GitCommandError, GitError};
use crate::model::error::{PathNotFoundError, WrongNodeTypeError};
use vstd::prelude::*;
use vstd::string::*;

verus! {

#[verifier::external_type_specification]
#[verifier::external_body]
pub struct ExSerdeJsonError(serde_json::Error);

/// The text of a `serde_json::Error` (its `Display`). Nothing is claimed of
/// it.
#[verifier::external_body]
fn serde_error_message(error: &serde_json::Error) -> String {
    error.to_string()
}

/// `fatal: a derivation is currently in progress`
pub open spec fn in_progress_text() -> Seq<char> {
    seq![
        'f', 'a', 't', 'a', 'l', ':', ' ', 'a', ' ', 'd', 'e', 'r', 'i', 'v', 'a', 't', 'i', 'o', 'n',
        ' ', 'i', 's', ' ', 'c', 'u', 'r', 'r', 'e', 'n', 't', 'l', 'y', ' ', 'i', 'n', ' ', 'p', 'r',
        'o', 'g', 'r', 'e', 's', 's',
    ]
}

/// `fatal: no derivation in progress`
pub open spec fn none_in_progress_text() -> Seq<char> {
    seq![
        'f', 'a', 't', 'a', 'l', ':', ' ', 'n', 'o', ' ', 'd', 'e', 'r', 'i', 'v', 'a', 't', 'i', 'o',
        'n', ' ', 'i', 'n', ' ', 'p', 'r', 'o', 'g', 'r', 'e', 's', 's',
    ]
}

fn in_progress_message() -> (r: String)
    ensures
        r@ == in_progress_text(),
{
    proof {
        reveal_strlit("fatal: a derivation is currently in progress");
        assert(("fatal: a derivation is currently in progress")@ =~= in_progress_text());
    }
    String::from_str("fatal: a derivation is currently in progress")
}

fn none_in_progress_message() -> (r: String)
    ensures
        r@ == none_in_progress_text(),
{
    proof {
        reveal_strlit("fatal: no derivation in progress");
        assert(("fatal: no derivation in progress")@ =~= none_in_progress_text());
    }
    String::from_str("fatal: no derivation in progress")
}

/// Why a derivation could not start.
#[derive(Debug)]
pub enum InitializeDerivationError {
    Io(std::io::Error),
    Git(GitCommandError),
    Serde(serde_json::Error),
    DerivationInProgress,
}

impl InitializeDerivationError {
    pub fn to_string(&self) -> (r: String)
        ensures
            self is DerivationInProgress ==> r@ == in_progress_text(),
            self matches InitializeDerivationError::Git(e) ==> r@ == e.spec_text(),
    {
        match self {
            InitializeDerivationError::Io(e) => io_error_message(e),
            InitializeDerivationError::Serde(e) => serde_error_message(e),
            InitializeDerivationError::Git(e) => e.to_string(),
            InitializeDerivationError::DerivationInProgress => in_progress_message(),
        }
    }
}

impl From<GitError> for InitializeDerivationError {
    fn from(value: GitError) -> (r: Self) {
        match value {
            GitError::Io(e) => InitializeDerivationError::Io(e),
            GitError::Git(e) => InitializeDerivationError::Git(e),
        }
    }
}

impl vstd::std_specs::convert::FromSpecImpl<GitError> for InitializeDerivationError {
    open spec fn obeys_from_spec() -> bool {
        true
    }

    open spec fn from_spec(value: GitError) -> Self {
        match value {
            GitError::Io(e) => InitializeDerivationError::Io(e),
            GitError::Git(e) => InitializeDerivationError::Git(e),
        }
    }
}

/// Why a derivation could not go on.
#[derive(Debug)]
pub enum ContinueDerivationError {
    Io(std::io::Error),
    Git(GitCommandError),
    WrongNodeType(WrongNodeTypeError),
    PathNotFound(PathNotFoundError),
    Serde(serde_json::Error),
    NoDerivationInProgress,
}

impl ContinueDerivationError {
    pub fn to_string(&self) -> (r: String)
        ensures
            self is NoDerivationInProgress ==> r@ == none_in_progress_text(),
            self matches ContinueDerivationError::Git(e) ==> r@ == e.spec_text(),
            self matches ContinueDerivationError::WrongNodeType(e) ==> r@ == e.spec_message(),
            self matches ContinueDerivationError::PathNotFound(e) ==> r@ == e.spec_message(),
    {
        match self {
            ContinueDerivationError::Io(e) => io_error_message(e),
            ContinueDerivationError::Git(e) => e.to_string(),
            ContinueDerivationError::Serde(e) => serde_error_message(e),
            ContinueDerivationError::WrongNodeType(e) => e.message().clone(),
            ContinueDerivationError::PathNotFound(e) => e.message().clone(),
            ContinueDerivationError::NoDerivationInProgress => none_in_progress_message(),
        }
    }
}

impl From<GitError> for ContinueDerivationError {
    fn from(value: GitError) -> (r: Self) {
        match value {
            GitError::Io(e) => ContinueDerivationError::Io(e),
            GitError::Git(e) => ContinueDerivationError::Git(e),
        }
    }
}

impl vstd::std_specs::convert::FromSpecImpl<GitError> for ContinueDerivationError {
    open spec fn obeys_from_spec() -> bool {
        true
    }

    open spec fn from_spec(value: GitError) -> Self {
        match value {
            GitError::Io(e) => ContinueDerivationError::Io(e),
            GitError::Git(e) => ContinueDerivationError::Git(e),
        }
    }
}

/// Why a derivation could not be aborted.
#[derive(Debug)]
pub enum AbortDerivationError {
    Io(std::io::Error),
    Git(GitCommandError),
    NoDerivationInProgress,
}

impl AbortDerivationError {
    pub fn to_string(&self) -> (r: String)
        ensures
            self is NoDerivationInProgress ==> r@ == none_in_progress_text(),
            self matches AbortDerivationError::Git(e) ==> r@ == e.spec_text(),
    {
        match self {
            AbortDerivationError::Io(e) => io_error_message(e),
            AbortDerivationError::Git(e) => e.to_string(),
            AbortDerivationError::NoDerivationInProgress => none_in_progress_message(),
        }
    }
}

impl From<GitError> for AbortDerivationError {
    fn from(value: GitError) -> (r: Self) {
        match value {
            GitError::Io(e) => AbortDerivationError::Io(e),
            GitError::Git(e) => AbortDerivationError::Git(e),
        }
    }
}

impl vstd::std_specs::convert::FromSpecImpl<GitError> for AbortDerivationError {
    open spec fn obeys_from_spec() -> bool {
        true
    }

    open spec fn from_spec(value: GitError) -> Self {
        match value {
            GitError::Io(e) => AbortDerivationError::Io(e),
            GitError::Git(e) => AbortDerivationError::Git(e),
        }
    }
}

/// Why a derivation step could not be reverted.
#[derive(Debug)]
pub enum ResetDerivationError {
    Io(std::io::Error),
    Git(GitCommandError),
    NoDerivationInProgress,
}

impl ResetDerivationError {
    pub fn to_string(&self) -> (r: String)
        ensures
            self is NoDerivationInProgress ==> r@ == none_in_progress_text(),
            self matches ResetDerivationError::Git(e) ==> r@ == e.spec_text(),
    {
        match self {
            ResetDerivationError::Io(e) => io_error_message(e),
            ResetDerivationError::Git(e) => e.to_string(),
            ResetDerivationError::NoDerivationInProgress => none_in_progress_message(),
        }
    }
}

impl From<GitError> for ResetDerivationError {
    fn from(value: GitError) -> (r: Self) {
        match value {
            GitError::Io(e) => ResetDerivationError::Io(e),
            GitError::Git(e) => ResetDerivationError::Git(e),
        }
    }
}

impl vstd::std_specs::convert::FromSpecImpl<GitError> for ResetDerivationError {
    open spec fn obeys_from_spec() -> bool {
        true
    }

    open spec fn from_spec(value: GitError) -> Self {
        match value {
            GitError::Io(e) => ResetDerivationError::Io(e),
            GitError::Git(e) => ResetDerivationError::Git(e),
        }
    }
}

/// Why a product could not be updated.
#[derive(Debug)]
pub enum UpdateProductError {
    Io(std::io::Error),
    Git(GitCommandError),
    Serde(serde_json::Error),
    DerivationInProgress,
    WrongNodeType(WrongNodeTypeError),
    PathNotFound(PathNotFoundError),
}

impl UpdateProductError {
    pub fn to_string(&self) -> (r: String)
        ensures
            self is DerivationInProgress ==> r@ == in_progress_text(),
            self matches UpdateProductError::Git(e) ==> r@ == e.spec_text(),
            self matches UpdateProductError::WrongNodeType(e) ==> r@ == e.spec_message(),
            self matches UpdateProductError::PathNotFound(e) ==> r@ == e.spec_message(),
    {
        match self {
            UpdateProductError::Io(e) => io_error_message(e),
            UpdateProductError::Serde(e) => serde_error_message(e),
            UpdateProductError::Git(e) => e.to_string(),
            UpdateProductError::WrongNodeType(e) => e.message().clone(),
            UpdateProductError::PathNotFound(e) => e.message().clone(),
            UpdateProductError::DerivationInProgress => in_progress_message(),
        }
    }
}

impl From<InitializeDerivationError> for UpdateProductError {
    fn from(value: InitializeDerivationError) -> (r: Self) {
        match value {
            InitializeDerivationError::Io(e) => UpdateProductError::Io(e),
            InitializeDerivationError::Git(e) => UpdateProductError::Git(e),
            InitializeDerivationError::Serde(e) => UpdateProductError::Serde(e),
            InitializeDerivationError::DerivationInProgress => UpdateProductError::DerivationInProgress,
        }
    }
}

impl vstd::std_specs::convert::FromSpecImpl<InitializeDerivationError> for UpdateProductError {
    open spec fn obeys_from_spec() -> bool {
        true
    }

    open spec fn from_spec(value: InitializeDerivationError) -> Self {
        match value {
            InitializeDerivationError::Io(e) => UpdateProductError::Io(e),
            InitializeDerivationError::Git(e) => UpdateProductError::Git(e),
            InitializeDerivationError::Serde(e) => UpdateProductError::Serde(e),
            InitializeDerivationError::DerivationInProgress => UpdateProductError::DerivationInProgress,
        }
    }
}

} // verus!
