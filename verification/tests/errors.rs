use tangl::git::error::{GitCommandError, GitError, GitModelError, InvalidPathError, InvalidVersionError};
use tangl::model::{PathNotFoundError, WrongNodeTypeError};
use tangl::spl::error::{
    AbortDerivationError, ContinueDerivationError, InitializeDerivationError, ResetDerivationError,
    UpdateProductError,
};

fn command_error() -> GitCommandError {
    GitCommandError::new("error: pathspec did not match".to_string(), "checkout failed".to_string())
}

#[test]
fn errors_git_command_text() {
    let error = command_error();
    assert_eq!(error.get_git_output(), "error: pathspec did not match");
    assert_eq!(error.to_string(), "checkout failed\nerror: pathspec did not match");
    assert_eq!(GitError::Git(command_error()).to_string(), "checkout failed\nerror: pathspec did not match");
}

#[test]
fn errors_io_text() {
    let io = std::io::Error::new(std::io::ErrorKind::NotFound, "no git here");
    assert_eq!(GitError::Io(io).to_string(), "no git here");
    let io = std::io::Error::new(std::io::ErrorKind::NotFound, "no git here");
    assert_eq!(GitModelError::Io(io).to_string(), "no git here");
}

#[test]
fn errors_model_texts() {
    assert_eq!(
        GitModelError::PathNotFound(PathNotFoundError::new("fatal: /main/x does not exist".to_string())).to_string(),
        "fatal: /main/x does not exist"
    );
    assert_eq!(
        GitModelError::WrongNodeType(WrongNodeTypeError::new("fatal: wrong type".to_string())).to_string(),
        "fatal: wrong type"
    );
    assert_eq!(
        InvalidPathError::InvalidVersion(InvalidVersionError::new("bad version".to_string())).to_string(),
        "bad version"
    );
}

#[test]
fn errors_derivation_texts() {
    assert_eq!(
        InitializeDerivationError::DerivationInProgress.to_string(),
        "fatal: a derivation is currently in progress"
    );
    assert_eq!(
        UpdateProductError::DerivationInProgress.to_string(),
        "fatal: a derivation is currently in progress"
    );
    assert_eq!(ContinueDerivationError::NoDerivationInProgress.to_string(), "fatal: no derivation in progress");
    assert_eq!(AbortDerivationError::NoDerivationInProgress.to_string(), "fatal: no derivation in progress");
    assert_eq!(ResetDerivationError::NoDerivationInProgress.to_string(), "fatal: no derivation in progress");
    assert_eq!(
        ContinueDerivationError::Git(command_error()).to_string(),
        "checkout failed\nerror: pathspec did not match"
    );
}

#[test]
fn errors_serde_text() {
    let parse = serde_json::from_str::<u8>("x").unwrap_err();
    let expected = parse.to_string();
    assert_eq!(InitializeDerivationError::Serde(parse).to_string(), expected);
}
