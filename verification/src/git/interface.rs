//! What the library decides about running git: the arguments of each
//! command, how git's answers are read, and the tree model built from the
//! repository's branches and tags. Running the commands is left to the
//! program around the library, which hands their output back here.
use crate::git::error::{GitCommandError, InvalidPathError, PathAssertionError};
use crate::model::qualified_path::CommitHash;
use crate::model::error::{ModelError, WrongNodeTypeError};
use crate::model::node::{insert_names, lookup};
use crate::model::node_path::NodePath;
use crate::model::node_type::{ConcreteArea, NodeType, SymbolicNodeType, VirtualRoot};
use crate::model::qualified_path::{spec_from_segments, spec_from_str, spec_push, NormalizedPath, QPathView};
use crate::model::node::{inserted, CommitTag, PayloadView};
use crate::model::tree::{query_names, TreeDataModel};
use crate::text::{
    contains_seq, contains_str, decimal_string, join, join_str, remove_char, remove_char_str,
    spec_decimal, split, split_str, trim, trim_str, views,
};
use vstd::prelude::*;
use vstd::string::*;

verus! {

/// Where git runs: in the current directory or in a given one.
#[derive(Debug)]
pub enum GitPath {
    CurrentDirectory,
    CustomDirectory(String),
}

impl Clone for GitPath {
    fn clone(&self) -> (r: Self)
        ensures
            r == *self,
    {
        match self {
            GitPath::CurrentDirectory => GitPath::CurrentDirectory,
            GitPath::CustomDirectory(p) => {
                let c = p.clone();
                assert(c == *p) by {
                    assert(c@ == p@);
                }
                GitPath::CustomDirectory(c)
            },
        }
    }
}

/// The arguments that select the repository of `path`.
pub open spec fn spec_location_arguments(path: GitPath) -> Seq<Seq<char>> {
    match path {
        GitPath::CurrentDirectory => Seq::empty(),
        GitPath::CustomDirectory(p) => seq![
            seq!['-', '-', 'g', 'i', 't', '-', 'd', 'i', 'r', '='] + p@ + seq!['/', '.', 'g', 'i', 't'],
            seq!['-', '-', 'w', 'o', 'r', 'k', '-', 't', 'r', 'e', 'e', '='] + p@,
        ],
    }
}

/// The arguments that force colored output.
pub open spec fn spec_color_arguments() -> Seq<Seq<char>> {
    seq![seq!['-', 'c'], seq!['c', 'o', 'l', 'o', 'r', '.', 'u', 'i', '=', 'a', 'l', 'w', 'a', 'y', 's']]
}

/// How git is called: where, and whether its output is colored.
#[derive(Debug)]
pub struct GitCLI {
    path: GitPath,
    colored: bool,
}

impl GitCLI {
    pub closed spec fn spec_path(&self) -> GitPath {
        self.path
    }

    pub closed spec fn spec_colored(&self) -> bool {
        self.colored
    }

    pub fn in_current_directory() -> (r: Self)
        ensures
            r.spec_path() == GitPath::CurrentDirectory,
            !r.spec_colored(),
    {
        Self::new(GitPath::CurrentDirectory)
    }

    pub fn in_custom_directory(path: String) -> (r: Self)
        ensures
            r.spec_path() == GitPath::CustomDirectory(path),
            !r.spec_colored(),
    {
        Self::new(GitPath::CustomDirectory(path))
    }

    pub fn new(path: GitPath) -> (r: Self)
        ensures
            r.spec_path() == path,
            !r.spec_colored(),
    {
        Self { path, colored: false }
    }

    pub fn colored(&mut self, colored: bool)
        ensures
            final(self).spec_colored() == colored,
            final(self).spec_path() == old(self).spec_path(),
    {
        self.colored = colored;
    }

    /// The full argument list for git: the repository's location, the color
    /// option where colored, then `args`.
    pub fn prepare_command(&self, args: &Vec<String>) -> (r: Vec<String>)
        ensures
            views(r@) == spec_location_arguments(self.spec_path()) + (if self.spec_colored() {
                spec_color_arguments()
            } else {
                Seq::empty()
            }) + views(args@),
    {
        let mut arguments: Vec<String> = Vec::new();
        match &self.path {
            GitPath::CurrentDirectory => {},
            GitPath::CustomDirectory(path) => {
                let git_dir = "--git-dir=";
                let dot_git = "/.git";
                let work_tree = "--work-tree=";
                proof {
                    reveal_strlit("--git-dir=");
                    assert(("--git-dir=")@ =~= seq!['-', '-', 'g', 'i', 't', '-', 'd', 'i', 'r', '=']);
                    reveal_strlit("/.git");
                    assert(("/.git")@ =~= seq!['/', '.', 'g', 'i', 't']);
                    reveal_strlit("--work-tree=");
                    assert(("--work-tree=")@ =~= seq!['-', '-', 'w', 'o', 'r', 'k', '-', 't', 'r', 'e', 'e', '=']);
                }
                let mut a = String::from_str(git_dir);
                a.append(path.as_str());
                a.append(dot_git);
                let mut b = String::from_str(work_tree);
                b.append(path.as_str());
                arguments.push(a);
                arguments.push(b);
            },
        }
        if self.colored {
            let c = "-c";
            let always = "color.ui=always";
            proof {
                reveal_strlit("-c");
                assert(("-c")@ =~= seq!['-', 'c']);
                reveal_strlit("color.ui=always");
                assert(("color.ui=always")@ =~= seq!['c', 'o', 'l', 'o', 'r', '.', 'u', 'i', '=', 'a', 'l', 'w', 'a', 'y', 's']);
            }
            arguments.push(String::from_str(c));
            arguments.push(String::from_str(always));
        }
        let ghost prefix = views(arguments@);
        assert(prefix =~= spec_location_arguments(self.spec_path()) + (if self.spec_colored() {
            spec_color_arguments()
        } else {
            Seq::empty()
        }));
        let mut i: usize = 0;
        while i < args.len()
            invariant
                i <= args@.len(),
                views(arguments@) == prefix + views(args@).subrange(0, i as int),
            decreases args@.len() - i,
        {
            let ghost before = arguments@;
            let a = args[i].clone();
            arguments.push(a);
            assert(views(arguments@) =~= views(before).push(a@));
            assert(prefix + views(args@).subrange(0, i + 1) =~= (prefix + views(args@).subrange(
                0,
                i as int,
            )).push(args@[i as int]@));
            i = i + 1;
        }
        assert(views(args@).subrange(0, i as int) =~= views(args@));
        arguments
    }
}

/// What git printed, trimmed: the standard output, a line break, the
/// standard error, each trimmed, and the whole trimmed again.
pub open spec fn spec_output_message(stdout: Seq<char>, stderr: Seq<char>) -> Seq<char> {
    trim(trim(stdout) + seq!['\n'] + trim(stderr))
}

/// The error text of a failed command: `fatal: Command 'git <args>' returned
/// with exit code <code>:` and a line break.
pub open spec fn spec_failure_message(command: Seq<Seq<char>>, code: int) -> Seq<char> {
    seq!['f', 'a', 't', 'a', 'l', ':', ' ', 'C', 'o', 'm', 'm', 'a', 'n', 'd', ' ', '\'', 'g', 'i', 't', ' ']
        + join(command, seq![' ']) + seq![
        '\'',
        ' ',
        'r',
        'e',
        't',
        'u',
        'r',
        'n',
        'e',
        'd',
        ' ',
        'w',
        'i',
        't',
        'h',
        ' ',
        'e',
        'x',
        'i',
        't',
        ' ',
        'c',
        'o',
        'd',
        'e',
        ' ',
    ] + spec_decimal(code) + seq![':', '\n']
}

/// The error text of a failed command.
fn failure_message(command: &Vec<String>, code: i32) -> (r: String)
    ensures
        r@ == spec_failure_message(views(command@), code as int),
{
    let start = "fatal: Command 'git ";
    let middle = "' returned with exit code ";
    let end = ":\n";
    let space = " ";
    proof {
        reveal_strlit("fatal: Command 'git ");
        assert(("fatal: Command 'git ")@ =~= seq!['f', 'a', 't', 'a', 'l', ':', ' ', 'C', 'o', 'm', 'm', 'a', 'n', 'd', ' ', '\'', 'g', 'i', 't', ' ']);
        reveal_strlit("' returned with exit code ");
        assert(("' returned with exit code ")@ =~= seq!['\'', ' ', 'r', 'e', 't', 'u', 'r', 'n', 'e', 'd', ' ', 'w', 'i', 't', 'h', ' ', 'e', 'x', 'i', 't', ' ', 'c', 'o', 'd', 'e', ' ']);
        reveal_strlit(":\n");
        assert((":\n")@ =~= seq![':', '\n']);
        reveal_strlit(" ");
        assert((" ")@ =~= seq![' ']);
    }
    let mut out = String::from_str(start);
    let joined = join_str(command, space);
    out.append(joined.as_str());
    out.append(middle);
    let code_text = decimal_string(code);
    out.append(code_text.as_str());
    out.append(end);
    proof {
        assert(out@ =~= spec_failure_message(views(command@), code as int));
    }
    out
}

/// Reads the result of a command that printed `stdout` and `stderr` and
/// exited with `code` (`success` where it succeeded): the trimmed output, or
/// an error with that output and the failure text.
pub fn output_to_result(stdout: &str, stderr: &str, success: bool, code: i32, command: &Vec<String>) -> (r: Result<
    String,
    GitCommandError,
>)
    ensures
        success ==> (r matches Ok(m) && m@ == spec_output_message(stdout@, stderr@)),
        !success ==> (r matches Err(e) && e.spec_git_output() == spec_output_message(stdout@, stderr@)
            && e.spec_msg() == spec_failure_message(views(command@), code as int)),
{
    let out = trim_str(stdout);
    let err = trim_str(stderr);
    let mut joined = out;
    let newline = "\n";
    proof {
        reveal_strlit("\n");
        assert(("\n")@ =~= seq!['\n']);
    }
    joined.append(newline);
    joined.append(err.as_str());
    let message = trim_str(joined.as_str());
    if success {
        Ok(message)
    } else {
        Err(GitCommandError::new(message, failure_message(command, code)))
    }
}

/// Reads the exit of a command whose output was not captured.
pub fn status_to_result(success: bool, code: i32, command: &Vec<String>) -> (r: Result<(), GitCommandError>)
    ensures
        success ==> r is Ok,
        !success ==> (r matches Err(e) && e.spec_git_output() == Seq::<char>::empty() && e.spec_msg()
            == spec_failure_message(views(command@), code as int)),
{
    if success {
        Ok(())
    } else {
        let empty = "";
        proof {
            reveal_strlit("");
            assert(("")@ =~= Seq::<char>::empty());
        }
        Err(GitCommandError::new(String::from_str(empty), failure_message(command, code)))
    }
}

/// A commit message, followed by a blank line and the metadata where there
/// is any.
pub fn make_commit_message_with_metadata(message: String, metadata: Option<String>) -> (r: String)
    ensures
        metadata matches Some(m) ==> r@ == message@ + seq!['\n', '\n'] + m@,
        metadata is None ==> r@ == message@,
{
    match metadata {
        Some(meta) => {
            let mut out = message;
            let blank = "\n\n";
            proof {
                reveal_strlit("\n\n");
                assert(("\n\n")@ =~= seq!['\n', '\n']);
            }
            out.append(blank);
            out.append(meta.as_str());
            out
        },
        None => message,
    }
}

/// The lines of git's output, trimmed first.
pub open spec fn spec_lines(output: Seq<char>) -> Seq<Seq<char>> {
    split(trim(output), '\n')
}

/// The lines of git's output (the output trimmed, split at line breaks).
pub fn split_lines(output: &str) -> (r: Vec<String>)
    ensures
        views(r@) == spec_lines(output@),
{
    let trimmed = trim_str(output);
    split_str(trimmed.as_str(), '\n')
}

/// The branch listing `name hash` per line, read as pairs: the first and the
/// second word of each line.
pub fn parse_branch_listing(output: &str) -> (r: Vec<(String, String)>)
    requires
        forall|i: int|
            0 <= i < spec_lines(output@).len() ==> split(#[trigger] spec_lines(output@)[i], ' ').len()
                >= 2,
    ensures
        r@.len() == spec_lines(output@).len(),
        forall|i: int|
            0 <= i < r@.len() ==> (#[trigger] r@[i]).0@ == split(spec_lines(output@)[i], ' ')[0]
                && r@[i].1@ == split(spec_lines(output@)[i], ' ')[1],
{
    let lines = split_lines(output);
    let mut out: Vec<(String, String)> = Vec::new();
    let mut i: usize = 0;
    while i < lines.len()
        invariant
            i <= lines@.len(),
            views(lines@) == spec_lines(output@),
            forall|k: int|
                0 <= k < spec_lines(output@).len() ==> split(#[trigger] spec_lines(output@)[k], ' ').len()
                    >= 2,
            out@.len() == i,
            forall|k: int|
                0 <= k < i ==> (#[trigger] out@[k]).0@ == split(spec_lines(output@)[k], ' ')[0]
                    && out@[k].1@ == split(spec_lines(output@)[k], ' ')[1],
        decreases lines@.len() - i,
    {
        assert(lines@[i as int]@ == spec_lines(output@)[i as int]);
        let words = split_str(lines[i].as_str(), ' ');
        let name = words[0].clone();
        let hash = words[1].clone();
        out.push((name, hash));
        i = i + 1;
    }
    out
}

/// The tag listing, one tag per line, with `*` removed.
pub fn parse_tag_listing(output: &str) -> (r: Vec<String>)
    ensures
        r@.len() == spec_lines(output@).len(),
        forall|i: int| 0 <= i < r@.len() ==> (#[trigger] r@[i])@ == remove_char(spec_lines(output@)[i], '*'),
{
    let lines = split_lines(output);
    let mut out: Vec<String> = Vec::new();
    let mut i: usize = 0;
    while i < lines.len()
        invariant
            i <= lines@.len(),
            views(lines@) == spec_lines(output@),
            out@.len() == i,
            forall|k: int| 0 <= k < i ==> (#[trigger] out@[k])@ == remove_char(spec_lines(output@)[k], '*'),
        decreases lines@.len() - i,
    {
        assert(lines@[i as int]@ == spec_lines(output@)[i as int]);
        out.push(remove_char_str(lines[i].as_str(), '*'));
        i = i + 1;
    }
    out
}

/// What a merge came to, read from git's answer.
#[derive(Debug, Clone, Copy, PartialEq, Eq, Structural)]
pub enum MergeOutcome {
    Success,
    UpToDate,
    Conflict,
    Failed,
}

/// Whether git's text holds `Already up to date.`.
pub open spec fn says_up_to_date(output: Seq<char>) -> bool {
    contains_seq(
        output,
        seq!['A', 'l', 'r', 'e', 'a', 'd', 'y', ' ', 'u', 'p', ' ', 't', 'o', ' ', 'd', 'a', 't', 'e', '.'],
    )
}

/// Whether git's text holds `CONFLICT`.
pub open spec fn says_conflict(output: Seq<char>) -> bool {
    contains_seq(output, seq!['C', 'O', 'N', 'F', 'L', 'I', 'C', 'T'])
}

/// The outcome of `git merge`: on success, up to date where git says so,
/// else a success; on failure, a conflict where git reports one, else a
/// failure.
pub fn classify_merge(success: bool, output: &str) -> (r: MergeOutcome)
    ensures
        r == if success {
            if says_up_to_date(output@) {
                MergeOutcome::UpToDate
            } else {
                MergeOutcome::Success
            }
        } else if says_conflict(output@) {
            MergeOutcome::Conflict
        } else {
            MergeOutcome::Failed
        },
{
    let up_to_date = "Already up to date.";
    let conflict = "CONFLICT";
    proof {
        reveal_strlit("Already up to date.");
        assert(("Already up to date.")@ =~= seq!['A', 'l', 'r', 'e', 'a', 'd', 'y', ' ', 'u', 'p', ' ', 't', 'o', ' ', 'd', 'a', 't', 'e', '.']);
        reveal_strlit("CONFLICT");
        assert(("CONFLICT")@ =~= seq!['C', 'O', 'N', 'F', 'L', 'I', 'C', 'T']);
        assert(up_to_date@ =~= seq!['A', 'l', 'r', 'e', 'a', 'd', 'y', ' ', 'u', 'p', ' ', 't', 'o', ' ', 'd', 'a', 't', 'e', '.']);
        assert(conflict@ =~= seq!['C', 'O', 'N', 'F', 'L', 'I', 'C', 'T']);
    }
    if success {
        if contains_str(output, up_to_date) {
            MergeOutcome::UpToDate
        } else {
            MergeOutcome::Success
        }
    } else if contains_str(output, conflict) {
        MergeOutcome::Conflict
    } else {
        MergeOutcome::Failed
    }
}

/// Whether git's text holds `If you wish to commit it anyway`.
pub open spec fn says_empty_pick(output: Seq<char>) -> bool {
    contains_seq(
        output,
        seq![
            'I', 'f', ' ', 'y', 'o', 'u', ' ', 'w', 'i', 's', 'h', ' ', 't', 'o', ' ', 'c', 'o',
            'm', 'm', 'i', 't', ' ', 'i', 't', ' ', 'a', 'n', 'y', 'w', 'a', 'y',
        ],
    )
}

/// The outcome of `git cherry-pick`: a success where git succeeded; on
/// failure a conflict where git reports one, up to date where the pick is
/// empty, else a failure.
pub fn classify_cherry_pick(success: bool, output: &str) -> (r: MergeOutcome)
    ensures
        r == if success {
            MergeOutcome::Success
        } else if says_conflict(output@) {
            MergeOutcome::Conflict
        } else if says_empty_pick(output@) {
            MergeOutcome::UpToDate
        } else {
            MergeOutcome::Failed
        },
{
    let conflict = "CONFLICT";
    let anyway = "If you wish to commit it anyway";
    proof {
        reveal_strlit("CONFLICT");
        assert(("CONFLICT")@ =~= seq!['C', 'O', 'N', 'F', 'L', 'I', 'C', 'T']);
        reveal_strlit("If you wish to commit it anyway");
        assert(("If you wish to commit it anyway")@ =~= seq!['I', 'f', ' ', 'y', 'o', 'u', ' ', 'w', 'i', 's', 'h', ' ', 't', 'o', ' ', 'c', 'o', 'm', 'm', 'i', 't', ' ', 'i', 't', ' ', 'a', 'n', 'y', 'w', 'a', 'y']);
        assert(conflict@ =~= seq!['C', 'O', 'N', 'F', 'L', 'I', 'C', 'T']);
        assert(anyway@ =~= seq![
            'I', 'f', ' ', 'y', 'o', 'u', ' ', 'w', 'i', 's', 'h', ' ', 't', 'o', ' ', 'c', 'o',
            'm', 'm', 'i', 't', ' ', 'i', 't', ' ', 'a', 'n', 'y', 'w', 'a', 'y',
        ]);
    }
    if success {
        MergeOutcome::Success
    } else if contains_str(output, conflict) {
        MergeOutcome::Conflict
    } else if contains_str(output, anyway) {
        MergeOutcome::UpToDate
    } else {
        MergeOutcome::Failed
    }
}

/// Whether `git status` reports a merge in progress (its text holds `merg`).
pub fn pending_merge(status_output: &str) -> (r: bool)
    ensures
        r == contains_seq(status_output@, seq!['m', 'e', 'r', 'g']),
{
    let merg = "merg";
    proof {
        reveal_strlit("merg");
        assert(("merg")@ =~= seq!['m', 'e', 'r', 'g']);
        assert(merg@ =~= seq!['m', 'e', 'r', 'g']);
    }
    contains_str(status_output, merg)
}

/// A list of strings from string literals' views.
fn strings(parts: &Vec<&str>) -> (r: Vec<String>)
    ensures
        views(r@) == parts@.map_values(|p: &str| p@),
{
    let mut out: Vec<String> = Vec::new();
    let mut i: usize = 0;
    while i < parts.len()
        invariant
            i <= parts@.len(),
            views(out@) == parts@.map_values(|p: &str| p@).subrange(0, i as int),
        decreases parts@.len() - i,
    {
        let ghost before = out@;
        let s = String::from_str(parts[i]);
        out.push(s);
        assert(views(out@) =~= views(before).push(s@));
        i = i + 1;
    }
    assert(parts@.map_values(|p: &str| p@).subrange(0, i as int) =~= parts@.map_values(|p: &str| p@));
    out
}

/// The branch names of git's branch listing: the first word of each line.
/// The names of the node a tag `t` is recorded at: its path without the
/// last segment.
pub open spec fn tag_node_names(t: Seq<char>) -> Seq<Seq<char>> {
    insert_names(
        spec_from_segments(spec_from_str(t).segments.subrange(0, spec_from_str(t).segments.len() - 1)).segments,
    )
}

/// The tag of line `k` of git's tag listing (the `*` marks removed).
pub open spec fn listed_tag(output: Seq<char>, k: int) -> Seq<char> {
    remove_char(spec_lines(output)[k], '*')
}

pub open spec fn branch_names(output: Seq<char>) -> Seq<Seq<char>> {
    spec_lines(output).map_values(|l: Seq<char>| split(l, ' ')[0])
}

/// The absolute path of a branch name.
pub open spec fn branch_path(name: Seq<char>) -> QPathView {
    spec_push(spec_from_str(Seq::<char>::empty()), name)
}

/// The absolute paths of the named branches among `names`, in order.
pub open spec fn listed_paths(names: Seq<Seq<char>>) -> Seq<QPathView> {
    names.filter(|n: Seq<char>| n.len() > 0).map_values(|n: Seq<char>| branch_path(n))
}

/// The tree model of a repository and how git is called on it.
pub struct GitInterface {
    model: TreeDataModel,
    raw_git_interface: GitCLI,
    repo_scanned: bool,
}

impl GitInterface {
    pub closed spec fn spec_model(&self) -> TreeDataModel {
        self.model
    }

    pub closed spec fn spec_cli(&self) -> GitCLI {
        self.raw_git_interface
    }

    pub closed spec fn spec_scanned(&self) -> bool {
        self.repo_scanned
    }

    /// Git in the current directory, with an empty model.
    pub fn default() -> (r: Self)
        ensures
            r.spec_cli().spec_path() == GitPath::CurrentDirectory,
            !r.spec_cli().spec_colored(),
            !r.spec_scanned(),
            r.spec_model().spec_root().spec_children().len() == 0,
            r.spec_model().spec_root().spec_type() == NodeType::VirtualRoot,
            r.spec_model().spec_root().spec_name() == Seq::<char>::empty(),
            !r.spec_model().spec_unknowns(),
            r.spec_model().spec_branch_paths().len() == 0,
    {
        Self::new(GitPath::CurrentDirectory)
    }

    /// Git in the directory `path`, with an empty model.
    pub fn in_directory(path: String) -> (r: Self)
        ensures
            r.spec_cli().spec_path() == GitPath::CustomDirectory(path),
            !r.spec_cli().spec_colored(),
            !r.spec_scanned(),
            r.spec_model().spec_root().spec_children().len() == 0,
            r.spec_model().spec_root().spec_type() == NodeType::VirtualRoot,
            r.spec_model().spec_root().spec_name() == Seq::<char>::empty(),
            !r.spec_model().spec_unknowns(),
            r.spec_model().spec_branch_paths().len() == 0,
    {
        Self::new(GitPath::CustomDirectory(path))
    }

    pub fn new(path: GitPath) -> (r: Self)
        ensures
            r.spec_cli().spec_path() == path,
            !r.spec_cli().spec_colored(),
            !r.spec_scanned(),
            r.spec_model().spec_root().spec_children().len() == 0,
            r.spec_model().spec_root().spec_type() == NodeType::VirtualRoot,
            r.spec_model().spec_root().spec_name() == Seq::<char>::empty(),
            !r.spec_model().spec_unknowns(),
            r.spec_model().spec_branch_paths().len() == 0,
    {
        let raw_interface = GitCLI::new(path);
        Self { model: TreeDataModel::new(), raw_git_interface: raw_interface, repo_scanned: false }
    }

    pub fn colored_output(&mut self, color: bool)
        ensures
            final(self).spec_cli().spec_colored() == color,
            final(self).spec_cli().spec_path() == old(self).spec_cli().spec_path(),
            final(self).spec_model() == old(self).spec_model(),
            final(self).spec_scanned() == old(self).spec_scanned(),
    {
        self.raw_git_interface.colored(color);
    }

    /// How git is called.
    pub fn get_cli(&self) -> (r: &GitCLI)
        ensures
            *r == self.spec_cli(),
    {
        &self.raw_git_interface
    }

    /// The model.
    pub fn get_model(&self) -> (r: &TreeDataModel)
        ensures
            *r == self.spec_model(),
    {
        &self.model
    }

    /// Fills the model from git's listings of branches (`name hash` per line)
    /// and of tags (one per line): each named branch with its head, then each
    /// tag.
    pub fn update_complete_model(&mut self, branch_output: &str, tag_output: &str)
        requires
            forall|i: int|
                0 <= i < spec_lines(branch_output@).len() ==> split(#[trigger] spec_lines(branch_output@)[i], ' ').len()
                    >= 2,
            forall|i: int|
                0 <= i < spec_lines(branch_output@).len() && split(spec_lines(branch_output@)[i], ' ')[0].len() > 0
                    ==> split(#[trigger] spec_lines(branch_output@)[i], ' ')[1].len() >= 8,
            forall|i: int|
                0 <= i < spec_lines(tag_output@).len() && remove_char(spec_lines(tag_output@)[i], '*').len() > 0
                    ==> spec_from_str(remove_char(#[trigger] spec_lines(tag_output@)[i], '*')).segments.len() > 0,
        ensures
            final(self).spec_scanned(),
            final(self).spec_cli() == old(self).spec_cli(),
            final(self).spec_model().spec_root().spec_type() == old(self).spec_model().spec_root().spec_type(),
            forall|q: Seq<Seq<char>>|
                lookup(old(self).spec_model().spec_root(), q) is Some ==> #[trigger] lookup(
                    final(self).spec_model().spec_root(),
                    q,
                ) is Some,
            final(self).spec_model().spec_branch_paths() == old(self).spec_model().spec_branch_paths()
                + listed_paths(branch_names(branch_output@)),
            forall|k: int|
                0 <= k < branch_names(branch_output@).len() && branch_names(branch_output@)[k].len() > 0 && insert_names(
                    spec_from_str(branch_names(branch_output@)[k]).segments,
                ).len() > 0 ==> #[trigger] lookup(
                    final(self).spec_model().spec_root(),
                    insert_names(spec_from_str(branch_names(branch_output@)[k]).segments),
                ) is Some,
            forall|k: int|
                0 <= k < spec_lines(tag_output@).len() && listed_tag(tag_output@, k).len() > 0
                    && tag_node_names(listed_tag(tag_output@, k)).len() > 0 ==> #[trigger] lookup(
                    final(self).spec_model().spec_root(),
                    tag_node_names(listed_tag(tag_output@, k)),
                ) is Some,
    {
        let branches = parse_branch_listing(branch_output);
        let mut i: usize = 0;
        let ghost start = self.model.spec_root();
        let ghost start_paths = self.model.spec_branch_paths();
        let ghost names = branch_names(branch_output@);
        while i < branches.len()
            invariant
                names == branch_names(branch_output@),
                names.len() == branches@.len(),
                self.model.spec_branch_paths() == start_paths + listed_paths(names.subrange(0, i as int)),
                forall|k: int|
                    0 <= k < i && names[k].len() > 0 && insert_names(spec_from_str(names[k]).segments).len() > 0 ==> #[trigger] lookup(
                        self.model.spec_root(),
                        insert_names(spec_from_str(names[k]).segments),
                    ) is Some,
                i <= branches@.len(),
                branches@.len() == spec_lines(branch_output@).len(),
                forall|k: int|
                    0 <= k < branches@.len() ==> (#[trigger] branches@[k]).0@ == split(spec_lines(branch_output@)[k], ' ')[0]
                        && branches@[k].1@ == split(spec_lines(branch_output@)[k], ' ')[1],
                forall|k: int|
                    0 <= k < spec_lines(branch_output@).len() && split(spec_lines(branch_output@)[k], ' ')[0].len() > 0
                        ==> split(#[trigger] spec_lines(branch_output@)[k], ' ')[1].len() >= 8,
                self.raw_git_interface == old(self).raw_git_interface,
                self.model.spec_root().spec_type() == start.spec_type(),
                forall|q: Seq<Seq<char>>| lookup(start, q) is Some ==> #[trigger] lookup(self.model.spec_root(), q) is Some,
            decreases branches@.len() - i,
        {
            let name = branches[i].0.clone();
            let head = branches[i].1.clone();
            assert(names[i as int] == name@);
            let ghost before_paths = self.model.spec_branch_paths();
            proof {
                assert(names.subrange(0, i + 1).drop_last() =~= names.subrange(0, i as int));
                assert(names.subrange(0, i + 1).last() == name@);
                reveal(Seq::filter);
            }
            if name.unicode_len() > 0 {
                assert(split(spec_lines(branch_output@)[i as int], ' ')[1].len() >= 8);
                let ghost before = self.model.spec_root();
                self.model.insert_git_branch(name, head);
                proof {
                    assert forall|q: Seq<Seq<char>>| lookup(start, q) is Some implies #[trigger] lookup(self.model.spec_root(), q) is Some by {
                        assert(lookup(before, q) is Some);
                    }
                    assert forall|k: int|
                        0 <= k < i + 1 && names[k].len() > 0 && insert_names(spec_from_str(names[k]).segments).len() > 0 implies #[trigger] lookup(
                            self.model.spec_root(),
                            insert_names(spec_from_str(names[k]).segments),
                        ) is Some by {
                        if k < i {
                            assert(lookup(before, insert_names(spec_from_str(names[k]).segments)) is Some);
                        }
                    }
                    assert(listed_paths(names.subrange(0, i + 1)) =~= listed_paths(names.subrange(0, i as int)).push(
                        branch_path(names[i as int]),
                    ));
                    assert(self.model.spec_branch_paths() =~= start_paths + listed_paths(names.subrange(0, i + 1)));
                }
            } else {
                proof {
                    assert(listed_paths(names.subrange(0, i + 1)) =~= listed_paths(names.subrange(0, i as int)));
                }
            }
            i = i + 1;
        }
        proof {
            assert(names.subrange(0, i as int) =~= names);
        }
        let ghost after_branches = self.model.spec_branch_paths();
        let tags = parse_tag_listing(tag_output);
        let mut j: usize = 0;
        while j < tags.len()
            invariant
                names == branch_names(branch_output@),
                self.model.spec_branch_paths() == after_branches,
                forall|k: int|
                    0 <= k < names.len() && names[k].len() > 0 && insert_names(spec_from_str(names[k]).segments).len() > 0 ==> #[trigger] lookup(
                        self.model.spec_root(),
                        insert_names(spec_from_str(names[k]).segments),
                    ) is Some,
                j <= tags@.len(),
                tags@.len() == spec_lines(tag_output@).len(),
                forall|k: int| 0 <= k < tags@.len() ==> (#[trigger] tags@[k])@ == remove_char(spec_lines(tag_output@)[k], '*'),
                forall|k: int|
                    0 <= k < spec_lines(tag_output@).len() && remove_char(spec_lines(tag_output@)[k], '*').len() > 0
                        ==> spec_from_str(remove_char(#[trigger] spec_lines(tag_output@)[k], '*')).segments.len() > 0,
                self.raw_git_interface == old(self).raw_git_interface,
                self.model.spec_root().spec_type() == start.spec_type(),
                forall|q: Seq<Seq<char>>| lookup(start, q) is Some ==> #[trigger] lookup(self.model.spec_root(), q) is Some,
                forall|k: int|
                    0 <= k < j && listed_tag(tag_output@, k).len() > 0
                        && tag_node_names(listed_tag(tag_output@, k)).len() > 0 ==> #[trigger] lookup(
                        self.model.spec_root(),
                        tag_node_names(listed_tag(tag_output@, k)),
                    ) is Some,
            decreases tags@.len() - j,
        {
            let tag = tags[j].clone();
            if tag.unicode_len() > 0 {
                assert(spec_from_str(tags@[j as int]@).segments.len() > 0);
                let ghost before = self.model.spec_root();
                self.model.insert_tag(tag);
                proof {
                    assert forall|q: Seq<Seq<char>>| lookup(start, q) is Some implies #[trigger] lookup(self.model.spec_root(), q) is Some by {
                        assert(lookup(before, q) is Some);
                    }
                    assert forall|k: int|
                        0 <= k < names.len() && names[k].len() > 0 && insert_names(spec_from_str(names[k]).segments).len() > 0 implies #[trigger] lookup(
                            self.model.spec_root(),
                            insert_names(spec_from_str(names[k]).segments),
                        ) is Some by {
                        assert(lookup(before, insert_names(spec_from_str(names[k]).segments)) is Some);
                    }
                    let t = tags@[j as int]@;
                    assert(t == listed_tag(tag_output@, j as int));
                    let rt = choose|rt: NodeType| #[trigger] inserted(
                        before,
                        self.model.spec_root(),
                        tag_node_names(t),
                        PayloadView::Tag(CommitTag::spec_new(t)),
                        rt,
                    );
                    assert forall|k: int|
                        0 <= k < j + 1 && listed_tag(tag_output@, k).len() > 0
                            && tag_node_names(listed_tag(tag_output@, k)).len() > 0 implies #[trigger] lookup(
                            self.model.spec_root(),
                            tag_node_names(listed_tag(tag_output@, k)),
                        ) is Some by {
                        if k < j {
                            assert(lookup(before, tag_node_names(listed_tag(tag_output@, k))) is Some);
                        }
                    }
                }
            } else {
                proof {
                    assert(tags@[j as int]@ == listed_tag(tag_output@, j as int));
                }
            }
            j = j + 1;
        }
        self.repo_scanned = true;
    }

    /// The path of the current branch `branch`: the empty root segment, then
    /// the pieces of the branch name.
    pub fn get_current_normalized_path(&self, branch: &str) -> (r: NormalizedPath)
        ensures
            r@ == spec_push(spec_from_str(Seq::<char>::empty()), branch@),
    {
        let empty = "";
        proof {
            reveal_strlit("");
            assert(("")@ =~= Seq::<char>::empty());
        }
        let mut base = NormalizedPath::from_str(empty);
        base.push(branch);
        base
    }

    /// The path of the virtual root.
    pub fn get_virtual_root(&self) -> (r: NodePath<VirtualRoot>)
        ensures
            r.spec_names().len() == 0,
            r.spec_unknown_mode() == self.spec_model().spec_unknowns(),
    {
        self.model.get_virtual_root()
    }

    /// Whether `path` leads to a node that can be typed with `T`.
    pub open spec fn spec_asserts<T: SymbolicNodeType>(&self, path: QPathView) -> bool {
        lookup(self.spec_model().spec_root(), query_names(path)) is Some && (self.spec_model().spec_unknowns()
            || T::spec_compatible(lookup(self.spec_model().spec_root(), query_names(path)).unwrap().spec_type()))
    }

    /// The node path of type `T` at `path`, or why there is none.
    pub fn assert_path<T: SymbolicNodeType>(&self, path: &NormalizedPath) -> (r: Result<
        NodePath<T>,
        PathAssertionError,
    >)
        requires
            path@.segments.len() > 0,
        ensures
            r matches Ok(p) ==> p.spec_names() == query_names(path@) && p.valid_in(&self.spec_model()),
            r is Ok <==> lookup(self.spec_model().spec_root(), query_names(path@)) is Some && (
            self.spec_model().spec_unknowns() || T::spec_compatible(
                lookup(self.spec_model().spec_root(), query_names(path@)).unwrap().spec_type(),
            )),
    {
        match self.model.assert_path::<T>(path) {
            Ok(p) => Ok(p),
            Err(ModelError::PathNotFound(e)) => Err(
                PathAssertionError::InvalidPath(InvalidPathError::PathNotFound(e)),
            ),
            Err(ModelError::WrongNodeType(e)) => Err(
                PathAssertionError::InvalidPath(InvalidPathError::WrongNodeType(e)),
            ),
        }
    }

    /// The node paths of type `T` at each of `paths`, or the first error.
    pub fn assert_paths<T: SymbolicNodeType>(&self, paths: &Vec<NormalizedPath>) -> (r: Result<
        Vec<NodePath<T>>,
        PathAssertionError,
    >)
        requires
            forall|i: int| 0 <= i < paths@.len() ==> (#[trigger] paths@[i])@.segments.len() > 0,
        ensures
            r matches Ok(v) ==> v@.len() == paths@.len() && forall|i: int|
                0 <= i < v@.len() ==> (#[trigger] v@[i]).spec_names() == query_names(paths@[i]@)
                    && v@[i].valid_in(&self.spec_model()),
            r is Ok <==> forall|i: int|
                0 <= i < paths@.len() ==> self.spec_asserts::<T>(#[trigger] paths@[i]@),
    {
        let mut out: Vec<NodePath<T>> = Vec::new();
        let mut i: usize = 0;
        while i < paths.len()
            invariant
                i <= paths@.len(),
                forall|k: int| 0 <= k < paths@.len() ==> (#[trigger] paths@[k])@.segments.len() > 0,
                out@.len() == i,
                forall|k: int| 0 <= k < i ==> (#[trigger] out@[k]).spec_names() == query_names(paths@[k]@)
                    && out@[k].valid_in(&self.spec_model()),
                forall|k: int| 0 <= k < i ==> self.spec_asserts::<T>(#[trigger] paths@[k]@),
            decreases paths@.len() - i,
        {
            match self.assert_path::<T>(&paths[i]) {
                Ok(p) => out.push(p),
                Err(e) => {
                    return Err(e);
                },
            }
            i = i + 1;
        }
        Ok(out)
    }

    /// The node path of type `T` of the current branch `branch`; a node of
    /// another type gives `fatal: current branch is not of type '<type>'`.
    pub fn assert_current_node_path<T: SymbolicNodeType>(&self, branch: &str) -> (r: Result<
        NodePath<T>,
        PathAssertionError,
    >)
        ensures
            r matches Ok(p) ==> p.spec_names() == query_names(spec_push(spec_from_str(Seq::<char>::empty()), branch@))
                && p.valid_in(&self.spec_model()),
            r is Ok <==> self.spec_asserts::<T>(spec_push(spec_from_str(Seq::<char>::empty()), branch@)),
            r matches Err(PathAssertionError::InvalidPath(InvalidPathError::PathNotFound(_))) <==> lookup(
                self.spec_model().spec_root(),
                query_names(spec_push(spec_from_str(Seq::<char>::empty()), branch@)),
            ) is None,
    {
        let current = self.get_current_normalized_path(branch);
        proof {
            crate::model::qualified_path::lemma_push_pieces_len(
                spec_from_str(Seq::<char>::empty()),
                crate::model::qualified_path::pieces_of(branch@),
            );
            assert(spec_from_str(Seq::<char>::empty()).segments.len() >= 1) by {
                crate::model::qualified_path::lemma_pieces_len(Seq::<char>::empty());
                crate::model::qualified_path::lemma_push_pieces_len(
                    crate::model::qualified_path::empty_view(),
                    crate::model::qualified_path::pieces_of(Seq::<char>::empty()),
                );
                lemma_empty_path_has_segment();
            }
        }
        match self.model.assert_path::<T>(&current) {
            Ok(p) => Ok(p),
            Err(ModelError::WrongNodeType(_)) => {
                let start = "fatal: current branch is not of type '";
                let end = "'";
                proof {
                    reveal_strlit("fatal: current branch is not of type '");
                    assert(("fatal: current branch is not of type '")@ =~= seq!['f', 'a', 't', 'a', 'l', ':', ' ', 'c', 'u', 'r', 'r', 'e', 'n', 't', ' ', 'b', 'r', 'a', 'n', 'c', 'h', ' ', 'i', 's', ' ', 'n', 'o', 't', ' ', 'o', 'f', ' ', 't', 'y', 'p', 'e', ' ', '\'']);
                    reveal_strlit("'");
                    assert(("'")@ =~= seq!['\'']);
                }
                let mut message = String::from_str(start);
                message.append(T::identifier().as_str());
                message.append(end);
                Err(PathAssertionError::InvalidPath(InvalidPathError::WrongNodeType(WrongNodeTypeError::new(message))))
            },
            Err(ModelError::PathNotFound(e)) => Err(PathAssertionError::InvalidPath(InvalidPathError::PathNotFound(e))),
        }
    }

    /// Whether a branch of type `T` may be created where the model decides a
    /// node of type `node_type`; if not, the message says what it would be.
    pub fn check_branch_type<T: SymbolicNodeType>(node_type: NodeType) -> (r: Result<(), WrongNodeTypeError>)
        ensures
            r is Ok <==> T::spec_compatible(node_type),
            r matches Err(e) ==> e.spec_message() == ("fatal: Expected to create branch of type '")@
                + T::spec_identifier() + ("', but it would be of type '")@
                + crate::model::node_type::spec_type_name(node_type) + ("'")@,
    {
        if T::is_compatible(&node_type) {
            Ok(())
        } else {
            let start = "fatal: Expected to create branch of type '";
            let middle = "', but it would be of type '";
            let end = "'";
            proof {
                reveal_strlit("fatal: Expected to create branch of type '");
                assert(("fatal: Expected to create branch of type '")@ =~= seq!['f', 'a', 't', 'a', 'l', ':', ' ', 'E', 'x', 'p', 'e', 'c', 't', 'e', 'd', ' ', 't', 'o', ' ', 'c', 'r', 'e', 'a', 't', 'e', ' ', 'b', 'r', 'a', 'n', 'c', 'h', ' ', 'o', 'f', ' ', 't', 'y', 'p', 'e', ' ', '\'']);
                reveal_strlit("', but it would be of type '");
                assert(("', but it would be of type '")@ =~= seq!['\'', ',', ' ', 'b', 'u', 't', ' ', 'i', 't', ' ', 'w', 'o', 'u', 'l', 'd', ' ', 'b', 'e', ' ', 'o', 'f', ' ', 't', 'y', 'p', 'e', ' ', '\'']);
                reveal_strlit("'");
                assert(("'")@ =~= seq!['\'']);
            }
            let mut message = String::from_str(start);
            message.append(T::identifier().as_str());
            message.append(middle);
            message.append(node_type.get_type_name().as_str());
            message.append(end);
            Err(WrongNodeTypeError::new(message))
        }
    }
}

/// The type of the node that the model gives a new branch named `branch`,
/// from the tree `before` the insertion and the tree `after` it: that of the
/// node at the branch's names, or of the root where there are none.
pub open spec fn branch_node_type(before: crate::model::node::Node, after: crate::model::node::Node, branch: Seq<char>) -> NodeType {
    let names = insert_names(spec_from_str(branch).segments);
    if names.len() > 0 {
        lookup(after, names).unwrap().spec_type()
    } else {
        before.spec_type()
    }
}

/// The full argument list with which git runs `args` through `cli`.
pub open spec fn spec_invocation(cli: GitCLI, args: Seq<Seq<char>>) -> Seq<Seq<char>> {
    spec_location_arguments(cli.spec_path()) + (if cli.spec_colored() {
        spec_color_arguments()
    } else {
        Seq::empty()
    }) + args
}

/// Appends the argument `a`.
fn push_arg(args: &mut Vec<String>, a: String)
    ensures
        views(final(args)@) == views(old(args)@).push(a@),
{
    let ghost before = args@;
    let ghost v = a@;
    args.push(a);
    assert(views(args@) =~= views(before).push(v));
}

/// The files that git lists, one per line (the output split at line
/// breaks, untrimmed).
pub fn parse_file_list(output: &str) -> (r: Vec<String>)
    ensures
        views(r@) == split(output@, '\n'),
{
    split_str(output, '\n')
}

/// The area of a path: its second segment, read as a path.
pub open spec fn spec_area_path(current: QPathView) -> QPathView {
    spec_from_str(current.segments[1])
}

impl GitInterface {
    fn invocation(&self, args: Vec<String>) -> (r: Vec<String>)
        ensures
            views(r@) == spec_invocation(self.spec_cli(), views(args@)),
    {
        self.raw_git_interface.prepare_command(&args)
    }

    /// How git initializes the repository, its first branch `main`.
    pub fn initialize_repo(&self) -> (r: Vec<String>)
        ensures
            views(r@) == spec_invocation(self.spec_cli(), seq![("init")@, ("--initial-branch=main")@]),
    {
        let args = strings(&vec!["init", "--initial-branch=main"]);
        assert(views(args@) =~= seq![("init")@, ("--initial-branch=main")@]);
        self.invocation(args)
    }

    /// How git shows the state of the working tree.
    pub fn status(&self) -> (r: Vec<String>)
        ensures
            views(r@) == spec_invocation(self.spec_cli(), seq![("status")@]),
    {
        let args = strings(&vec!["status"]);
        assert(views(args@) =~= seq![("status")@]);
        self.invocation(args)
    }

    /// How git switches to the branch of `path`.
    pub fn checkout(&self, path: &NormalizedPath) -> (r: Vec<String>)
        requires
            !(path@.head is Commit) ==> crate::model::qualified_path::spec_trim(path@.segments).segments.len() > 0,
        ensures
            views(r@) == spec_invocation(
                self.spec_cli(),
                seq![("checkout")@, crate::model::qualified_path::spec_git_object(path@)],
            ),
    {
        let mut args = strings(&vec!["checkout"]);
        let object = path.to_git_object();
        push_arg(&mut args, object);
        assert(views(args@) =~= seq![("checkout")@, crate::model::qualified_path::spec_git_object(path@)]);
        self.invocation(args)
    }

    /// Creates the branch of `path`, whose head is the commit `head`: the
    /// model takes the branch; where the node it gives is not of type `T`
    /// that is an error (the model keeps the branch); otherwise how git
    /// creates the branch.
    pub fn create_branch<T: SymbolicNodeType>(&mut self, path: &NormalizedPath, head: String) -> (r: Result<
        Vec<String>,
        WrongNodeTypeError,
    >)
        requires
            head@.len() >= 8,
            !(path@.head is Commit) ==> crate::model::qualified_path::spec_trim(path@.segments).segments.len() > 0,
        ensures
            final(self).spec_cli() == old(self).spec_cli(),
            crate::model::node::inserted(
                old(self).spec_model().spec_root(),
                final(self).spec_model().spec_root(),
                crate::model::node::insert_names(
                    spec_from_str(crate::model::qualified_path::spec_git_object(path@)).segments,
                ),
                crate::model::node::PayloadView::Branch(
                    crate::model::node::BranchData::spec_new(
                        Some(crate::model::qualified_path::spec_git_object(path@)),
                        Some(head@),
                    ),
                ),
                lookup(
                    final(self).spec_model().spec_root(),
                    crate::model::node::insert_names(
                        spec_from_str(crate::model::qualified_path::spec_git_object(path@)).segments,
                    ),
                ).unwrap().spec_type(),
            ) || crate::model::node::insert_names(
                spec_from_str(crate::model::qualified_path::spec_git_object(path@)).segments,
            ).len() == 0,
            r matches Ok(v) ==> views(v@) == spec_invocation(
                old(self).spec_cli(),
                seq![("branch")@, crate::model::qualified_path::spec_git_object(path@)],
            ),
            r is Ok <==> T::spec_compatible(
                branch_node_type(
                    old(self).spec_model().spec_root(),
                    final(self).spec_model().spec_root(),
                    crate::model::qualified_path::spec_git_object(path@),
                ),
            ),
            r matches Err(e) ==> e.spec_message() == ("fatal: Expected to create branch of type '")@
                + T::spec_identifier() + ("', but it would be of type '")@
                + crate::model::node_type::spec_type_name(
                branch_node_type(
                    old(self).spec_model().spec_root(),
                    final(self).spec_model().spec_root(),
                    crate::model::qualified_path::spec_git_object(path@),
                ),
            ) + ("'")@,
    {
        let branch = path.to_git_object();
        let ghost names = crate::model::node::insert_names(spec_from_str(branch@).segments);
        let node_type = self.model.insert_git_branch(branch, head);
        match Self::check_branch_type::<T>(node_type) {
            Err(e) => Err(e),
            Ok(()) => {
                let mut args = strings(&vec!["branch"]);
                push_arg(&mut args, path.to_git_object());
                assert(views(args@) =~= seq![("branch")@, crate::model::qualified_path::spec_git_object(path@)]);
                Ok(self.invocation(args))
            },
        }
    }

    /// How git deletes the branch of `path`.
    pub fn delete_branch(&self, path: &NormalizedPath) -> (r: Vec<String>)
        requires
            !(path@.head is Commit) ==> crate::model::qualified_path::spec_trim(path@.segments).segments.len() > 0,
        ensures
            views(r@) == spec_invocation(
                self.spec_cli(),
                seq![("branch")@, ("-D")@, crate::model::qualified_path::spec_git_object(path@)],
            ),
    {
        let mut args = strings(&vec!["branch", "-D"]);
        push_arg(&mut args, path.to_git_object());
        assert(views(args@) =~= seq![("branch")@, ("-D")@, crate::model::qualified_path::spec_git_object(path@)]);
        self.invocation(args)
    }

    /// How git merges `object` into the current branch.
    pub fn merge(&self, object: String) -> (r: Vec<String>)
        ensures
            views(r@) == spec_invocation(self.spec_cli(), seq![("merge")@, object@]),
    {
        let mut args = strings(&vec!["merge"]);
        let ghost o = object@;
        push_arg(&mut args, object);
        assert(views(args@) =~= seq![("merge")@, o]);
        self.invocation(args)
    }

    /// How git picks the commit of `object` onto the current branch, without
    /// committing where `no_commit`.
    pub fn cherry_pick(&self, object: String, no_commit: bool) -> (r: Vec<String>)
        ensures
            views(r@) == spec_invocation(
                self.spec_cli(),
                if no_commit {
                    seq![("cherry-pick")@, ("--no-commit")@, object@]
                } else {
                    seq![("cherry-pick")@, object@]
                },
            ),
    {
        let mut args = if no_commit {
            strings(&vec!["cherry-pick", "--no-commit"])
        } else {
            strings(&vec!["cherry-pick"])
        };
        let ghost o = object@;
        push_arg(&mut args, object);
        proof {
            if no_commit {
                assert(views(args@) =~= seq![("cherry-pick")@, ("--no-commit")@, o]);
            } else {
                assert(views(args@) =~= seq![("cherry-pick")@, o]);
            }
        }
        self.invocation(args)
    }

    /// How git aborts a merge.
    pub fn abort_merge(&self) -> (r: Vec<String>)
        ensures
            views(r@) == spec_invocation(self.spec_cli(), seq![("merge")@, ("--abort")@]),
    {
        let args = strings(&vec!["merge", "--abort"]);
        assert(views(args@) =~= seq![("merge")@, ("--abort")@]);
        self.invocation(args)
    }

    /// How git aborts a cherry-pick.
    pub fn abort_cherry_pick(&self) -> (r: Vec<String>)
        ensures
            views(r@) == spec_invocation(self.spec_cli(), seq![("cherry-pick")@, ("--abort")@]),
    {
        let args = strings(&vec!["cherry-pick", "--abort"]);
        assert(views(args@) =~= seq![("cherry-pick")@, ("--abort")@]);
        self.invocation(args)
    }

    /// How git shows the message of the commit `hash`.
    pub fn get_commit_from_hash(&self, hash: &CommitHash) -> (r: Vec<String>)
        ensures
            views(r@) == spec_invocation(
                self.spec_cli(),
                seq![("log")@, ("--format=%B")@, ("-n 1")@, hash@],
            ),
    {
        let mut args = strings(&vec!["log", "--format=%B", "-n 1"]);
        push_arg(&mut args, hash.get_full_hash().clone());
        assert(views(args@) =~= seq![("log")@, ("--format=%B")@, ("-n 1")@, hash@]);
        self.invocation(args)
    }

    /// How git lists the hashes of the last `n` commits of `object`.
    pub fn iter_commit_history(&self, object: String, n: i32) -> (r: Vec<String>)
        ensures
            views(r@) == spec_invocation(
                self.spec_cli(),
                seq![("log")@, ("-n")@, crate::text::spec_decimal(n as int), ("--format=%H")@, object@],
            ),
    {
        let mut args = strings(&vec!["log", "-n"]);
        push_arg(&mut args, crate::text::decimal_string(n));
        push_arg(&mut args, String::from_str("--format=%H"));
        let ghost o = object@;
        push_arg(&mut args, object);
        assert(views(args@) =~= seq![("log")@, ("-n")@, crate::text::spec_decimal(n as int), ("--format=%H")@, o]);
        self.invocation(args)
    }

    /// How git lists the files of `object`, recursively, by name.
    pub fn get_files_managed_by_branch(&self, object: String) -> (r: Vec<String>)
        ensures
            views(r@) == spec_invocation(
                self.spec_cli(),
                seq![("ls-tree")@, ("-r")@, ("--name-only")@, object@],
            ),
    {
        let mut args = strings(&vec!["ls-tree", "-r", "--name-only"]);
        let ghost o = object@;
        push_arg(&mut args, object);
        assert(views(args@) =~= seq![("ls-tree")@, ("-r")@, ("--name-only")@, o]);
        self.invocation(args)
    }

    /// How git lists the files that the commit `commit` changed, by name.
    pub fn get_files_changed_by_commit(&self, commit: &CommitHash) -> (r: Vec<String>)
        ensures
            views(r@) == spec_invocation(
                self.spec_cli(),
                seq![("diff-tree")@, ("--no-commit-id")@, ("--name-only")@, commit@, ("-r")@],
            ),
    {
        let mut args = strings(&vec!["diff-tree", "--no-commit-id", "--name-only"]);
        push_arg(&mut args, commit.get_full_hash().clone());
        push_arg(&mut args, String::from_str("-r"));
        assert(views(args@) =~= seq![("diff-tree")@, ("--no-commit-id")@, ("--name-only")@, commit@, ("-r")@]);
        self.invocation(args)
    }

    /// How git resets the current branch hard to `commit`.
    pub fn reset_hard(&self, commit: &CommitHash) -> (r: Vec<String>)
        ensures
            views(r@) == spec_invocation(self.spec_cli(), seq![("reset")@, ("--hard")@, commit@]),
    {
        let mut args = strings(&vec!["reset", "--hard"]);
        push_arg(&mut args, commit.get_full_hash().clone());
        assert(views(args@) =~= seq![("reset")@, ("--hard")@, commit@]);
        self.invocation(args)
    }

    /// How git commits with `message`, allowing an empty commit where
    /// `allow_empty`.
    pub fn commit(&self, message: String, allow_empty: bool) -> (r: Vec<String>)
        ensures
            views(r@) == spec_invocation(
                self.spec_cli(),
                if allow_empty {
                    seq![("commit")@, ("--allow-empty")@, ("-m")@, message@]
                } else {
                    seq![("commit")@, ("-m")@, message@]
                },
            ),
    {
        let mut args = if allow_empty {
            strings(&vec!["commit", "--allow-empty", "-m"])
        } else {
            strings(&vec!["commit", "-m"])
        };
        let ghost m = message@;
        push_arg(&mut args, message);
        proof {
            if allow_empty {
                assert(views(args@) =~= seq![("commit")@, ("--allow-empty")@, ("-m")@, m]);
            } else {
                assert(views(args@) =~= seq![("commit")@, ("-m")@, m]);
            }
        }
        self.invocation(args)
    }

    /// The area of the current branch `branch`: the node named by the second
    /// segment of its path. The branch must lie in an area of the model.
    pub fn get_current_area(&self, branch: &str) -> (r: NodePath<ConcreteArea>)
        requires
            spec_push(spec_from_str(Seq::<char>::empty()), branch@).segments.len() >= 2,
            lookup(
                self.spec_model().spec_root(),
                spec_area_path(spec_push(spec_from_str(Seq::<char>::empty()), branch@)).segments,
            ) is Some,
            self.spec_model().spec_unknowns() || ConcreteArea::spec_compatible(
                lookup(
                    self.spec_model().spec_root(),
                    spec_area_path(spec_push(spec_from_str(Seq::<char>::empty()), branch@)).segments,
                ).unwrap().spec_type(),
            ),
        ensures
            r.spec_names() == spec_area_path(spec_push(spec_from_str(Seq::<char>::empty()), branch@)).segments,
            r.valid_in(&self.spec_model()),
    {
        let current = self.get_current_normalized_path(branch);
        let area = NormalizedPath::from_str(current.index(1).as_str());
        self.model.get_area(&area).unwrap()
    }
}

/// Parsing the empty string gives one empty segment.
pub proof fn lemma_empty_path_has_segment()
    ensures
        spec_from_str(Seq::<char>::empty()).segments.len() >= 1,
{
    let e = Seq::<char>::empty();
    crate::text::lemma_remove_char_absent(e, '_');
    assert(remove_char(e, '_') =~= e);
    assert(trim(e) =~= e) by {
        crate::text::lemma_leading_ws_bound(e, 0);
    }
    assert(split(e, '/') =~= seq![e]);
    assert(crate::model::qualified_path::pieces_of(e) =~= seq![e]);
    let st = crate::model::qualified_path::empty_view();
    assert(seq![e].drop_last() =~= Seq::<Seq<char>>::empty());
    assert(crate::model::qualified_path::push_pieces(st, Seq::<Seq<char>>::empty()) == st);
    assert(!crate::text::is_prefix(seq!['t', ':'], e));
    assert(!crate::text::is_prefix(seq!['c', ':'], e));
}

} // verus!
