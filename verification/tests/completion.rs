use clap::parser::ValueSource;
use clap::{Arg, ArgAction, ArgMatches, Command};
use tangl::cli::completion::{currently_editing_with_range, ArgActionKind, ParsedArg};

fn setup_test_command() -> Command {
    let sub_command = Command::new("sub").arg(Arg::new("sub_option").short('s'));
    Command::new("mytool")
        .arg(Arg::new("option1").long("option1").short('a'))
        .arg(Arg::new("option2").long("option2").short('b').action(ArgAction::SetTrue))
        .arg(Arg::new("pos1"))
        .arg(Arg::new("pos2").action(ArgAction::Append))
        .subcommand(sub_command)
}

/// The innermost command of the line and what clap made of it.
fn descend<'a>(root: &'a Command, line: &[&str]) -> (&'a Command, ArgMatches) {
    let all = root.clone().ignore_errors(true).get_matches_from(line.to_vec());
    let mut command = root;
    let mut matches = &all;
    while let Some((name, sub)) = matches.subcommand() {
        match command.get_subcommands().find(|c| c.get_name() == name) {
            Some(c) => {
                command = c;
                matches = sub;
            }
            None => break,
        }
    }
    (command, matches.clone())
}

fn parsed(command: &Command, matches: &ArgMatches) -> Vec<ParsedArg> {
    matches
        .ids()
        .filter(|id| matches.value_source(id.as_str()) == Some(ValueSource::CommandLine))
        .filter_map(|id| {
            let arg = command.get_arguments().find(|a| a.get_id() == id)?;
            let action = match arg.get_action() {
                ArgAction::Set => ArgActionKind::SetOne,
                ArgAction::Append => ArgActionKind::Append,
                _ => ArgActionKind::Other,
            };
            let indices = matches.indices_of(id.as_str()).map(|i| i.collect()).unwrap_or_default();
            let value = match action {
                ArgActionKind::SetOne => matches.try_get_one::<String>(id.as_str()).ok().flatten().cloned(),
                _ => None,
            };
            Some(ParsedArg { id: id.to_string(), action, indices, value })
        })
        .collect()
}

fn editing(root: &Command, line: &[&str]) -> Option<String> {
    let (command, matches) = descend(root, line);
    let positionals: Vec<String> = command.get_positionals().map(|a| a.get_id().to_string()).collect();
    let last = line.last().map(|s| s.to_string());
    currently_editing_with_range(&parsed(command, &matches), &positionals, last.as_ref()).map(|(_, id)| id)
}

#[test]
fn test_currently_editing_empty() {
    let cmd = setup_test_command();
    assert_eq!(editing(&cmd, &["mytool"]), None);
}

#[test]
fn test_currently_editing_one_option_empty() {
    let cmd = setup_test_command();
    assert_eq!(editing(&cmd, &["mytool", "--option1"]).unwrap(), "option1");
}

#[test]
fn test_currently_editing_one_option_edited() {
    let cmd = setup_test_command();
    assert_eq!(editing(&cmd, &["mytool", "--option1", "abc"]).unwrap(), "option1");
}

#[test]
fn test_currently_editing_one_option_finished() {
    let cmd = setup_test_command();
    assert_eq!(editing(&cmd, &["mytool", "--option1", "abc", ""]).unwrap(), "pos1");
}

#[test]
fn test_currently_editing_one_option_one_positional() {
    let cmd = setup_test_command();
    assert_eq!(editing(&cmd, &["mytool", "--option1", "abc", "foo"]).unwrap(), "pos1");
}

#[test]
fn test_currently_editing_one_positional() {
    let cmd = setup_test_command();
    assert_eq!(editing(&cmd, &["mytool", "abc"]).unwrap(), "pos1".to_string());
}

#[test]
fn test_currently_editing_append() {
    let cmd = setup_test_command();
    assert_eq!(editing(&cmd, &["mytool", "abc", "a", "b", "c", "d"]).unwrap(), "pos2");
}

#[test]
fn test_currently_editing_boolean() {
    let cmd = setup_test_command();
    assert_eq!(editing(&cmd, &["mytool", "-b", ""]).unwrap(), "pos1".to_string());
}

#[test]
fn test_currently_editing_subcommands() {
    let cmd = setup_test_command();
    assert_eq!(editing(&cmd, &["mytool", "-b", "sub", "-s", "abc"]).unwrap(), "sub_option".to_string());
}

/// The values of the argument being edited.
fn appendix(root: &Command, line: &[&str]) -> Vec<String> {
    let (_, matches) = descend(root, line);
    match editing(root, line) {
        Some(id) => matches
            .try_get_many::<String>(&id)
            .ok()
            .flatten()
            .map(|v| v.cloned().collect())
            .unwrap_or_default(),
        None => vec![],
    }
}

#[test]
fn test_get_all_of_currently_edited_except_last() {
    let cmd = setup_test_command();
    assert_eq!(appendix(&cmd, &["mytool", "foo", "a", "b", "c"]), vec!["a", "b", "c"])
}

#[test]
fn test_get_all_of_currently_edited_empty() {
    let cmd = Command::new("mytool");
    assert_eq!(appendix(&cmd, &["mytool"]), Vec::<String>::new(),);
    assert_eq!(appendix(&cmd, &[]), Vec::<String>::new(),)
}

#[test]
fn completion_rules_on_plain_values() {
    let set = |id: &str, indices: Vec<usize>, value: &str| ParsedArg {
        id: id.to_string(),
        action: ArgActionKind::SetOne,
        indices,
        value: Some(value.to_string()),
    };
    let positionals = vec!["pos1".to_string()];
    let last = "x".to_string();
    assert_eq!(currently_editing_with_range(&vec![], &positionals, Some(&last)), None);
    assert_eq!(
        currently_editing_with_range(&vec![set("o", vec![2], "x")], &positionals, Some(&last)),
        Some((Some((2, 2)), "o".to_string()))
    );
    assert_eq!(
        currently_editing_with_range(&vec![set("o", vec![2], "y"), set("pos1", vec![3], "z")], &positionals, Some(&last)),
        Some((None, "pos1".to_string()))
    );
}
