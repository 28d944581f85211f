//! Text shared by the commands.
use vstd::prelude::*;
use vstd::string::*;

verus! {

/// A command as shown in help texts: in double quotes.
pub fn format_command_help(command: &str) -> (r: String)
    ensures
        r@ == seq!['"'] + command@ + seq!['"'],
{
    let quote = "\"";
    proof {
        reveal_strlit("\"");
        assert(quote@ =~= seq!['"']);
    }
    let mut s = String::from_str(quote);
    s.append(command);
    s.append(quote);
    s
}

/// The message after deleting a branch: `Deleted <type> branch <path>`.
pub fn deleted_message(kind_name: &str, path: &str) -> (r: String)
    ensures
        r@ == ("Deleted ")@ + kind_name@ + (" branch ")@ + path@,
{
    let mut s = String::from_str("Deleted ");
    s.append(kind_name);
    s.append(" branch ");
    s.append(path);
    s
}

} // verus!
