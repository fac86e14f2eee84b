//! The texts of the command that submits a query.

use vstd::prelude::*;
use vstd::string::StringExecFns;

verus! {

/// The name that the command goes by where it cannot tell its own.
pub open spec fn default_program() -> Seq<char> {
    "executor"@
}

/// The coordinator's address where none is given.
pub open spec fn default_coordinator() -> Seq<char> {
    "localhost:9189"@
}

/// The one-line summary of how the command is called.
pub open spec fn spec_brief(program: Seq<char>) -> Seq<char> {
    "Usage: "@ + program + " [options] -p FILE [<args>...]"@
}

/// What is printed when the command refuses its arguments: the reason, an
/// empty line, and the summary.
pub open spec fn spec_failure(reason: Seq<char>, brief: Seq<char>) -> Seq<char> {
    reason + "\n\n"@ + brief
}

/// The address under which executors fetch a binary that lies on their own
/// file system.
pub open spec fn spec_local_url(path: Seq<char>) -> Seq<char> {
    "file://"@ + path
}

/// The name of the command: its own where it knows it, `executor` else.
pub fn program_name(own: Option<String>) -> (name: String)
    ensures
        name@ == (match own {
            Some(n) => n@,
            None => default_program(),
        }),
{
    match own {
        Some(n) => n,
        None => String::from_str("executor"),
    }
}

/// The coordinator to talk to: the one that was given, `localhost:9189`
/// else.
pub fn coordinator_address(given: Option<String>) -> (addr: String)
    ensures
        addr@ == (match given {
            Some(a) => a@,
            None => default_coordinator(),
        }),
{
    match given {
        Some(a) => a,
        None => String::from_str("localhost:9189"),
    }
}

/// The one-line summary of how the command is called.
pub fn brief(program: &str) -> (text: String)
    ensures
        text@ == spec_brief(program@),
{
    String::from_str("Usage: ").concat(program).concat(" [options] -p FILE [<args>...]")
}

/// What is printed when the command refuses its arguments.
pub fn failure(reason: &str, brief: &str) -> (text: String)
    ensures
        text@ == spec_failure(reason@, brief@),
{
    String::from_str(reason).concat("\n\n").concat(brief)
}

/// The address under which executors fetch a binary that lies on their own
/// file system.
pub fn local_url(path: &str) -> (url: String)
    ensures
        url@ == spec_local_url(path@),
{
    String::from_str("file://").concat(path)
}

} // verus!
