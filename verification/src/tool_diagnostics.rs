//! The rejection of programs that a build does not declare.

use vstd::prelude::*;

use crate::error::{error, fault, Error, ErrorKind, Fault};
use crate::path::{components, lies_in, parts_of, starts_with};
use crate::text::{cat2, cat4, cat5, join, joined};

verus! {

/// The error for a use of the host's programs.
pub open spec fn rejection(message: Seq<char>) -> Fault {
    fault(ErrorKind::PermissionDenied, "non-hermetic tool use rejected: "@ + message)
}

/// Whether `program` lies where the host keeps its programs.
pub open spec fn is_host_path(program: Seq<char>) -> bool {
    lies_in(program, "/usr/bin"@) || lies_in(program, "/bin"@) || lies_in(program, "/usr/local/bin"@)
}

/// Why running `program` is rejected, if it is: it is a bare name, which only
/// the host knows, or it lies where the host keeps its programs.
pub open spec fn command_rejection(program: Seq<char>, context: Seq<char>) -> Option<Fault> {
    if components(program).len() == 1 {
        Some(rejection(context + " uses undeclared bare host tool `"@ + program + "`"@))
    } else if is_host_path(program) {
        Some(rejection(context + " uses undeclared host tool path `"@ + program + "`"@))
    } else {
        None
    }
}

/// A program by a bare name, and one of the host's programs, is always rejected.
pub proof fn law_host_programs_rejected(program: Seq<char>, context: Seq<char>)
    requires
        components(program).len() == 1 || is_host_path(program),
    ensures
        command_rejection(program, context) matches Some(e) && e.kind == ErrorKind::PermissionDenied,
{
}

fn report(message: String) -> (r: Error)
    ensures
        r.deep_view() == rejection(message@),
{
    error(ErrorKind::PermissionDenied, cat2("non-hermetic tool use rejected: ", message.as_str()))
}

pub fn diagnose_command(program: &str, context: &str) -> (r: Result<(), Error>)
    ensures
        match r {
            Ok(_) => command_rejection(program@, context@) is None,
            Err(e) => command_rejection(program@, context@) == Some(e.deep_view()),
        },
{
    let parts = parts_of(program);
    assert(parts@.len() == components(program@).len());
    if parts.len() == 1 {
        return Err(report(cat4(context, " uses undeclared bare host tool `", program, "`")));
    }
    if starts_with(program, "/usr/bin") || starts_with(program, "/bin") || starts_with(program, "/usr/local/bin") {
        return Err(report(cat4(context, " uses undeclared host tool path `", program, "`")));
    }
    Ok(())
}

/// The error for a search of the host's directories `dirs` for `tool`.
pub open spec fn search_rejection(tool: Seq<char>, dirs: Seq<Seq<char>>) -> Fault {
    rejection("searching host paths ["@ + joined(dirs, ", "@) + "] for undeclared tool `"@ + tool + "`"@)
}

/// Rejects a search of the host's directories.
pub fn diagnose_host_path_search(tool: &str, dirs: &Vec<String>) -> (r: Result<(), Error>)
    ensures
        r matches Err(e) && e.deep_view() == search_rejection(tool@, dirs.deep_view()),
{
    Err(
        report(
            cat5(
                "searching host paths [",
                join(dirs, ", ").as_str(),
                "] for undeclared tool `",
                tool,
                "`",
            ),
        ),
    )
}

} // verus!
