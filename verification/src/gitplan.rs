//! The version-control commands the comparison workspace needs, planned as
//! plain values: the library decides the exact program, arguments and
//! working directory of each invocation, and the surrounding program runs
//! them.

use vstd::prelude::*;

verus! {

/// One planned invocation of an external program.
pub struct PlannedCommand {
    /// The program to run.
    pub program: String,
    /// Its arguments, in order.
    pub args: Vec<String>,
    /// The directory to run it in.
    pub cwd: String,
}

/// The command that adds a detached worktree of the given revision.
pub fn worktree_add_command(repo: &str, worktree: &str, revision: &str) -> (c: PlannedCommand)
    ensures
        c.program@ == "git"@,
        c.args@.len() == 6,
        c.args@[0]@ == "worktree"@,
        c.args@[1]@ == "add"@,
        c.args@[2]@ == "--force"@,
        c.args@[3]@ == "--detach"@,
        c.args@[4]@ == worktree@,
        c.args@[5]@ == revision@,
        c.cwd@ == repo@,
{
    let mut args: Vec<String> = Vec::new();
    args.push("worktree".to_owned());
    args.push("add".to_owned());
    args.push("--force".to_owned());
    args.push("--detach".to_owned());
    args.push(worktree.to_owned());
    args.push(revision.to_owned());
    PlannedCommand { program: "git".to_owned(), args, cwd: repo.to_owned() }
}

/// The command that prunes stale worktree records.
pub fn worktree_prune_command(repo: &str) -> (c: PlannedCommand)
    ensures
        c.program@ == "git"@,
        c.args@.len() == 2,
        c.args@[0]@ == "worktree"@,
        c.args@[1]@ == "prune"@,
        c.cwd@ == repo@,
{
    let mut args: Vec<String> = Vec::new();
    args.push("worktree".to_owned());
    args.push("prune".to_owned());
    PlannedCommand { program: "git".to_owned(), args, cwd: repo.to_owned() }
}

/// The command that names the checked-out revision.
pub fn rev_parse_head_command(repo: &str) -> (c: PlannedCommand)
    ensures
        c.program@ == "git"@,
        c.args@.len() == 2,
        c.args@[0]@ == "rev-parse"@,
        c.args@[1]@ == "HEAD"@,
        c.cwd@ == repo@,
{
    let mut args: Vec<String> = Vec::new();
    args.push("rev-parse".to_owned());
    args.push("HEAD".to_owned());
    PlannedCommand { program: "git".to_owned(), args, cwd: repo.to_owned() }
}

/// The command that names the repository's top-level directory.
pub fn rev_parse_toplevel_command(start: &str) -> (c: PlannedCommand)
    ensures
        c.program@ == "git"@,
        c.args@.len() == 2,
        c.args@[0]@ == "rev-parse"@,
        c.args@[1]@ == "--show-toplevel"@,
        c.cwd@ == start@,
{
    let mut args: Vec<String> = Vec::new();
    args.push("rev-parse".to_owned());
    args.push("--show-toplevel".to_owned());
    PlannedCommand { program: "git".to_owned(), args, cwd: start.to_owned() }
}

} // verus!
