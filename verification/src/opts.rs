use vstd::prelude::*;
use vstd::string::*;
use crate::oid::NonZeroOid;
use crate::text::{ends_with_str, is_char_prefix, is_char_suffix, starts_with_str};

verus! {

/// The revset that the smartlog shows where the user gives none.
pub const DEFAULT_SMARTLOG_REVSET: &'static str =
    "((draft() | branches() | @) % main()) | branches() | @";

/// What the name of a program that stands for one subcommand begins with.
pub const SUBCOMMAND_PROGRAM_PREFIX: &'static str = "git-branchless-";

/// The name of the program.
pub const PROGRAM_NAME: &'static str = "git-branchless";

/// A revset expression: a commit hash, a branch name, or one of the
/// revset functions.
#[derive(Debug)]
pub struct Revset(pub String);

impl Revset {
    /// The revset that the smartlog shows where the user gives none.
    pub fn default_smartlog_revset() -> (res: Self)
        ensures
            res.0@ == DEFAULT_SMARTLOG_REVSET@,
    {
        Revset(String::from_str(DEFAULT_SMARTLOG_REVSET))
    }

    /// The revset with the given text. Every text is a revset.
    pub fn from_str(s: &str) -> (res: Self)
        ensures
            res.0@ == s@,
    {
        Revset(String::from_str(s))
    }

    /// The text of the revset.
    pub fn to_string(&self) -> (res: String)
        ensures
            res@ == self.0@,
    {
        self.0.clone()
    }
}

/// A command wrapped by `git-branchless wrap`. The arguments are handed
/// on to `git`.
pub enum WrappedCommand {
    /// The wrapped command.
    WrappedCommand(Vec<String>),
}

/// Options for resolving revset expressions.
#[derive(Debug)]
pub struct ResolveRevsetOptions {
    /// Include hidden commits in the results.
    pub show_hidden_commits: bool,
}

impl Default for ResolveRevsetOptions {
    fn default() -> (res: Self)
        ensures
            !res.show_hidden_commits,
    {
        ResolveRevsetOptions { show_hidden_commits: false }
    }
}

/// Options for moving commits.
#[derive(Debug)]
pub struct MoveOptions {
    /// Move public commits too.
    pub force_rewrite_public_commits: bool,
    /// Rebase in memory only.
    pub force_in_memory: bool,
    /// Rebase on disk only.
    pub force_on_disk: bool,
    /// Skip commits whose patch is already applied.
    pub detect_duplicate_commits_via_patch_id: bool,
    /// Try to resolve merge conflicts.
    pub resolve_merge_conflicts: bool,
    /// Print the constraints of the rebase plan.
    pub dump_rebase_constraints: bool,
    /// Print the rebase plan.
    pub dump_rebase_plan: bool,
}

/// Options for traversing commits.
#[derive(Debug)]
pub struct TraverseCommitsOptions {
    /// The number of commits to traverse; one where none is given.
    pub num_commits: Option<usize>,
    /// Traverse as many commits as possible.
    pub all_the_way: bool,
    /// Count branches rather than commits.
    pub move_by_branches: bool,
    /// Among several next commits choose the oldest.
    pub oldest: bool,
    /// Among several next commits choose the newest.
    pub newest: bool,
    /// Among several next commits let the user choose.
    pub interactive: bool,
    /// Merge local changes that conflict with the destination.
    pub merge: bool,
    /// Discard local changes that conflict with the destination.
    pub force: bool,
}

/// Options for checking out a commit.
#[derive(Debug)]
pub struct SwitchOptions {
    /// Let the user select the commit.
    pub interactive: bool,
    /// Create a branch with this name at the target.
    pub branch_name: Option<String>,
    /// Discard changes of the working copy where necessary.
    pub force: bool,
    /// Start merge conflict resolution where changes do not apply.
    pub merge: bool,
    /// The commit or branch to check out.
    pub target: Option<String>,
}

/// The subcommands of the program.
#[allow(inconsistent_fields)]
pub enum Command {
    /// Amend the current HEAD commit.
    Amend { move_options: MoveOptions, reparent: bool },
    /// Gather information for a bug report.
    BugReport,
    /// Run internal garbage collection.
    Gc,
    /// Hide the provided commits from the smartlog.
    Hide {
        revsets: Vec<Revset>,
        resolve_revset_options: ResolveRevsetOptions,
        delete_branches: bool,
        recursive: bool,
    },
    /// Internal use.
    HookDetectEmptyCommit { old_commit_oid: String },
    /// Internal use.
    HookPreAutoGc,
    /// Internal use.
    HookPostApplypatch,
    /// Internal use.
    HookPostCheckout { previous_commit: String, current_commit: String, is_branch_checkout: isize },
    /// Internal use.
    HookPostCommit,
    /// Internal use.
    HookPostMerge { is_squash_merge: isize },
    /// Internal use.
    HookPostRewrite { rewrite_type: String },
    /// Internal use.
    HookReferenceTransaction { transaction_state: String },
    /// Internal use.
    HookRegisterExtraPostRewriteHook,
    /// Internal use.
    HookSkipUpstreamAppliedCommit { commit_oid: String },
    /// Initialize the branchless workflow for this repository.
    Init { uninstall: bool, main_branch_name: Option<String> },
    /// Move a subtree of commits from one location to another.
    Move {
        source: Vec<Revset>,
        base: Vec<Revset>,
        exact: Vec<Revset>,
        dest: Option<Revset>,
        resolve_revset_options: ResolveRevsetOptions,
        move_options: MoveOptions,
        insert: bool,
    },
    /// Move to a later commit in the current stack.
    Next { traverse_commits_options: TraverseCommitsOptions },
    /// Move to an earlier commit in the current stack.
    Prev { traverse_commits_options: TraverseCommitsOptions },
    /// Query the commit graph and print matching commits.
    Query {
        revset: Revset,
        resolve_revset_options: ResolveRevsetOptions,
        show_branches: bool,
        raw: bool,
    },
    /// Reconcile the internal operation log with the repository.
    Repair { dry_run: bool },
    /// Fix up commits abandoned by a previous rewrite operation.
    Restack {
        revsets: Vec<Revset>,
        resolve_revset_options: ResolveRevsetOptions,
        move_options: MoveOptions,
    },
    /// Create a commit by selecting which changes to include.
    Record { message: Option<String>, interactive: bool, branch: Option<String>, detach: bool },
    /// Reword commits.
    Reword {
        revsets: Vec<Revset>,
        resolve_revset_options: ResolveRevsetOptions,
        force_rewrite_public_commits: bool,
        messages: Vec<String>,
        discard: bool,
        commit_to_fixup: Option<Revset>,
    },
    /// Display a graph of the commits recently worked on.
    Smartlog {
        event_id: Option<isize>,
        revset: Option<Revset>,
        resolve_revset_options: ResolveRevsetOptions,
    },
    /// Manage working copy snapshots.
    Snapshot { subcommand: SnapshotSubcommand },
    /// Push commits to a remote.
    Submit { create: bool, revset: Revset, resolve_revset_options: ResolveRevsetOptions },
    /// Switch to the provided branch or commit.
    Switch { switch_options: SwitchOptions },
    /// Move any local commit stacks on top of the main branch.
    Sync {
        pull: bool,
        move_options: MoveOptions,
        revsets: Vec<Revset>,
        resolve_revset_options: ResolveRevsetOptions,
    },
    /// Run a command on each commit in a given set.
    Test { subcommand: TestSubcommand },
    /// Browse or return to a previous state of the repository.
    Undo { interactive: bool, yes: bool },
    /// Unhide previously hidden commits.
    Unhide { revsets: Vec<Revset>, resolve_revset_options: ResolveRevsetOptions, recursive: bool },
    /// Wrap a Git command inside a transaction.
    Wrap { git_executable: Option<String>, command: WrappedCommand },
}

/// Whether to display terminal colors.
#[derive(Clone, Copy, Debug, PartialEq, Eq, Structural)]
pub enum ColorSetting {
    /// Decide by the terminal and the environment.
    Auto,
    /// Always display terminal colors.
    Always,
    /// Never display terminal colors.
    Never,
}

/// How to execute tests.
#[derive(Clone, Copy, Debug, PartialEq, Eq, Structural)]
pub enum TestExecutionStrategy {
    /// Run the tests in the working copy.
    WorkingCopy,
    /// Run the tests in a separate worktree.
    Worktree,
}

/// The options of the program.
pub struct Opts {
    /// Change to this directory before anything else.
    pub working_directory: Option<String>,
    /// Force terminal colors on or off.
    pub color: Option<ColorSetting>,
    /// The subcommand to run.
    pub command: Command,
}

/// The `snapshot` subcommands.
pub enum SnapshotSubcommand {
    /// Create a snapshot of the working copy and reset the working copy.
    Create,
    /// Restore the working copy from the snapshot.
    Restore { snapshot_oid: NonZeroOid },
}

/// The `test` subcommands.
pub enum TestSubcommand {
    /// Clean any cached test results.
    Clean { revset: Revset, resolve_revset_options: ResolveRevsetOptions },
    /// Run a command on a set of commits.
    Run {
        exec_command: Option<String>,
        command: Option<String>,
        revset: Revset,
        resolve_revset_options: ResolveRevsetOptions,
        verbosity: u8,
        strategy: Option<TestExecutionStrategy>,
        jobs: Option<usize>,
    },
    /// Show the results of previous test runs.
    Show {
        exec_command: Option<String>,
        command: Option<String>,
        revset: Revset,
        resolve_revset_options: ResolveRevsetOptions,
        verbosity: u8,
    },
}

/// The views of a list of strings.
pub open spec fn string_views(strings: Seq<String>) -> Seq<Seq<char>> {
    Seq::new(strings.len(), |i: int| strings[i]@)
}

/// The name of a program without the suffix that programs have on the
/// machine, where the name ends with it.
pub open spec fn spec_bare_name(name: Seq<char>, exe_suffix: Seq<char>) -> Seq<char> {
    if is_char_suffix(exe_suffix, name) {
        name.subrange(0, name.len() - exe_suffix.len())
    } else {
        name
    }
}

/// The arguments as the program reads them, given the file name of the
/// program as its first argument tells it. Where that name, without the
/// suffix of programs, is `git-branchless-` and a subcommand, the first
/// argument is replaced by the name of the program and the subcommand.
/// Else the arguments stay as they are.
pub open spec fn spec_rewrite_args(
    args: Seq<Seq<char>>,
    exe_name: Option<Seq<char>>,
    exe_suffix: Seq<char>,
) -> Seq<Seq<char>> {
    if args.len() == 0 {
        args
    } else {
        match exe_name {
            None => args,
            Some(name) => {
                let bare = spec_bare_name(name, exe_suffix);
                if is_char_prefix(SUBCOMMAND_PROGRAM_PREFIX@, bare) {
                    seq![
                        PROGRAM_NAME@,
                        bare.subrange(SUBCOMMAND_PROGRAM_PREFIX@.len() as int, bare.len() as int),
                    ] + args.subrange(1, args.len() as int)
                } else {
                    args
                }
            },
        }
    }
}

/// The arguments as the program reads them, given the file name of the
/// program.
pub fn rewrite_args_for(args: Vec<String>, exe_name: Option<&str>, exe_suffix: &str) -> (res: Vec<
    String,
>)
    ensures
        string_views(res@) == spec_rewrite_args(
            string_views(args@),
            match exe_name {
                Some(n) => Some(n@),
                None => None,
            },
            exe_suffix@,
        ),
{
    if args.len() == 0 {
        return args;
    }
    let name = match exe_name {
        Some(name) => name,
        None => {
            return args;
        },
    };
    let bare: &str = if ends_with_str(name, exe_suffix) {
        name.substring_char(0, name.unicode_len() - exe_suffix.unicode_len())
    } else {
        name
    };
    if !starts_with_str(bare, SUBCOMMAND_PROGRAM_PREFIX) {
        return args;
    }
    let subcommand = bare.substring_char(
        SUBCOMMAND_PROGRAM_PREFIX.unicode_len(),
        bare.unicode_len(),
    );
    let mut out: Vec<String> = Vec::new();
    out.push(String::from_str(PROGRAM_NAME));
    out.push(String::from_str(subcommand));
    let ghost head = string_views(out@);
    let mut i: usize = 1;
    while i < args.len()
        invariant
            1 <= i <= args@.len(),
            out@.len() == i + 1,
            string_views(out@) == head + string_views(args@).subrange(1, i as int),
        decreases args.len() - i,
    {
        let ghost before = string_views(out@);
        out.push(args[i].clone());
        proof {
            assert(string_views(out@) =~= before.push(args@[i as int]@));
            assert(string_views(out@) =~= head + string_views(args@).subrange(1, i as int + 1));
        }
        i += 1;
    }
    proof {
        assert(head =~= seq![
            PROGRAM_NAME@,
            bare@.subrange(SUBCOMMAND_PROGRAM_PREFIX@.len() as int, bare@.len() as int),
        ]);
    }
    out
}

/// `std::path::Path::file_name` with `std::ffi::OsStr::to_str`: the last
/// component of a path, where it has one that is text. Nothing is claimed
/// of the outcome: what a component is depends on the machine.
#[verifier::external_body]
fn file_name_of(path: &str) -> (res: Option<String>) {
    std::path::Path::new(path).file_name().and_then(|n| n.to_str()).map(|n| n.to_owned())
}

/// The arguments as the program reads them. The program may be started
/// under a name that stands for one subcommand, like
/// `git-branchless-smartlog`; the arguments are then read as if it had been
/// started as `git-branchless smartlog`. `exe_suffix` is the suffix that
/// programs have on the machine.
pub fn rewrite_args(args: Vec<String>, exe_suffix: &str) -> (res: Vec<String>)
    ensures
        exists|exe_name: Option<Seq<char>>|
            string_views(res@) == spec_rewrite_args(string_views(args@), exe_name, exe_suffix@),
        args@.len() == 0 ==> res@.len() == 0,
{
    if args.len() == 0 {
        assert(string_views(args@) == spec_rewrite_args(
            string_views(args@),
            None,
            exe_suffix@,
        ));
        return args;
    }
    let exe_name = file_name_of(args[0].as_str());
    match &exe_name {
        Some(name) => {
            let res = rewrite_args_for(args, Some(name.as_str()), exe_suffix);
            assert(string_views(res@) == spec_rewrite_args(
                string_views(args@),
                Some(name@),
                exe_suffix@,
            ));
            res
        },
        None => {
            let res = rewrite_args_for(args, None, exe_suffix);
            assert(string_views(res@) == spec_rewrite_args(
                string_views(args@),
                None,
                exe_suffix@,
            ));
            res
        },
    }
}

} // verus!
