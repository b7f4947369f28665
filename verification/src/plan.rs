//! The action model: what the pipeline decides to run.
//!
//! Every step handler here is a pure planner: it takes the configuration
//! and the values the outside world has answered so far (captured command
//! output, the clock) and returns the exact ordered list of actions the
//! step performs.  The driver executes actions in order and stops at the
//! first failure; a `Capture` action marks where the driver runs a query
//! whose output feeds the following planning phase.

use vstd::prelude::*;
use vstd::string::StrSliceExecFns;
use vstd::string::StringSliceAdditionalSpecFns;
use vstd::utf8::encode_utf8;

use crate::decode::{
    decoded_names, decoded_updates, decode_name_list, decode_update_list, CandidateV,
    UpdateCandidate,
};
use crate::template::{resolved, substituted};
use crate::text::{
    bytes_eq, contains_seq, dec_digits, lemma_occurs_extend, lemma_occurs_in_add, occurs_at,
    push_all, u64_to_dec,
};
use crate::{Cli, Step};

verus! {

/// An external command: a program and its arguments, each an
/// operating-system argument of its own.
#[derive(Clone, Debug, PartialEq, Eq)]
pub struct Cmd {
    pub program: Vec<u8>,
    pub args: Vec<Vec<u8>>,
}

/// The mathematical value of a [`Cmd`].
#[verifier::ext_equal]
pub ghost struct CmdV {
    pub program: Seq<u8>,
    pub args: Seq<Seq<u8>>,
}

impl DeepView for Cmd {
    type V = CmdV;

    open spec fn deep_view(&self) -> CmdV {
        CmdV { program: self.program@, args: self.args.deep_view() }
    }
}

/// One thing the pipeline does, in the order planned.
///
/// `Stream` runs a command and forwards its output to the operator as it
/// arrives; `Capture` runs a query whose output is collected and fed
/// back into planning; `EnsureParent` creates the parent directory of a
/// path; `RemovePath` removes a file or directory if it is present, and
/// is no error when it is not.
///
/// The exit status of a run command is deliberately not inspected: the
/// pipeline trusts the side effects of the tools it drives, so a commit
/// on a clean tree may exit non-zero without aborting the run.  Only a
/// command that cannot be spawned, or whose output cannot be read, and
/// an existing path that cannot be removed, fail the run.
#[derive(Clone, Debug, PartialEq, Eq)]
pub enum Action {
    Stream(Cmd),
    Capture(Cmd),
    EnsureParent(Vec<u8>),
    RemovePath(Vec<u8>),
}

/// The mathematical value of an [`Action`].
#[verifier::ext_equal]
pub ghost enum ActionV {
    Stream(CmdV),
    Capture(CmdV),
    EnsureParent(Seq<u8>),
    RemovePath(Seq<u8>),
}

impl DeepView for Action {
    type V = ActionV;

    open spec fn deep_view(&self) -> ActionV {
        match self {
            Action::Stream(c) => ActionV::Stream(c.deep_view()),
            Action::Capture(c) => ActionV::Capture(c.deep_view()),
            Action::EnsureParent(p) => ActionV::EnsureParent(p@),
            Action::RemovePath(p) => ActionV::RemovePath(p@),
        }
    }
}

/// Pushing onto a vector pushes the element's value onto the vector's
/// value.
pub proof fn lemma_deep_view_push<T: DeepView>(a: Vec<T>, b: Vec<T>, x: T)
    requires
        a@ == b@.push(x),
    ensures
        a.deep_view() == b.deep_view().push(x.deep_view()),
{
    assert(a.deep_view() =~= b.deep_view().push(x.deep_view())) by {
        assert forall|k: int| 0 <= k < a@.len() implies a.deep_view()[k] == b.deep_view().push(
            x.deep_view(),
        )[k] by {
            if k < b@.len() {
                assert(a@[k] == b@[k]);
            } else {
                assert(a@[k] == x);
            }
        }
    }
}

/// Concatenating vectors concatenates their values.
pub proof fn lemma_deep_view_add<T: DeepView>(a: Vec<T>, b: Vec<T>, c: Vec<T>)
    requires
        a@ == b@ + c@,
    ensures
        a.deep_view() == b.deep_view() + c.deep_view(),
{
    assert(a.deep_view() =~= b.deep_view() + c.deep_view()) by {
        assert forall|k: int|
            0 <= k < a@.len() implies a.deep_view()[k] == (b.deep_view() + c.deep_view())[k] by {
            if k < b@.len() {
                assert(a@[k] == b@[k]);
            } else {
                assert(a@[k] == c@[k - b@.len()]);
            }
        }
    }
}

/// The byte rendering of a sequence of strings.
pub open spec fn strs_view(ss: Seq<String>) -> Seq<Seq<u8>> {
    Seq::new(ss.len(), |i: int| encode_utf8(ss[i]@))
}

/// The mathematical value of the configuration, with every string
/// rendered as its bytes.
#[verifier::ext_equal]
pub ghost struct CliV {
    pub commit_prefix: Option<Seq<u8>>,
    pub database_file_path: Seq<u8>,
    pub exclude_plugins: Seq<Seq<u8>>,
    pub exclude_themes: Seq<Seq<u8>>,
    pub no_backup_database: bool,
    pub no_commit: bool,
    pub separator: Seq<u8>,
    pub steps: Seq<Step>,
    pub remove_paths: Seq<Seq<u8>>,
    pub wordpress_path: Seq<u8>,
}

/// The value of a [`Cli`].
pub open spec fn cli_view(cli: &Cli) -> CliV {
    CliV {
        commit_prefix: match cli.commit_prefix {
            Some(p) => Some(encode_utf8(p@)),
            None => None,
        },
        database_file_path: encode_utf8(cli.database_file_path@),
        exclude_plugins: strs_view(cli.exclude_plugins@),
        exclude_themes: strs_view(cli.exclude_themes@),
        no_backup_database: cli.no_backup_database,
        no_commit: cli.no_commit,
        separator: encode_utf8(cli.separator@),
        steps: cli.steps@,
        remove_paths: strs_view(cli.remove_paths@),
        wordpress_path: encode_utf8(cli.wordpress_path@),
    }
}

/// The exclusion set that applies to a per-item step.
pub open spec fn excluded_names(c: CliV, kind: Step) -> Seq<Seq<u8>> {
    if kind == Step::Plugins {
        c.exclude_plugins
    } else {
        c.exclude_themes
    }
}

/// The `--path=<installation path>` argument every tool call carries.
pub open spec fn path_arg(wp: Seq<u8>) -> Seq<u8> {
    "--path=".spec_bytes() + wp
}

fn path_arg_x(wp: &[u8]) -> (v: Vec<u8>)
    ensures
        v@ == path_arg(wp@),
{
    let mut v = "--path=".as_bytes_vec();
    push_all(&mut v, wp);
    v
}

fn wordpress_path_bytes(cli: &Cli) -> (v: Vec<u8>)
    ensures
        v@ == cli_view(cli).wordpress_path,
{
    cli.wordpress_path.as_str().as_bytes_vec()
}

/// The query for the currently active plugins.
pub open spec fn active_list_cmd_v(wp: Seq<u8>) -> CmdV {
    CmdV {
        program: "wp".spec_bytes(),
        args: seq![
            "plugin".spec_bytes(),
            "list".spec_bytes(),
            "--fields=name".spec_bytes(),
            "--status=active".spec_bytes(),
            "--format=json".spec_bytes(),
            path_arg(wp),
        ],
    }
}

/// Builds the active-plugin query for the configured installation.
pub fn active_list_cmd(cli: &Cli) -> (c: Cmd)
    ensures
        c.deep_view() == active_list_cmd_v(cli_view(cli).wordpress_path),
{
    let wp = wordpress_path_bytes(cli);
    let mut args: Vec<Vec<u8>> = Vec::new();
    args.push("plugin".as_bytes_vec());
    args.push("list".as_bytes_vec());
    args.push("--fields=name".as_bytes_vec());
    args.push("--status=active".as_bytes_vec());
    args.push("--format=json".as_bytes_vec());
    args.push(path_arg_x(wp.as_slice()));
    let c = Cmd { program: "wp".as_bytes_vec(), args };
    proof {
        assert(c.deep_view() =~~= active_list_cmd_v(cli_view(cli).wordpress_path));
    }
    c
}

/// The query for the installed core version.
pub open spec fn version_cmd_v(wp: Seq<u8>) -> CmdV {
    CmdV {
        program: "wp".spec_bytes(),
        args: seq!["core".spec_bytes(), "version".spec_bytes(), path_arg(wp)],
    }
}

/// Builds the core-version query for the configured installation.
pub fn version_cmd(cli: &Cli) -> (c: Cmd)
    ensures
        c.deep_view() == version_cmd_v(cli_view(cli).wordpress_path),
{
    let wp = wordpress_path_bytes(cli);
    let mut args: Vec<Vec<u8>> = Vec::new();
    args.push("core".as_bytes_vec());
    args.push("version".as_bytes_vec());
    args.push(path_arg_x(wp.as_slice()));
    let c = Cmd { program: "wp".as_bytes_vec(), args };
    proof {
        assert(c.deep_view() =~~= version_cmd_v(cli_view(cli).wordpress_path));
    }
    c
}

/// The per-item-step subcommand: `plugin` or `theme`.
pub open spec fn subcommand(kind: Step) -> Seq<u8> {
    if kind == Step::Plugins {
        "plugin".spec_bytes()
    } else {
        "theme".spec_bytes()
    }
}

/// The query for the items of a kind with an update available.
pub open spec fn update_list_cmd_v(kind: Step, wp: Seq<u8>) -> CmdV {
    CmdV {
        program: "wp".spec_bytes(),
        args: seq![
            subcommand(kind),
            "list".spec_bytes(),
            "--update=available".spec_bytes(),
            "--fields=name,version,update_version".spec_bytes(),
            "--format=json".spec_bytes(),
            path_arg(wp),
        ],
    }
}

/// Builds the update-list query of the given kind.
pub fn update_list_cmd(cli: &Cli, kind: Step) -> (c: Cmd)
    ensures
        c.deep_view() == update_list_cmd_v(kind, cli_view(cli).wordpress_path),
{
    let wp = wordpress_path_bytes(cli);
    let mut args: Vec<Vec<u8>> = Vec::new();
    if kind == Step::Plugins {
        args.push("plugin".as_bytes_vec());
    } else {
        args.push("theme".as_bytes_vec());
    }
    args.push("list".as_bytes_vec());
    args.push("--update=available".as_bytes_vec());
    args.push("--fields=name,version,update_version".as_bytes_vec());
    args.push("--format=json".as_bytes_vec());
    args.push(path_arg_x(wp.as_slice()));
    let c = Cmd { program: "wp".as_bytes_vec(), args };
    proof {
        assert(c.deep_view() =~~= update_list_cmd_v(kind, cli_view(cli).wordpress_path));
    }
    c
}

/// The command that deactivates (or reactivates) the given plugins.
pub open spec fn toggle_cmd_v(wp: Seq<u8>, names: Seq<Seq<u8>>, activate: bool) -> CmdV {
    CmdV {
        program: "wp".spec_bytes(),
        args: seq![
            "plugin".spec_bytes(),
            if activate {
                "activate".spec_bytes()
            } else {
                "deactivate".spec_bytes()
            },
        ] + names + seq![path_arg(wp)],
    }
}

/// Builds the plugin (de)activation command for the given names.
pub fn toggle_cmd(cli: &Cli, names: &Vec<Vec<u8>>, activate: bool) -> (c: Cmd)
    ensures
        c.deep_view() == toggle_cmd_v(cli_view(cli).wordpress_path, names.deep_view(), activate),
{
    let ghost head: Seq<Seq<u8>> = seq![
        "plugin".spec_bytes(),
        if activate {
            "activate".spec_bytes()
        } else {
            "deactivate".spec_bytes()
        },
    ];
    let wp = wordpress_path_bytes(cli);
    let mut args: Vec<Vec<u8>> = Vec::new();
    args.push("plugin".as_bytes_vec());
    if activate {
        args.push("activate".as_bytes_vec());
    } else {
        args.push("deactivate".as_bytes_vec());
    }
    proof {
        assert(args.deep_view() =~~= head + names.deep_view().take(0));
    }
    let mut i: usize = 0;
    while i < names.len()
        invariant
            0 <= i <= names@.len(),
            head == (seq![
                "plugin".spec_bytes(),
                if activate {
                    "activate".spec_bytes()
                } else {
                    "deactivate".spec_bytes()
                },
            ]),
            args.deep_view() == head + names.deep_view().take(i as int),
        decreases names@.len() - i,
    {
        let mut n: Vec<u8> = Vec::new();
        push_all(&mut n, names[i].as_slice());
        proof {
            assert(n@ =~= names@[i as int]@);
        }
        let ghost old_args = args;
        let ghost gn = n;
        args.push(n);
        proof {
            lemma_deep_view_push(args, old_args, gn);
            assert(gn.deep_view() =~= names@[i as int].deep_view());
            assert(names.deep_view().take(i + 1) =~= names.deep_view().take(i as int).push(
                names@[i as int].deep_view(),
            ));
            assert(args.deep_view() =~= head + names.deep_view().take(i + 1));
        }
        i = i + 1;
    }
    proof {
        assert(names.deep_view().take(names@.len() as int) =~= names.deep_view());
    }
    args.push(path_arg_x(wp.as_slice()));
    let c = Cmd { program: "wp".as_bytes_vec(), args };
    proof {
        assert(c.deep_view() =~~= toggle_cmd_v(
            cli_view(cli).wordpress_path,
            names.deep_view(),
            activate,
        ));
    }
    c
}

/// The core-update command.
pub open spec fn core_update_cmd_v(wp: Seq<u8>) -> CmdV {
    CmdV {
        program: "wp".spec_bytes(),
        args: seq!["core".spec_bytes(), "update".spec_bytes(), path_arg(wp)],
    }
}

/// Builds the core-update command.
pub fn core_update_cmd(cli: &Cli) -> (c: Cmd)
    ensures
        c.deep_view() == core_update_cmd_v(cli_view(cli).wordpress_path),
{
    let wp = wordpress_path_bytes(cli);
    let mut args: Vec<Vec<u8>> = Vec::new();
    args.push("core".as_bytes_vec());
    args.push("update".as_bytes_vec());
    args.push(path_arg_x(wp.as_slice()));
    let c = Cmd { program: "wp".as_bytes_vec(), args };
    proof {
        assert(c.deep_view() =~~= core_update_cmd_v(cli_view(cli).wordpress_path));
    }
    c
}

/// The command that updates one item of a kind.
pub open spec fn item_update_cmd_v(kind: Step, wp: Seq<u8>, name: Seq<u8>) -> CmdV {
    CmdV {
        program: "wp".spec_bytes(),
        args: seq![subcommand(kind), "update".spec_bytes(), name, path_arg(wp)],
    }
}

/// Builds the update command for one item.
pub fn item_update_cmd(cli: &Cli, kind: Step, name: &[u8]) -> (c: Cmd)
    ensures
        c.deep_view() == item_update_cmd_v(kind, cli_view(cli).wordpress_path, name@),
{
    let wp = wordpress_path_bytes(cli);
    let mut args: Vec<Vec<u8>> = Vec::new();
    if kind == Step::Plugins {
        args.push("plugin".as_bytes_vec());
    } else {
        args.push("theme".as_bytes_vec());
    }
    args.push("update".as_bytes_vec());
    let mut n: Vec<u8> = Vec::new();
    push_all(&mut n, name);
    args.push(n);
    args.push(path_arg_x(wp.as_slice()));
    let c = Cmd { program: "wp".as_bytes_vec(), args };
    proof {
        assert(c.deep_view() =~~= item_update_cmd_v(kind, cli_view(cli).wordpress_path, name@));
    }
    c
}

/// The database-export command against a destination path.
pub open spec fn export_cmd_v(wp: Seq<u8>, dest: Seq<u8>) -> CmdV {
    CmdV {
        program: "wp".spec_bytes(),
        args: seq![
            "db".spec_bytes(),
            "export".spec_bytes(),
            dest,
            "--defaults".spec_bytes(),
            path_arg(wp),
        ],
    }
}

fn export_cmd(cli: &Cli, dest: &[u8]) -> (c: Cmd)
    ensures
        c.deep_view() == export_cmd_v(cli_view(cli).wordpress_path, dest@),
{
    let wp = wordpress_path_bytes(cli);
    let mut args: Vec<Vec<u8>> = Vec::new();
    args.push("db".as_bytes_vec());
    args.push("export".as_bytes_vec());
    let mut d: Vec<u8> = Vec::new();
    push_all(&mut d, dest);
    args.push(d);
    args.push("--defaults".as_bytes_vec());
    args.push(path_arg_x(wp.as_slice()));
    let c = Cmd { program: "wp".as_bytes_vec(), args };
    proof {
        assert(c.deep_view() =~~= export_cmd_v(cli_view(cli).wordpress_path, dest@));
    }
    c
}

/// One of the three translation-pack update commands.
pub open spec fn language_cmd_v(scope: Seq<u8>, all: bool, wp: Seq<u8>) -> CmdV {
    CmdV {
        program: "wp".spec_bytes(),
        args: seq!["language".spec_bytes(), scope, "update".spec_bytes()] + (if all {
            seq!["--all".spec_bytes()]
        } else {
            Seq::empty()
        }) + seq![path_arg(wp)],
    }
}

fn language_cmd(cli: &Cli, scope: &str, all: bool) -> (c: Cmd)
    ensures
        c.deep_view() == language_cmd_v(scope.spec_bytes(), all, cli_view(cli).wordpress_path),
{
    let wp = wordpress_path_bytes(cli);
    let mut args: Vec<Vec<u8>> = Vec::new();
    args.push("language".as_bytes_vec());
    args.push(scope.as_bytes_vec());
    args.push("update".as_bytes_vec());
    if all {
        args.push("--all".as_bytes_vec());
    }
    args.push(path_arg_x(wp.as_slice()));
    let c = Cmd { program: "wp".as_bytes_vec(), args };
    proof {
        assert(c.deep_view() =~~= language_cmd_v(
            scope.spec_bytes(),
            all,
            cli_view(cli).wordpress_path,
        ));
    }
    c
}

/// The stage-everything command of the version-control tool.
pub open spec fn git_add_cmd_v(wp: Seq<u8>) -> CmdV {
    CmdV {
        program: "git".spec_bytes(),
        args: seq!["-C".spec_bytes(), wp, "add".spec_bytes(), ".".spec_bytes()],
    }
}

fn git_add_cmd(cli: &Cli) -> (c: Cmd)
    ensures
        c.deep_view() == git_add_cmd_v(cli_view(cli).wordpress_path),
{
    let mut args: Vec<Vec<u8>> = Vec::new();
    args.push("-C".as_bytes_vec());
    args.push(wordpress_path_bytes(cli));
    args.push("add".as_bytes_vec());
    args.push(".".as_bytes_vec());
    let c = Cmd { program: "git".as_bytes_vec(), args };
    proof {
        assert(c.deep_view() =~~= git_add_cmd_v(cli_view(cli).wordpress_path));
    }
    c
}

/// The commit command of the version-control tool.
pub open spec fn git_commit_cmd_v(wp: Seq<u8>, message: Seq<u8>) -> CmdV {
    CmdV {
        program: "git".spec_bytes(),
        args: seq![
            "-C".spec_bytes(),
            wp,
            "commit".spec_bytes(),
            "-m".spec_bytes(),
            message,
        ],
    }
}

fn git_commit_cmd(cli: &Cli, message: Vec<u8>) -> (c: Cmd)
    ensures
        c.deep_view() == git_commit_cmd_v(cli_view(cli).wordpress_path, message@),
{
    let ghost m = message@;
    let mut args: Vec<Vec<u8>> = Vec::new();
    args.push("-C".as_bytes_vec());
    args.push(wordpress_path_bytes(cli));
    args.push("commit".as_bytes_vec());
    args.push("-m".as_bytes_vec());
    args.push(message);
    let c = Cmd { program: "git".as_bytes_vec(), args };
    proof {
        assert(c.deep_view() =~~= git_commit_cmd_v(cli_view(cli).wordpress_path, m));
    }
    c
}

/// The backup label of the core step.
pub open spec fn core_label() -> Seq<u8> {
    "update_core".spec_bytes()
}

/// The backup label of the translations step.
pub open spec fn translations_label() -> Seq<u8> {
    "update_translations".spec_bytes()
}

/// The backup label of one item of a per-item step:
/// `update_plugin.<name>` or `update_theme.<name>`.
pub open spec fn item_label(kind: Step, name: Seq<u8>) -> Seq<u8> {
    (if kind == Step::Plugins {
        "update_plugin.".spec_bytes()
    } else {
        "update_theme.".spec_bytes()
    }) + name
}

fn item_label_x(kind: Step, name: &[u8]) -> (v: Vec<u8>)
    ensures
        v@ == item_label(kind, name@),
{
    let mut v = if kind == Step::Plugins {
        "update_plugin.".as_bytes_vec()
    } else {
        "update_theme.".as_bytes_vec()
    };
    push_all(&mut v, name);
    v
}

/// The prefix every commit message of the run starts with: the
/// configured prefix followed by the separator, or empty when no prefix
/// is configured or committing is disabled.
pub open spec fn commit_prefix_v(c: CliV) -> Seq<u8> {
    if !c.no_commit {
        match c.commit_prefix {
            Some(p) => p + c.separator,
            None => Seq::empty(),
        }
    } else {
        Seq::empty()
    }
}

/// Builds the commit-message prefix of the run.
pub fn commit_prefix_bytes(cli: &Cli) -> (v: Vec<u8>)
    ensures
        v@ == commit_prefix_v(cli_view(cli)),
{
    if !cli.no_commit {
        match &cli.commit_prefix {
            Some(p) => {
                let mut v: Vec<u8> = Vec::new();
                push_all(&mut v, p.as_str().as_bytes());
                push_all(&mut v, cli.separator.as_str().as_bytes());
                v
            },
            None => Vec::new(),
        }
    } else {
        Vec::new()
    }
}

/// The core commit message: prefix, fixed text, then the version
/// transition `old -> new`.
pub open spec fn core_msg_v(prefix: Seq<u8>, sep: Seq<u8>, old_v: Seq<u8>, new_v: Seq<u8>) -> Seq<
    u8,
> {
    prefix + "Update WordPress Core".spec_bytes() + sep + old_v + " -> ".spec_bytes() + new_v
}

fn core_msg(cli: &Cli, prefix: &[u8], old_v: &[u8], new_v: &[u8]) -> (v: Vec<u8>)
    ensures
        v@ == core_msg_v(prefix@, cli_view(cli).separator, old_v@, new_v@),
{
    let mut v: Vec<u8> = Vec::new();
    push_all(&mut v, prefix);
    push_all(&mut v, "Update WordPress Core".as_bytes());
    push_all(&mut v, cli.separator.as_str().as_bytes());
    push_all(&mut v, old_v);
    push_all(&mut v, " -> ".as_bytes());
    push_all(&mut v, new_v);
    v
}

/// Every core commit message names both captured versions: the old one
/// and the new one each occur in the message.
pub proof fn lemma_core_msg_names_versions(
    prefix: Seq<u8>,
    sep: Seq<u8>,
    old_v: Seq<u8>,
    new_v: Seq<u8>,
)
    ensures
        contains_seq(core_msg_v(prefix, sep, old_v, new_v), old_v),
        contains_seq(core_msg_v(prefix, sep, old_v, new_v), new_v),
{
    let m = core_msg_v(prefix, sep, old_v, new_v);
    let x = prefix + "Update WordPress Core".spec_bytes() + sep;
    lemma_occurs_in_add(x, old_v);
    lemma_occurs_extend(x + old_v, " -> ".spec_bytes(), x.len() as int, old_v);
    lemma_occurs_extend(x + old_v + " -> ".spec_bytes(), new_v, x.len() as int, old_v);
    assert(occurs_at(m, x.len() as int, old_v));
    let y = x + old_v + " -> ".spec_bytes();
    lemma_occurs_in_add(y, new_v);
    assert(occurs_at(m, y.len() as int, new_v));
}

/// An item commit message: prefix, the kind's fixed text, the item's
/// name and its version transition, all separated by the separator.
pub open spec fn item_msg_v(prefix: Seq<u8>, kind: Step, sep: Seq<u8>, it: CandidateV) -> Seq<u8> {
    prefix + (if kind == Step::Plugins {
        "Update plugin".spec_bytes()
    } else {
        "Update theme".spec_bytes()
    }) + sep + it.name + sep + it.version + " -> ".spec_bytes() + it.update_version
}

fn item_msg(cli: &Cli, prefix: &[u8], kind: Step, it: &UpdateCandidate) -> (v: Vec<u8>)
    ensures
        v@ == item_msg_v(prefix@, kind, cli_view(cli).separator, it.deep_view()),
{
    let mut v: Vec<u8> = Vec::new();
    push_all(&mut v, prefix);
    if kind == Step::Plugins {
        push_all(&mut v, "Update plugin".as_bytes());
    } else {
        push_all(&mut v, "Update theme".as_bytes());
    }
    push_all(&mut v, cli.separator.as_str().as_bytes());
    push_all(&mut v, it.name.as_slice());
    push_all(&mut v, cli.separator.as_str().as_bytes());
    push_all(&mut v, it.version.as_slice());
    push_all(&mut v, " -> ".as_bytes());
    push_all(&mut v, it.update_version.as_slice());
    v
}

/// Every item commit message names the item and its version
/// transition: the name, the installed version and the target version
/// each occur in the message.
pub proof fn lemma_item_msg_names_item(prefix: Seq<u8>, kind: Step, sep: Seq<u8>, it: CandidateV)
    ensures
        contains_seq(item_msg_v(prefix, kind, sep, it), it.name),
        contains_seq(item_msg_v(prefix, kind, sep, it), it.version),
        contains_seq(item_msg_v(prefix, kind, sep, it), it.update_version),
{
    let m = item_msg_v(prefix, kind, sep, it);
    let word = if kind == Step::Plugins {
        "Update plugin".spec_bytes()
    } else {
        "Update theme".spec_bytes()
    };
    let x = prefix + word + sep;
    lemma_occurs_in_add(x, it.name);
    lemma_occurs_extend(x + it.name, sep, x.len() as int, it.name);
    lemma_occurs_extend(x + it.name + sep, it.version, x.len() as int, it.name);
    lemma_occurs_extend(x + it.name + sep + it.version, " -> ".spec_bytes(), x.len() as int, it.name);
    lemma_occurs_extend(
        x + it.name + sep + it.version + " -> ".spec_bytes(),
        it.update_version,
        x.len() as int,
        it.name,
    );
    assert(occurs_at(m, x.len() as int, it.name));
    let y = x + it.name + sep;
    lemma_occurs_in_add(y, it.version);
    lemma_occurs_extend(y + it.version, " -> ".spec_bytes(), y.len() as int, it.version);
    lemma_occurs_extend(
        y + it.version + " -> ".spec_bytes(),
        it.update_version,
        y.len() as int,
        it.version,
    );
    assert(occurs_at(m, y.len() as int, it.version));
    let z = y + it.version + " -> ".spec_bytes();
    lemma_occurs_in_add(z, it.update_version);
    assert(occurs_at(m, z.len() as int, it.update_version));
}

/// The translations commit message.
pub open spec fn translations_msg_v(prefix: Seq<u8>) -> Seq<u8> {
    prefix + "Update translations".spec_bytes()
}

fn translations_msg(prefix: &[u8]) -> (v: Vec<u8>)
    ensures
        v@ == translations_msg_v(prefix@),
{
    let mut v: Vec<u8> = Vec::new();
    push_all(&mut v, prefix);
    push_all(&mut v, "Update translations".as_bytes());
    v
}

/// The fully resolved backup destination for a step or item label at a
/// moment in time.
pub open spec fn backup_dest_v(c: CliV, label: Seq<u8>, now: u64) -> Seq<u8> {
    resolved(c.database_file_path, c.wordpress_path, label, dec_digits(now as nat))
}

/// Resolves the configured backup-path template against the
/// installation path, a step label and a timestamp.
pub fn backup_dest(cli: &Cli, label: &[u8], now: u64) -> (v: Vec<u8>)
    ensures
        v@ == backup_dest_v(cli_view(cli), label@, now),
{
    let time = u64_to_dec(now);
    crate::template::resolve_template(
        cli.database_file_path.as_str().as_bytes(),
        cli.wordpress_path.as_str().as_bytes(),
        label,
        time.as_slice(),
    )
}

/// The backup actions of one step or item: none when backups are
/// disabled, else directory creation for and export to the resolved
/// destination.
pub open spec fn backup_section(c: CliV, label: Seq<u8>, now: u64) -> Seq<ActionV> {
    if c.no_backup_database {
        Seq::empty()
    } else {
        let dest = backup_dest_v(c, label, now);
        seq![
            ActionV::EnsureParent(dest),
            ActionV::Stream(export_cmd_v(c.wordpress_path, dest)),
        ]
    }
}

fn backup_actions(cli: &Cli, label: &[u8], now: u64) -> (v: Vec<Action>)
    ensures
        v.deep_view() == backup_section(cli_view(cli), label@, now),
{
    let mut v: Vec<Action> = Vec::new();
    if !cli.no_backup_database {
        let dest = backup_dest(cli, label, now);
        let cmd = export_cmd(cli, dest.as_slice());
        v.push(Action::EnsureParent(dest));
        v.push(Action::Stream(cmd));
        proof {
            assert(v.deep_view() =~~= backup_section(cli_view(cli), label@, now));
        }
    } else {
        proof {
            assert(v.deep_view() =~~= backup_section(cli_view(cli), label@, now));
        }
    }
    v
}

/// The cleanup actions after a mutating action: one removal per
/// configured stray path, with the installation path substituted in.
pub open spec fn remove_section(c: CliV) -> Seq<ActionV> {
    Seq::new(
        c.remove_paths.len(),
        |i: int| ActionV::RemovePath(substituted(c.remove_paths[i], c.wordpress_path)),
    )
}

fn remove_actions(cli: &Cli) -> (v: Vec<Action>)
    ensures
        v.deep_view() == remove_section(cli_view(cli)),
{
    let ghost c = cli_view(cli);
    let wp = wordpress_path_bytes(cli);
    let mut v: Vec<Action> = Vec::new();
    let mut i: usize = 0;
    proof {
        assert(v.deep_view() =~= remove_section(c).take(0));
    }
    while i < cli.remove_paths.len()
        invariant
            0 <= i <= cli.remove_paths@.len(),
            c == cli_view(cli),
            wp@ == c.wordpress_path,
            v.deep_view() == remove_section(c).take(i as int),
        decreases cli.remove_paths@.len() - i,
    {
        let p = crate::template::substitute_install_path(
            cli.remove_paths[i].as_str().as_bytes(),
            wp.as_slice(),
        );
        let a = Action::RemovePath(p);
        let ghost ga = a;
        let ghost old_v = v;
        v.push(a);
        proof {
            lemma_deep_view_push(v, old_v, ga);
            assert(ga.deep_view() == remove_section(c)[i as int]);
            assert(remove_section(c).take(i + 1) =~= remove_section(c).take(i as int).push(
                remove_section(c)[i as int],
            ));
        }
        i = i + 1;
    }
    proof {
        assert(remove_section(c).take(cli.remove_paths@.len() as int) =~= remove_section(c));
    }
    v
}

/// The commit actions of one step or item: none when commits are
/// disabled, else staging everything and committing with the message.
pub open spec fn commit_section(c: CliV, message: Seq<u8>) -> Seq<ActionV> {
    if c.no_commit {
        Seq::empty()
    } else {
        seq![
            ActionV::Stream(git_add_cmd_v(c.wordpress_path)),
            ActionV::Stream(git_commit_cmd_v(c.wordpress_path, message)),
        ]
    }
}

fn commit_actions(cli: &Cli, message: Vec<u8>) -> (v: Vec<Action>)
    ensures
        v.deep_view() == commit_section(cli_view(cli), message@),
{
    let ghost m = message@;
    let mut v: Vec<Action> = Vec::new();
    if !cli.no_commit {
        v.push(Action::Stream(git_add_cmd(cli)));
        v.push(Action::Stream(git_commit_cmd(cli, message)));
        proof {
            assert(v.deep_view() =~~= commit_section(cli_view(cli), m));
        }
    } else {
        proof {
            assert(v.deep_view() =~~= commit_section(cli_view(cli), m));
        }
    }
    v
}

/// With backups disabled, no backup destination is ever resolved and
/// no backup action is ever planned: every step's backup slice is
/// empty.
pub proof fn lemma_backup_disabled(c: CliV, label: Seq<u8>, now: u64)
    requires
        c.no_backup_database,
    ensures
        backup_section(c, label, now) == Seq::<ActionV>::empty(),
{
}

/// With commits disabled, no commit message is ever resolved and no
/// commit is ever attempted: every step's commit slice is empty.
pub proof fn lemma_commit_disabled(c: CliV, message: Seq<u8>)
    requires
        c.no_commit,
    ensures
        commit_section(c, message) == Seq::<ActionV>::empty(),
{
}

/// The single-shot step skeleton: optional backup, then the given
/// mutating actions, then stray-path cleanup, then the optional commit,
/// in exactly that order.
pub open spec fn update_trace(
    c: CliV,
    label: Seq<u8>,
    now: u64,
    mid: Seq<ActionV>,
    message: Option<Seq<u8>>,
) -> Seq<ActionV> {
    backup_section(c, label, now) + mid + remove_section(c) + (match message {
        Some(m) => commit_section(c, m),
        None => Seq::empty(),
    })
}

/// Plans one single-shot step around the given mutating actions, as
/// [`update_trace`] describes.
pub fn update(
    cli: &Cli,
    label: &[u8],
    now: u64,
    update_actions: Vec<Action>,
    commit_message: Option<Vec<u8>>,
) -> (plan: Vec<Action>)
    ensures
        plan.deep_view() == update_trace(
            cli_view(cli),
            label@,
            now,
            update_actions.deep_view(),
            match commit_message {
                Some(m) => Some(m@),
                None => None,
            },
        ),
{
    let ghost c = cli_view(cli);
    let ghost midv = update_actions.deep_view();
    let ghost msgv: Option<Seq<u8>> = match commit_message {
        Some(ref m) => Some(m@),
        None => None,
    };
    let mut plan = backup_actions(cli, label, now);
    let mut mid = update_actions;
    let ghost p0 = plan;
    let ghost m0 = mid;
    plan.append(&mut mid);
    proof {
        lemma_deep_view_add(plan, p0, m0);
    }
    let mut rm = remove_actions(cli);
    let ghost p1 = plan;
    let ghost r0 = rm;
    plan.append(&mut rm);
    proof {
        lemma_deep_view_add(plan, p1, r0);
    }
    match commit_message {
        Some(m) => {
            let mut cm = commit_actions(cli, m);
            let ghost p2 = plan;
            let ghost c0 = cm;
            plan.append(&mut cm);
            proof {
                lemma_deep_view_add(plan, p2, c0);
            }
        },
        None => {
            proof {
                assert(plan.deep_view() + Seq::<ActionV>::empty() =~= plan.deep_view());
            }
        },
    }
    plan
}

/// The mutating middle of the core step: deactivate the active
/// plugins, update the core, reactivate the same plugins; framed by
/// backup and cleanup as every single-shot step is.
pub open spec fn core_mid_trace(c: CliV, names: Seq<Seq<u8>>, now: u64) -> Seq<ActionV> {
    update_trace(
        c,
        core_label(),
        now,
        seq![
            ActionV::Stream(toggle_cmd_v(c.wordpress_path, names, false)),
            ActionV::Stream(core_update_cmd_v(c.wordpress_path)),
            ActionV::Stream(toggle_cmd_v(c.wordpress_path, names, true)),
        ],
        None,
    )
}

/// Plans the core step's mutating actions, between its queries: backup,
/// deactivate the given active plugins, update the core, reactivate
/// them, clean up stray paths.
pub fn core_actions(cli: &Cli, now: u64, active: &Vec<Vec<u8>>) -> (plan: Vec<Action>)
    ensures
        plan.deep_view() == core_mid_trace(cli_view(cli), active.deep_view(), now),
{
    let label = "update_core".as_bytes_vec();
    let mut mid: Vec<Action> = Vec::new();
    mid.push(Action::Stream(toggle_cmd(cli, active, false)));
    mid.push(Action::Stream(core_update_cmd(cli)));
    mid.push(Action::Stream(toggle_cmd(cli, active, true)));
    proof {
        assert(mid.deep_view() =~~= seq![
            ActionV::Stream(toggle_cmd_v(cli_view(cli).wordpress_path, active.deep_view(), false)),
            ActionV::Stream(core_update_cmd_v(cli_view(cli).wordpress_path)),
            ActionV::Stream(toggle_cmd_v(cli_view(cli).wordpress_path, active.deep_view(), true)),
        ]);
    }
    update(cli, label.as_slice(), now, mid, None)
}

/// Plans the core step's closing commit: staging and a commit whose
/// message names the version transition; nothing when commits are
/// disabled.
pub fn core_commit_actions(
    cli: &Cli,
    commit_prefix: &Vec<u8>,
    old_version: &Vec<u8>,
    new_version: &Vec<u8>,
) -> (v: Vec<Action>)
    ensures
        v.deep_view() == commit_section(
            cli_view(cli),
            core_msg_v(
                commit_prefix@,
                cli_view(cli).separator,
                old_version@,
                new_version@,
            ),
        ),
{
    let msg = core_msg(
        cli,
        commit_prefix.as_slice(),
        old_version.as_slice(),
        new_version.as_slice(),
    );
    commit_actions(cli, msg)
}

/// The whole core step: query the active plugins, capture the old
/// version when committing, run the mutating middle, capture the new
/// version, then commit.
pub open spec fn core_trace(
    c: CliV,
    prefix: Seq<u8>,
    now: u64,
    raw_active: Seq<u8>,
    old_v: Seq<u8>,
    new_v: Seq<u8>,
) -> Seq<ActionV> {
    seq![ActionV::Capture(active_list_cmd_v(c.wordpress_path))] + (if c.no_commit {
        Seq::<ActionV>::empty()
    } else {
        seq![ActionV::Capture(version_cmd_v(c.wordpress_path))]
    }) + core_mid_trace(c, decoded_names(raw_active), now) + (if c.no_commit {
        Seq::<ActionV>::empty()
    } else {
        seq![ActionV::Capture(version_cmd_v(c.wordpress_path))]
    }) + commit_section(c, core_msg_v(prefix, c.separator, old_v, new_v))
}

/// Plans the whole core step from the run's answered queries, as
/// [`core_trace`] describes.
pub fn update_core(
    cli: &Cli,
    commit_prefix: &Vec<u8>,
    now: u64,
    raw_active: &Vec<u8>,
    old_version: &Vec<u8>,
    new_version: &Vec<u8>,
) -> (plan: Vec<Action>)
    ensures
        plan.deep_view() == core_trace(
            cli_view(cli),
            commit_prefix@,
            now,
            raw_active@,
            old_version@,
            new_version@,
        ),
{
    let ghost c = cli_view(cli);
    let ghost t1 = seq![ActionV::Capture(active_list_cmd_v(c.wordpress_path))];
    let ghost t2 = t1 + (if c.no_commit {
        Seq::<ActionV>::empty()
    } else {
        seq![ActionV::Capture(version_cmd_v(c.wordpress_path))]
    });
    let ghost t3 = t2 + core_mid_trace(c, decoded_names(raw_active@), now);
    let ghost t4 = t3 + (if c.no_commit {
        Seq::<ActionV>::empty()
    } else {
        seq![ActionV::Capture(version_cmd_v(c.wordpress_path))]
    });

    let mut plan: Vec<Action> = Vec::new();
    plan.push(Action::Capture(active_list_cmd(cli)));
    proof {
        assert(plan.deep_view() =~~= t1);
    }
    if !cli.no_commit {
        let ghost p0 = plan;
        let a = Action::Capture(version_cmd(cli));
        let ghost ga = a;
        plan.push(a);
        proof {
            lemma_deep_view_push(plan, p0, ga);
            assert(plan.deep_view() =~= t2);
        }
    } else {
        proof {
            assert(plan.deep_view() + Seq::<ActionV>::empty() =~= plan.deep_view());
            assert(plan.deep_view() =~= t2);
        }
    }
    let names = decode_name_list(raw_active.as_slice());
    let mut mid = core_actions(cli, now, &names);
    let ghost p1 = plan;
    let ghost m0 = mid;
    plan.append(&mut mid);
    proof {
        lemma_deep_view_add(plan, p1, m0);
        assert(plan.deep_view() =~= t3);
    }
    if !cli.no_commit {
        let ghost p2 = plan;
        let a = Action::Capture(version_cmd(cli));
        let ghost ga = a;
        plan.push(a);
        proof {
            lemma_deep_view_push(plan, p2, ga);
            assert(plan.deep_view() =~= t4);
        }
    } else {
        proof {
            assert(plan.deep_view() + Seq::<ActionV>::empty() =~= plan.deep_view());
            assert(plan.deep_view() =~= t4);
        }
    }
    let mut cm = core_commit_actions(cli, commit_prefix, old_version, new_version);
    let ghost p3 = plan;
    let ghost c0 = cm;
    plan.append(&mut cm);
    proof {
        lemma_deep_view_add(plan, p3, c0);
        assert(plan.deep_view() == core_trace(
            c,
            commit_prefix@,
            now,
            raw_active@,
            old_version@,
            new_version@,
        ));
    }
    plan
}

/// The candidates of `its` whose name is not in `ex`, in their original
/// relative order.
pub open spec fn filtered(its: Seq<CandidateV>, ex: Seq<Seq<u8>>) -> Seq<CandidateV> {
    its.filter(|it: CandidateV| !ex.contains(it.name))
}

/// Exactly the non-excluded candidates pass the filter, in order: the
/// filtered list is the subsequence of the original with every
/// excluded name dropped; no filtered candidate bears an excluded
/// name, and every non-excluded candidate of the original is kept.
pub proof fn lemma_filtered_exactly(its: Seq<CandidateV>, ex: Seq<Seq<u8>>)
    ensures
        filtered(its, ex) == its.filter(|it: CandidateV| !ex.contains(it.name)),
        forall|k: int|
            0 <= k < filtered(its, ex).len() ==> !ex.contains(
                #[trigger] filtered(its, ex)[k].name,
            ),
        forall|k: int|
            0 <= k < its.len() && !ex.contains(its[k].name) ==> filtered(its, ex).contains(
                #[trigger] its[k],
            ),
        filtered(its, ex).len() <= its.len(),
{
    its.filter_lemma(|it: CandidateV| !ex.contains(it.name));
}

fn name_in(name: &Vec<u8>, exclude: &Vec<String>) -> (r: bool)
    ensures
        r == strs_view(exclude@).contains(name@),
{
    let ghost ex = strs_view(exclude@);
    let mut j: usize = 0;
    while j < exclude.len()
        invariant
            0 <= j <= exclude@.len(),
            ex == strs_view(exclude@),
            forall|k: int| 0 <= k < j ==> ex[k] != name@,
        decreases exclude@.len() - j,
    {
        if bytes_eq(name.as_slice(), exclude[j].as_str().as_bytes()) {
            proof {
                assert(ex[j as int] == name@);
            }
            return true;
        }
        j = j + 1;
    }
    proof {
        assert(!ex.contains(name@)) by {
            if ex.contains(name@) {
                let k = choose|k: int| 0 <= k < ex.len() && ex[k] == name@;
                assert(ex[k] != name@);
            }
        }
    }
    false
}

/// Keeps the candidates whose name is not excluded, preserving their
/// order, as [`filtered`] describes.
pub fn filter_excluded(items: Vec<UpdateCandidate>, exclude: &Vec<String>) -> (r: Vec<
    UpdateCandidate,
>)
    ensures
        r.deep_view() == filtered(items.deep_view(), strs_view(exclude@)),
{
    let ghost ex = strs_view(exclude@);
    let ghost idv = items.deep_view();
    let mut r: Vec<UpdateCandidate> = Vec::new();
    let mut i: usize = 0;
    proof {
        reveal(Seq::filter);
        assert(idv.take(0) =~= Seq::<CandidateV>::empty());
        assert(r.deep_view() =~= filtered(idv.take(0), ex));
    }
    while i < items.len()
        invariant
            0 <= i <= items@.len(),
            ex == strs_view(exclude@),
            idv == items.deep_view(),
            r.deep_view() == filtered(idv.take(i as int), ex),
        decreases items@.len() - i,
    {
        proof {
            assert(idv.take(i + 1).drop_last() =~= idv.take(i as int));
            assert(idv.take(i + 1).last() == idv[i as int]);
        }
        let keep = !name_in(&items[i].name, exclude);
        proof {
            assert(idv[i as int] == items@[i as int].deep_view());
            assert(idv[i as int].name == items@[i as int].name@);
        }
        if keep {
            let mut nm: Vec<u8> = Vec::new();
            push_all(&mut nm, items[i].name.as_slice());
            let mut vr: Vec<u8> = Vec::new();
            push_all(&mut vr, items[i].version.as_slice());
            let mut uv: Vec<u8> = Vec::new();
            push_all(&mut uv, items[i].update_version.as_slice());
            let cand = UpdateCandidate { name: nm, version: vr, update_version: uv };
            let ghost gc = cand;
            let ghost r0 = r;
            r.push(cand);
            proof {
                lemma_deep_view_push(r, r0, gc);
                assert(gc.deep_view() =~~= idv[i as int]);
                reveal(Seq::filter);
                assert(filtered(idv.take(i + 1), ex) =~= filtered(idv.take(i as int), ex).push(
                    idv[i as int],
                ));
            }
        } else {
            proof {
                reveal(Seq::filter);
                assert(filtered(idv.take(i + 1), ex) =~= filtered(idv.take(i as int), ex));
            }
        }
        i = i + 1;
    }
    proof {
        assert(idv.take(items@.len() as int) =~= idv);
    }
    r
}

/// One item's slice of a per-item step: backup to an item-labelled
/// destination, update that one item, clean up stray paths, commit
/// with a message naming the item and its version transition.
pub open spec fn item_trace(c: CliV, prefix: Seq<u8>, kind: Step, it: CandidateV, now: u64) -> Seq<
    ActionV,
> {
    update_trace(
        c,
        item_label(kind, it.name),
        now,
        seq![ActionV::Stream(item_update_cmd_v(kind, c.wordpress_path, it.name))],
        Some(item_msg_v(prefix, kind, c.separator, it)),
    )
}

/// Plans the independent attempt for one item of a per-item step, as
/// [`item_trace`] describes.
pub fn item_actions(
    cli: &Cli,
    commit_prefix: &Vec<u8>,
    kind: Step,
    item: &UpdateCandidate,
    now: u64,
) -> (plan: Vec<Action>)
    requires
        kind == Step::Plugins || kind == Step::Themes,
    ensures
        plan.deep_view() == item_trace(
            cli_view(cli),
            commit_prefix@,
            kind,
            item.deep_view(),
            now,
        ),
{
    let label = item_label_x(kind, item.name.as_slice());
    let mut mid: Vec<Action> = Vec::new();
    mid.push(Action::Stream(item_update_cmd(cli, kind, item.name.as_slice())));
    proof {
        assert(mid.deep_view() =~~= seq![
            ActionV::Stream(
                item_update_cmd_v(kind, cli_view(cli).wordpress_path, item.deep_view().name),
            ),
        ]);
    }
    let msg = item_msg(cli, commit_prefix.as_slice(), kind, item);
    update(cli, label.as_slice(), now, mid, Some(msg))
}

/// The traces of the items from index `i` on, each item taking its own
/// timestamp.
pub open spec fn items_trace_from(
    c: CliV,
    prefix: Seq<u8>,
    kind: Step,
    its: Seq<CandidateV>,
    times: Seq<u64>,
    i: int,
) -> Seq<ActionV>
    decreases its.len() - i,
        when 0 <= i <= its.len()
{
    if i >= its.len() {
        Seq::empty()
    } else {
        item_trace(c, prefix, kind, its[i], times[i]) + items_trace_from(
            c,
            prefix,
            kind,
            its,
            times,
            i + 1,
        )
    }
}

/// A whole per-item step: query the updatable items, then run one
/// independent attempt per non-excluded item, in the reported order.
pub open spec fn items_step_trace(
    c: CliV,
    prefix: Seq<u8>,
    kind: Step,
    raw: Seq<u8>,
    times: Seq<u64>,
) -> Seq<ActionV> {
    seq![ActionV::Capture(update_list_cmd_v(kind, c.wordpress_path))] + items_trace_from(
        c,
        prefix,
        kind,
        filtered(decoded_updates(raw), excluded_names(c, kind)),
        times,
        0,
    )
}

/// Plans a whole per-item step from the captured list output, as
/// [`items_step_trace`] describes: decode, filter out excluded names,
/// then one attempt per remaining item.
pub fn update_in_steps(
    cli: &Cli,
    commit_prefix: &Vec<u8>,
    kind: Step,
    raw_list: &Vec<u8>,
    times: &Vec<u64>,
) -> (plan: Vec<Action>)
    requires
        kind == Step::Plugins || kind == Step::Themes,
        times@.len() >= filtered(
            decoded_updates(raw_list@),
            excluded_names(cli_view(cli), kind),
        ).len(),
    ensures
        plan.deep_view() == items_step_trace(
            cli_view(cli),
            commit_prefix@,
            kind,
            raw_list@,
            times@,
        ),
{
    let ghost c = cli_view(cli);
    let ghost whole = items_step_trace(c, commit_prefix@, kind, raw_list@, times@);
    let mut plan: Vec<Action> = Vec::new();
    plan.push(Action::Capture(update_list_cmd(cli, kind)));
    let items = decode_update_list(raw_list.as_slice());
    let picked = if kind == Step::Plugins {
        filter_excluded(items, &cli.exclude_plugins)
    } else {
        filter_excluded(items, &cli.exclude_themes)
    };
    let ghost f = picked.deep_view();
    proof {
        assert(f == filtered(decoded_updates(raw_list@), excluded_names(c, kind)));
        assert(plan.deep_view() =~~= seq![
            ActionV::Capture(update_list_cmd_v(kind, c.wordpress_path)),
        ]);
        assert(plan.deep_view() + items_trace_from(c, commit_prefix@, kind, f, times@, 0)
            =~= whole);
    }
    let mut i: usize = 0;
    while i < picked.len()
        invariant
            0 <= i <= picked@.len(),
            c == cli_view(cli),
            f == picked.deep_view(),
            f == filtered(decoded_updates(raw_list@), excluded_names(c, kind)),
            times@.len() >= f.len(),
            kind == Step::Plugins || kind == Step::Themes,
            whole == items_step_trace(c, commit_prefix@, kind, raw_list@, times@),
            plan.deep_view() + items_trace_from(c, commit_prefix@, kind, f, times@, i as int)
                == whole,
        decreases picked@.len() - i,
    {
        let mut acts = item_actions(cli, commit_prefix, kind, &picked[i], times[i]);
        let ghost p0 = plan;
        let ghost a0 = acts;
        plan.append(&mut acts);
        proof {
            lemma_deep_view_add(plan, p0, a0);
            assert(picked@[i as int].deep_view() == f[i as int]);
            assert(items_trace_from(c, commit_prefix@, kind, f, times@, i as int) == item_trace(
                c,
                commit_prefix@,
                kind,
                f[i as int],
                times@[i as int],
            ) + items_trace_from(c, commit_prefix@, kind, f, times@, i + 1));
            assert(plan.deep_view() + items_trace_from(c, commit_prefix@, kind, f, times@, i + 1)
                =~= whole);
        }
        i = i + 1;
    }
    proof {
        assert(items_trace_from(c, commit_prefix@, kind, f, times@, f.len() as int)
            == Seq::<ActionV>::empty());
        assert(plan.deep_view() =~= whole);
    }
    plan
}

/// Plans the plugins step from the captured list output.
pub fn update_plugins(cli: &Cli, commit_prefix: &Vec<u8>, raw_list: &Vec<u8>, times: &Vec<u64>) -> (plan: Vec<Action>)
    requires
        times@.len() >= filtered(decoded_updates(raw_list@), cli_view(cli).exclude_plugins).len(),
    ensures
        plan.deep_view() == items_step_trace(
            cli_view(cli),
            commit_prefix@,
            Step::Plugins,
            raw_list@,
            times@,
        ),
{
    update_in_steps(cli, commit_prefix, Step::Plugins, raw_list, times)
}

/// Plans the themes step from the captured list output.
pub fn update_themes(cli: &Cli, commit_prefix: &Vec<u8>, raw_list: &Vec<u8>, times: &Vec<u64>) -> (plan: Vec<Action>)
    requires
        times@.len() >= filtered(decoded_updates(raw_list@), cli_view(cli).exclude_themes).len(),
    ensures
        plan.deep_view() == items_step_trace(
            cli_view(cli),
            commit_prefix@,
            Step::Themes,
            raw_list@,
            times@,
        ),
{
    update_in_steps(cli, commit_prefix, Step::Themes, raw_list, times)
}

/// The whole translations step: the single-shot skeleton around the
/// three translation-pack updates (core, all themes, all plugins).
pub open spec fn translations_trace(c: CliV, prefix: Seq<u8>, now: u64) -> Seq<ActionV> {
    update_trace(
        c,
        translations_label(),
        now,
        seq![
            ActionV::Stream(language_cmd_v("core".spec_bytes(), false, c.wordpress_path)),
            ActionV::Stream(language_cmd_v("theme".spec_bytes(), true, c.wordpress_path)),
            ActionV::Stream(language_cmd_v("plugin".spec_bytes(), true, c.wordpress_path)),
        ],
        Some(translations_msg_v(prefix)),
    )
}

/// Plans the whole translations step, as [`translations_trace`]
/// describes.
pub fn update_translations(cli: &Cli, commit_prefix: &Vec<u8>, now: u64) -> (plan: Vec<Action>)
    ensures
        plan.deep_view() == translations_trace(cli_view(cli), commit_prefix@, now),
{
    let label = "update_translations".as_bytes_vec();
    let mut mid: Vec<Action> = Vec::new();
    mid.push(Action::Stream(language_cmd(cli, "core", false)));
    mid.push(Action::Stream(language_cmd(cli, "theme", true)));
    mid.push(Action::Stream(language_cmd(cli, "plugin", true)));
    proof {
        assert(mid.deep_view() =~~= seq![
            ActionV::Stream(
                language_cmd_v("core".spec_bytes(), false, cli_view(cli).wordpress_path),
            ),
            ActionV::Stream(
                language_cmd_v("theme".spec_bytes(), true, cli_view(cli).wordpress_path),
            ),
            ActionV::Stream(
                language_cmd_v("plugin".spec_bytes(), true, cli_view(cli).wordpress_path),
            ),
        ]);
    }
    let msg = translations_msg(commit_prefix.as_slice());
    update(cli, label.as_slice(), now, mid, Some(msg))
}

} // verus!
