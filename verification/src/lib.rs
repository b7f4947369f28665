//! Planning core of a WordPress maintenance pipeline.
//!
//! The library decides everything: which external commands run, in which
//! order, with which arguments, which update candidates are skipped, how
//! backup destinations and commit messages are assembled, and how the
//! external tool's list output is decoded.  Running the commands, reading
//! the clock and touching the filesystem are left to a thin driver around
//! the library; the driver feeds every captured output back in as plain
//! bytes and executes the returned actions one by one, stopping at the
//! first failure.

pub mod decode;
pub mod plan;
pub mod template;
pub mod text;

use vstd::prelude::*;

use crate::plan::{
    cli_view, commit_prefix_bytes, commit_prefix_v, core_trace, filtered, items_step_trace,
    lemma_deep_view_add, translations_trace, update_core, update_plugins, update_themes,
    update_translations, Action, ActionV, CliV,
};
use crate::decode::decoded_updates;

verus! {

/// One maintenance category of the pipeline.
#[derive(Clone, Copy, PartialEq, Eq, Structural, Debug)]
pub enum Step {
    Core,
    Plugins,
    Themes,
    Translations,
}

/// The run's configuration, immutable for the whole run.
pub struct Cli {
    /// A string to add to the start of commit messages.
    pub commit_prefix: Option<String>,
    /// Path template used for storing database backups.
    pub database_file_path: String,
    /// Plugins to exclude from updates.
    pub exclude_plugins: Vec<String>,
    /// Themes to exclude from updates.
    pub exclude_themes: Vec<String>,
    /// Disables backing-up of the database before each (sub-)step.
    pub no_backup_database: bool,
    /// Disables committing after each (sub-)step.
    pub no_commit: bool,
    /// String to use as a separator in commit messages.
    pub separator: String,
    /// The steps and order of steps taken.
    pub steps: Vec<Step>,
    /// Path templates to remove after each (sub-)step, before committing.
    pub remove_paths: Vec<String>,
    /// Path of the WordPress installation to update.
    pub wordpress_path: String,
}

/// What the outside world answered during one step: the clock readings
/// and the captured output of each query the step runs.  The driver
/// gathers these as the step progresses; handing the whole record to
/// [`main_loop`] reproduces the step's complete action trace.
pub enum StepOracle {
    /// Answers of a core step: one timestamp, the raw active-plugin
    /// list output, and the two captured version strings.
    Core { now: u64, raw_active: Vec<u8>, old_version: Vec<u8>, new_version: Vec<u8> },
    /// Answers of a plugins or themes step: the raw update-list output
    /// and one timestamp per attempted item.
    Items { raw_list: Vec<u8>, times: Vec<u64> },
    /// Answers of a translations step: one timestamp.
    Translations { now: u64 },
}

/// The mathematical value of a [`StepOracle`].
#[verifier::ext_equal]
pub ghost enum StepOracleV {
    Core { now: u64, raw_active: Seq<u8>, old_version: Seq<u8>, new_version: Seq<u8> },
    Items { raw_list: Seq<u8>, times: Seq<u64> },
    Translations { now: u64 },
}

impl DeepView for StepOracle {
    type V = StepOracleV;

    open spec fn deep_view(&self) -> StepOracleV {
        match self {
            StepOracle::Core { now, raw_active, old_version, new_version } => StepOracleV::Core {
                now: *now,
                raw_active: raw_active@,
                old_version: old_version@,
                new_version: new_version@,
            },
            StepOracle::Items { raw_list, times } => StepOracleV::Items {
                raw_list: raw_list@,
                times: times@,
            },
            StepOracle::Translations { now } => StepOracleV::Translations { now: *now },
        }
    }
}

/// The oracle answers the step's kind: a matching variant, with one
/// timestamp per item a per-item step will attempt.
pub open spec fn oracle_fits(c: CliV, step: Step, o: StepOracleV) -> bool {
    match (step, o) {
        (Step::Core, StepOracleV::Core { .. }) => true,
        (Step::Plugins, StepOracleV::Items { raw_list, times }) => times.len() >= filtered(
            decoded_updates(raw_list),
            c.exclude_plugins,
        ).len(),
        (Step::Themes, StepOracleV::Items { raw_list, times }) => times.len() >= filtered(
            decoded_updates(raw_list),
            c.exclude_themes,
        ).len(),
        (Step::Translations, StepOracleV::Translations { .. }) => true,
        _ => false,
    }
}

/// The action trace of one configured step under its oracle.
pub open spec fn step_trace(c: CliV, prefix: Seq<u8>, step: Step, o: StepOracleV) -> Seq<ActionV> {
    match (step, o) {
        (Step::Core, StepOracleV::Core { now, raw_active, old_version, new_version }) => core_trace(
            c,
            prefix,
            now,
            raw_active,
            old_version,
            new_version,
        ),
        (Step::Plugins, StepOracleV::Items { raw_list, times }) => items_step_trace(
            c,
            prefix,
            Step::Plugins,
            raw_list,
            times,
        ),
        (Step::Themes, StepOracleV::Items { raw_list, times }) => items_step_trace(
            c,
            prefix,
            Step::Themes,
            raw_list,
            times,
        ),
        (Step::Translations, StepOracleV::Translations { now }) => translations_trace(
            c,
            prefix,
            now,
        ),
        _ => Seq::empty(),
    }
}

/// The action trace of the whole run from step `i` on: the configured
/// steps, in order, each to completion.
pub open spec fn run_trace(
    c: CliV,
    prefix: Seq<u8>,
    steps: Seq<Step>,
    oracles: Seq<StepOracleV>,
    i: int,
) -> Seq<ActionV>
    decreases steps.len() - i,
        when 0 <= i <= steps.len()
{
    if i >= steps.len() {
        Seq::empty()
    } else {
        step_trace(c, prefix, steps[i], oracles[i]) + run_trace(c, prefix, steps, oracles, i + 1)
    }
}

/// Plans the whole run: for each configured step, in order, the step's
/// complete action trace under its oracle, concatenated.  The driver
/// executes actions in order and stops at the first failure, so a
/// failure anywhere aborts every remaining action and step.
pub fn main_loop(cli: &Cli, oracles: &Vec<StepOracle>) -> (plan: Vec<Action>)
    requires
        oracles@.len() == cli.steps@.len(),
        forall|i: int|
            0 <= i < cli.steps@.len() ==> oracle_fits(
                cli_view(cli),
                cli.steps@[i],
                #[trigger] oracles.deep_view()[i],
            ),
    ensures
        plan.deep_view() == run_trace(
            cli_view(cli),
            commit_prefix_v(cli_view(cli)),
            cli.steps@,
            oracles.deep_view(),
            0,
        ),
{
    let ghost c = cli_view(cli);
    let ghost dvs = oracles.deep_view();
    let ghost whole = run_trace(c, commit_prefix_v(c), cli.steps@, dvs, 0);
    let prefix = commit_prefix_bytes(cli);
    let mut plan: Vec<Action> = Vec::new();
    let mut i: usize = 0;
    proof {
        assert(plan.deep_view() + run_trace(c, commit_prefix_v(c), cli.steps@, dvs, 0) =~= whole);
    }
    while i < cli.steps.len()
        invariant
            0 <= i <= cli.steps@.len(),
            oracles@.len() == cli.steps@.len(),
            c == cli_view(cli),
            dvs == oracles.deep_view(),
            prefix@ == commit_prefix_v(c),
            whole == run_trace(c, commit_prefix_v(c), cli.steps@, dvs, 0),
            forall|k: int|
                0 <= k < cli.steps@.len() ==> oracle_fits(c, cli.steps@[k], #[trigger] dvs[k]),
            plan.deep_view() + run_trace(c, commit_prefix_v(c), cli.steps@, dvs, i as int)
                == whole,
        decreases cli.steps@.len() - i,
    {
        let step = cli.steps[i];
        let o = &oracles[i];
        proof {
            assert(o.deep_view() == dvs[i as int]);
            assert(oracle_fits(c, cli.steps@[i as int], dvs[i as int]));
        }
        let mut acts: Vec<Action> = match (step, o) {
            (Step::Core, StepOracle::Core { now, raw_active, old_version, new_version }) => {
                update_core(cli, &prefix, *now, raw_active, old_version, new_version)
            },
            (Step::Plugins, StepOracle::Items { raw_list, times }) => {
                update_plugins(cli, &prefix, raw_list, times)
            },
            (Step::Themes, StepOracle::Items { raw_list, times }) => {
                update_themes(cli, &prefix, raw_list, times)
            },
            (Step::Translations, StepOracle::Translations { now }) => {
                update_translations(cli, &prefix, *now)
            },
            _ => {
                proof {
                    assert(false);
                }
                vstd::pervasive::unreached()
            },
        };
        proof {
            assert(acts.deep_view() == step_trace(c, prefix@, cli.steps@[i as int], dvs[i as int]));
        }
        let ghost p0 = plan;
        let ghost a0 = acts;
        plan.append(&mut acts);
        proof {
            lemma_deep_view_add(plan, p0, a0);
            assert(run_trace(c, commit_prefix_v(c), cli.steps@, dvs, i as int) == step_trace(
                c,
                commit_prefix_v(c),
                cli.steps@[i as int],
                dvs[i as int],
            ) + run_trace(c, commit_prefix_v(c), cli.steps@, dvs, i + 1));
            assert(plan.deep_view() + run_trace(c, commit_prefix_v(c), cli.steps@, dvs, i + 1)
                =~= whole);
        }
        i = i + 1;
    }
    proof {
        assert(run_trace(c, commit_prefix_v(c), cli.steps@, dvs, cli.steps@.len() as int)
            == Seq::<ActionV>::empty());
        assert(plan.deep_view() =~= whole);
    }
    plan
}

} // verus!


