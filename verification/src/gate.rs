//! How a run ends: whether the report is written in color, and the exit
//! code that tells CI a gate tripped from a usage error.
use vstd::prelude::*;

use crate::graph::{RiskTier, Summary};

verus! {

/// When to write ANSI colors.
#[derive(Clone, Copy, Debug, PartialEq, Eq, Structural)]
pub enum ColorChoice {
    /// Color when writing to a terminal and `NO_COLOR` is unset.
    Auto,
    Always,
    Never,
}

pub open spec fn use_color_spec(choice: ColorChoice, to_file: bool, stdout_is_terminal: bool, no_color_set: bool) -> bool {
    match choice {
        ColorChoice::Always => true,
        ColorChoice::Never => false,
        ColorChoice::Auto => !to_file && stdout_is_terminal && !no_color_set,
    }
}

/// Whether the report is colored: never into a file or a pipe unless forced.
pub fn use_color(choice: ColorChoice, to_file: bool, stdout_is_terminal: bool, no_color_set: bool) -> (r: bool)
    ensures
        r == use_color_spec(choice, to_file, stdout_is_terminal, no_color_set),
{
    match choice {
        ColorChoice::Always => true,
        ColorChoice::Never => false,
        ColorChoice::Auto => !to_file && stdout_is_terminal && !no_color_set,
    }
}

/// A gate trips when the change reaches more files than the threshold, or
/// its verdict is at or above the risk asked for.
pub open spec fn gate_tripped_spec(summary: Summary, fail_threshold: Option<usize>, fail_on_risk: Option<RiskTier>) -> bool {
    ||| (fail_threshold matches Some(t) && summary.total_affected_files > t)
    ||| (fail_on_risk matches Some(tier) && summary.risk_tier.severity() >= tier.severity())
}

pub fn gate_tripped(summary: &Summary, fail_threshold: Option<usize>, fail_on_risk: Option<RiskTier>) -> (r: bool)
    ensures
        r == gate_tripped_spec(*summary, fail_threshold, fail_on_risk),
{
    let over_threshold = match fail_threshold {
        Some(t) => summary.total_affected_files > t,
        None => false,
    };
    let over_risk = match fail_on_risk {
        Some(tier) => summary.risk_tier.at_least(&tier),
        None => false,
    };
    over_threshold || over_risk
}

/// The exit code of a finished analysis: 2 where a gate tripped, else 0.
pub fn exit_code(summary: &Summary, fail_threshold: Option<usize>, fail_on_risk: Option<RiskTier>) -> (r: u8)
    ensures
        r == (if gate_tripped_spec(*summary, fail_threshold, fail_on_risk) { 2u8 } else { 0u8 }),
{
    if gate_tripped(summary, fail_threshold, fail_on_risk) {
        2
    } else {
        0
    }
}

/// The exit code of a command line that did not parse: 0 where it only
/// asked for help or the version, 64 (a usage error) otherwise.
pub fn usage_exit_code(help_or_version: bool) -> (r: i32)
    ensures
        r == (if help_or_version { 0i32 } else { 64i32 }),
{
    if help_or_version {
        0
    } else {
        64
    }
}

/// Raising a threshold never trips a gate that a lower one left alone.
pub proof fn lemma_gate_threshold_monotonic(summary: Summary, t1: usize, t2: usize, risk: Option<RiskTier>)
    requires
        t1 <= t2,
        !gate_tripped_spec(summary, Some(t1), risk),
    ensures
        !gate_tripped_spec(summary, Some(t2), risk),
{
}

/// With no gate asked for, none trips.
pub proof fn lemma_no_gate(summary: Summary)
    ensures
        !gate_tripped_spec(summary, None, None),
{
}

} // verus!
