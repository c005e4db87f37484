//! Configuration handling: the engine's switches, and how command-line
//! flags combine with the values read from the repository's configuration
//! store. The reading itself is I/O and stays with the caller; these
//! functions take the values that were read.

use vstd::prelude::*;

verus! {

/// The configuration key for the stack size bound.
pub const MAX_STACK_CONFIG_NAME: &'static str = "absorb.maxStack";

/// The default bound on the candidate stack when no base is supplied.
pub const MAX_STACK: usize = 10;

/// The configuration key that suppresses the another-author stop.
pub const FORCE_AUTHOR_CONFIG_NAME: &'static str = "absorb.forceAuthor";

/// The configuration key that permits a detached head.
pub const FORCE_DETACH_CONFIG_NAME: &'static str = "absorb.forceDetach";

/// The configuration key that folds all hunks with one destination into one
/// fixup commit.
pub const ONE_FIXUP_PER_COMMIT_CONFIG_NAME: &'static str = "absorb.oneFixupPerCommit";

/// The configuration key that stages everything when the index is empty.
pub const AUTO_STAGE_IF_NOTHING_STAGED_CONFIG_NAME: &'static str =
    "absorb.autoStageIfNothingStaged";

/// The configuration key that addresses fixup targets by hash always.
pub const FIXUP_TARGET_ALWAYS_SHA_CONFIG_NAME: &'static str = "absorb.fixupTargetAlwaysSHA";

/// The engine's switches as one invocation provides them.
pub struct Config<'a> {
    pub dry_run: bool,
    pub force_author: bool,
    pub force_detach: bool,
    pub base: Option<&'a str>,
    pub and_rebase: bool,
    pub rebase_options: &'a Vec<&'a str>,
    pub whole_file: bool,
    pub one_fixup_per_commit: bool,
}

/// Combines the command-line switches with the booleans read from the
/// repository configuration: a behaviour is on when either the flag or the
/// configuration enables it; everything else passes through unchanged.
pub fn unify<'a>(
    config: &Config<'a>,
    one_fixup_per_commit_config: bool,
    force_author_config: bool,
    force_detach_config: bool,
) -> (r: Config<'a>)
    ensures
        r.one_fixup_per_commit == (config.one_fixup_per_commit || one_fixup_per_commit_config),
        r.force_author == (config.force_author || force_author_config),
        r.force_detach == (config.force_detach || force_detach_config),
        r.dry_run == config.dry_run,
        r.base == config.base,
        r.and_rebase == config.and_rebase,
        r.rebase_options == config.rebase_options,
        r.whole_file == config.whole_file,
{
    Config {
        one_fixup_per_commit: config.one_fixup_per_commit || one_fixup_per_commit_config,
        force_author: config.force_author || force_author_config,
        force_detach: config.force_detach || force_detach_config,
        dry_run: config.dry_run,
        base: config.base,
        and_rebase: config.and_rebase,
        rebase_options: config.rebase_options,
        whole_file: config.whole_file,
    }
}

/// The stack bound that a configured value yields: the value itself when it
/// is positive and representable, the default otherwise.
pub open spec fn spec_max_stack(configured: Option<i64>) -> int {
    match configured {
        Some(v) => if 0 < v <= usize::MAX {
            v as int
        } else {
            MAX_STACK as int
        },
        None => MAX_STACK as int,
    }
}

/// Interprets the configured stack bound, falling back to the default for a
/// missing, zero, negative or unrepresentable value.
pub fn max_stack(configured: Option<i64>) -> (r: usize)
    ensures
        r as int == spec_max_stack(configured),
{
    match configured {
        Some(v) => {
            if v > 0 && (v as u64) <= (usize::MAX as u64) {
                v as usize
            } else {
                MAX_STACK
            }
        },
        None => MAX_STACK,
    }
}

/// A configured boolean, or its default where none was read.
pub fn bool_value(configured: Option<bool>, default_value: bool) -> (r: bool)
    ensures
        r == match configured {
            Some(v) => v,
            None => default_value,
        },
{
    match configured {
        Some(v) => v,
        None => default_value,
    }
}

/// Whether everything is staged automatically when the index is empty;
/// off unless configured on.
pub fn auto_stage_if_nothing_staged(configured: Option<bool>) -> (r: bool)
    ensures
        r == match configured {
            Some(v) => v,
            None => false,
        },
{
    bool_value(configured, false)
}

/// Whether fixup targets are always addressed by full hash; off unless
/// configured on.
pub fn fixup_target_always_sha(configured: Option<bool>) -> (r: bool)
    ensures
        r == match configured {
            Some(v) => v,
            None => false,
        },
{
    bool_value(configured, false)
}

} // verus!
