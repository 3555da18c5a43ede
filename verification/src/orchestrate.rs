//! The order of a run's stages, and the report that ends it.
use vstd::prelude::*;
use crate::error::Error;

verus! {

/// The stages of a run.
#[derive(Clone, Copy, Debug, PartialEq, Eq, Structural)]
pub enum Stage {
    /// Roots and exclusions are resolved.
    Normalizing,
    /// The roots are traversed for projects and sizes.
    ScanningBefore,
    /// The sizes found by the first traversal are summed.
    MeasuringBefore,
    /// A dry run reports what it measured and ends.
    DryStop,
    /// The cleanup command is run for every project.
    Cleaning,
    /// The roots are traversed again, for sizes only.
    ScanningAfter,
    /// The sizes found by the second traversal are summed.
    MeasuringAfter,
    /// The two sums are compared.
    Reporting,
    /// The run is over.
    Done,
}

/// The stage that follows `stage` in a run. With `dry`, the run ends after
/// the first measurement; without `size`, nothing is measured or reported.
pub open spec fn successor(stage: Stage, dry: bool, size: bool) -> Stage {
    match stage {
        Stage::Normalizing => Stage::ScanningBefore,
        Stage::ScanningBefore => if size {
            Stage::MeasuringBefore
        } else if dry {
            Stage::DryStop
        } else {
            Stage::Cleaning
        },
        Stage::MeasuringBefore => if dry {
            Stage::DryStop
        } else {
            Stage::Cleaning
        },
        Stage::DryStop => Stage::Done,
        Stage::Cleaning => Stage::ScanningAfter,
        Stage::ScanningAfter => if size {
            Stage::MeasuringAfter
        } else {
            Stage::Done
        },
        Stage::MeasuringAfter => Stage::Reporting,
        Stage::Reporting => Stage::Done,
        Stage::Done => Stage::Done,
    }
}

/// The stage that a run is in after `n` steps.
pub open spec fn stage_at(n: nat, dry: bool, size: bool) -> Stage
    decreases n,
{
    if n == 0 {
        Stage::Normalizing
    } else {
        successor(stage_at((n - 1) as nat, dry, size), dry, size)
    }
}

/// The stages in which projects are cleaned or the tree is looked at after
/// cleaning.
pub open spec fn follows_cleanup(stage: Stage) -> bool {
    stage == Stage::Cleaning || stage == Stage::ScanningAfter || stage == Stage::MeasuringAfter
        || stage == Stage::Reporting
}

/// Moves a run on to its next stage.
pub fn next_stage(stage: Stage, dry: bool, size: bool) -> (next: Stage)
    ensures
        next == successor(stage, dry, size),
{
    match stage {
        Stage::Normalizing => Stage::ScanningBefore,
        Stage::ScanningBefore => {
            if size {
                Stage::MeasuringBefore
            } else if dry {
                Stage::DryStop
            } else {
                Stage::Cleaning
            }
        },
        Stage::MeasuringBefore => {
            if dry {
                Stage::DryStop
            } else {
                Stage::Cleaning
            }
        },
        Stage::DryStop => Stage::Done,
        Stage::Cleaning => Stage::ScanningAfter,
        Stage::ScanningAfter => {
            if size {
                Stage::MeasuringAfter
            } else {
                Stage::Done
            }
        },
        Stage::MeasuringAfter => Stage::Reporting,
        Stage::Reporting => Stage::Done,
        Stage::Done => Stage::Done,
    }
}

/// Whether a traversal made in `stage` registers no projects: `None` for a
/// stage that does not traverse.
pub fn size_only_in(stage: Stage) -> (mode: Option<bool>)
    ensures
        mode == match stage {
            Stage::ScanningBefore => Some(false),
            Stage::ScanningAfter => Some(true),
            _ => None::<bool>,
        },
{
    match stage {
        Stage::ScanningBefore => Some(false),
        Stage::ScanningAfter => Some(true),
        _ => None,
    }
}

/// A dry run never cleans: it reaches neither the cleanup nor the second
/// traversal, the second measurement or the comparison.
pub proof fn lemma_dry_run_never_cleans(n: nat, size: bool)
    ensures
        !follows_cleanup(stage_at(n, true, size)),
    decreases n,
{
    if n > 0 {
        lemma_dry_run_never_cleans((n - 1) as nat, size);
    }
}

/// After the cleanup the roots are traversed again, however the cleanup of
/// any project ended: the next stage depends on the stage alone.
pub proof fn lemma_cleanup_is_followed_by_rescan(n: nat, dry: bool, size: bool)
    requires
        stage_at(n, dry, size) == Stage::Cleaning,
    ensures
        stage_at(n + 1, dry, size) == Stage::ScanningAfter,
{
}

/// Every run is over after eight steps, and stays so.
pub proof fn lemma_run_ends(n: nat, dry: bool, size: bool)
    requires
        n >= 8,
    ensures
        stage_at(n, dry, size) == Stage::Done,
    decreases n,
{
    if n == 8 {
        reveal_with_fuel(stage_at, 9);
    } else {
        lemma_run_ends((n - 1) as nat, dry, size);
    }
}

/// A run that is not dry does clean, and looks at the tree again.
pub proof fn lemma_full_run_cleans(size: bool)
    ensures
        exists|n: nat| stage_at(n, false, size) == Stage::Cleaning,
        exists|n: nat| stage_at(n, false, size) == Stage::ScanningAfter,
{
    reveal_with_fuel(stage_at, 5);
    if size {
        assert(stage_at(3, false, size) == Stage::Cleaning);
        assert(stage_at(4, false, size) == Stage::ScanningAfter);
    } else {
        assert(stage_at(2, false, size) == Stage::Cleaning);
        assert(stage_at(3, false, size) == Stage::ScanningAfter);
    }
}

/// The comparison of the sizes before and after the cleanup.
#[derive(Clone, Copy, Debug, PartialEq, Eq, Structural)]
pub struct Report {
    /// Bytes measured before the cleanup.
    pub before: u64,
    /// Bytes measured after the cleanup.
    pub after: u64,
    /// `before - after`: positive when space was reclaimed.
    pub difference: i128,
    /// A hundred thousand times `difference / before`, rounded towards zero:
    /// the change in thousandths of a percent. `None` when nothing was
    /// measured before.
    pub percent_milli: Option<i128>,
}

/// The change from `before` to `after` in thousandths of a percent of
/// `before`, rounded towards zero.
pub open spec fn percent_milli_of(before: u64, after: u64) -> Option<int> {
    if before == 0 {
        None
    } else if before >= after {
        Some(((before - after) * 100000) / (before as int))
    } else {
        Some(-(((after - before) * 100000) / (before as int)))
    }
}

impl Report {
    /// Whether this report compares `before` with `after`.
    pub open spec fn compares(&self, before: u64, after: u64) -> bool {
        &&& self.before == before
        &&& self.after == after
        &&& self.difference == before - after
        &&& match percent_milli_of(before, after) {
            Some(p) => self.percent_milli == Some(p as i128) && i128::MIN <= p <= i128::MAX,
            None => self.percent_milli is None,
        }
    }

    /// Compares the size before the cleanup with the size after it.
    pub fn new(before: u64, after: u64) -> (report: Report)
        ensures
            report.compares(before, after),
    {
        let difference: i128 = before as i128 - after as i128;
        let percent_milli: Option<i128> = if before == 0 {
            None
        } else if before >= after {
            let gap: u128 = (before - after) as u128;
            assert(gap * 100000 <= 0xffff_ffff_ffff_ffff * 100000) by (nonlinear_arith)
                requires
                    gap <= 0xffff_ffff_ffff_ffff,
            ;
            let scaled: u128 = gap * 100000;
            let part: u128 = scaled / (before as u128);
            assert(part <= scaled) by (nonlinear_arith)
                requires
                    part == scaled / (before as u128),
                    before >= 1,
            ;
            Some(part as i128)
        } else {
            let gap: u128 = (after - before) as u128;
            assert(gap * 100000 <= 0xffff_ffff_ffff_ffff * 100000) by (nonlinear_arith)
                requires
                    gap <= 0xffff_ffff_ffff_ffff,
            ;
            let scaled: u128 = gap * 100000;
            let part: u128 = scaled / (before as u128);
            assert(part <= scaled) by (nonlinear_arith)
                requires
                    part == scaled / (before as u128),
                    before >= 1,
            ;
            Some(-(part as i128))
        };
        Report { before, after, difference, percent_milli }
    }
}

/// What the end of a run reports: nothing when no size was measured before
/// the cleanup, the comparison when both sizes are there, and an error when
/// the size after the cleanup is missing.
pub open spec fn concludes(
    outcome: Result<Option<Report>, Error>,
    before: Option<u64>,
    after: Option<u64>,
) -> bool {
    match (before, after) {
        (None, _) => outcome == Ok::<Option<Report>, Error>(None),
        (Some(_), None) => outcome == Err::<Option<Report>, Error>(Error::SizeNotCalculated),
        (Some(b), Some(a)) => outcome is Ok && outcome->Ok_0 is Some
            && outcome->Ok_0.unwrap().compares(b, a),
    }
}

/// Draws up the report at the end of a run.
pub fn conclude(before: Option<u64>, after: Option<u64>) -> (outcome: Result<Option<Report>, Error>)
    ensures
        concludes(outcome, before, after),
{
    match before {
        None => Ok(None),
        Some(b) => match after {
            None => Err(Error::SizeNotCalculated),
            Some(a) => Ok(Some(Report::new(b, a))),
        },
    }
}

} // verus!
