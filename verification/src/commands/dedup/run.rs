//! The phases of `dedup`, and what they add up to.
use crate::client::{CaptionBackend, DedupWriteBackend, WriteView};
use crate::commands::dedup::classify::{
    capture_times, law_only_copies_are_deleted, GroupDecision, Ratio, SkipReason,
};
use crate::commands::dedup::plan::{
    asset_ids, plan_group, planned, planning_allowed, winner_by_size, ActionPlan,
};
use crate::commands::dedup::reports::{
    deletion_log, deletion_outcome, deletion_writes, dismissal_log, dismissal_outcome,
    dismissal_writes, law_deletion_spares_the_keeper, plan_deletion, plan_dismissal, plan_stacking,
    report_deletion, report_dismissal, report_stacking, stacking_log, stacking_outcome,
    stacking_writes, DeleteOutcome, KeepOutcome, WorkOutcome,
};
use crate::commands::dedup::triage::{
    all_decisions, capped, considered, doomed, in_a_stack, kept, log_skips, skips_text, stacked_ids,
    triage,
};
use crate::commands::dedup::writes::{all_allowed, perform_all, write_replies};
use crate::error::Error;
use crate::llm::MultiImageVisionLlm;
use crate::models::{Degrees, DuplicateGroup, Stack};
use crate::text::{concat, decimal, lemma_concat_push, numeral};
use vstd::prelude::*;
use vstd::string::*;

verus! {

/// A fraction with a sign.
#[derive(Debug, Clone, Copy, PartialEq, Eq)]
pub struct Fraction {
    pub num: i64,
    pub den: u64,
}

#[derive(Debug)]
pub struct DedupArgs {
    /// Make the changes. Without this, what would be done is only told.
    pub apply: bool,
    /// How far the capture times of a group may lie apart, in seconds. The
    /// hard guard of six hours stands whatever this says.
    pub max_time_gap_secs: i64,
    /// How far the members of a group may lie apart, in metres.
    pub max_distance_m: Fraction,
    /// The winner is the largest file where `1 - smallest / largest` is more
    /// than this.
    pub size_ratio: Fraction,
    /// How many groups get a winner at most; 0 means no cap.
    pub limit: u32,
    /// How many groups are worked on at once.
    pub parallel: u32,
    /// Tell why groups are skipped.
    pub verbose: bool,
}

impl DedupArgs {
    /// Why the arguments are refused, if they are.
    pub open spec fn refusal(self) -> Option<Error> {
        if self.parallel == 0 {
            Some(Error::ParallelZero)
        } else if self.max_time_gap_secs < 0 {
            Some(Error::TimeGapNegative)
        } else if self.max_distance_m.num < 0 {
            Some(Error::DistanceNegative)
        } else if !(0 < self.size_ratio.den && 0 <= self.size_ratio.num <= self.size_ratio.den) {
            Some(Error::SizeRatioOutOfRange)
        } else {
            None
        }
    }

    pub fn validate(&self) -> (r: Result<(), Error>)
        ensures
            match r {
                Ok(_) => self.refusal() is None,
                Err(e) => self.refusal() == Some(e),
            },
    {
        if self.parallel == 0 {
            return Err(Error::ParallelZero);
        }
        if self.max_time_gap_secs < 0 {
            return Err(Error::TimeGapNegative);
        }
        if self.max_distance_m.num < 0 {
            return Err(Error::DistanceNegative);
        }
        if self.size_ratio.den == 0 || self.size_ratio.num < 0 || self.size_ratio.num as u64
            > self.size_ratio.den {
            return Err(Error::SizeRatioOutOfRange);
        }
        Ok(())
    }

    /// The size ratio of arguments that were not refused.
    pub open spec fn ratio(self) -> Ratio {
        Ratio { num: self.size_ratio.num as u64, den: self.size_ratio.den }
    }
}

// ---- counting ---------------------------------------------------------------

/// How often `x` occurs.
pub open spec fn occurrences<T>(s: Seq<T>, x: T) -> nat
    decreases s.len(),
{
    if s.len() == 0 {
        0
    } else {
        occurrences(s.drop_last(), x) + if s.last() == x {
            1nat
        } else {
            0
        }
    }
}

proof fn lemma_occurrences_bound<T>(s: Seq<T>, x: T)
    ensures
        occurrences(s, x) <= s.len(),
    decreases s.len(),
{
    if s.len() > 0 {
        lemma_occurrences_bound(s.drop_last(), x);
    }
}

/// How the groups that needed a winner came out.
#[derive(Debug, Clone, Copy)]
pub struct WorkCounts {
    pub plan_failed: usize,
    pub would_apply: usize,
    pub applied: usize,
    pub applied_with_warnings: usize,
    pub apply_failed: usize,
}

impl WorkCounts {
    /// The counts of these outcomes.
    pub open spec fn counts(self, outcomes: Seq<WorkOutcome>) -> bool {
        &&& self.plan_failed == occurrences(outcomes, WorkOutcome::PlanFailed)
        &&& self.would_apply == occurrences(outcomes, WorkOutcome::WouldApply)
        &&& self.applied == occurrences(outcomes, WorkOutcome::Applied)
        &&& self.applied_with_warnings == occurrences(outcomes, WorkOutcome::AppliedWithWarnings)
        &&& self.apply_failed == occurrences(outcomes, WorkOutcome::ApplyFailed)
    }

    pub fn tally(outcomes: &Vec<WorkOutcome>) -> (r: WorkCounts)
        ensures
            r.counts(outcomes@),
    {
        let mut out = WorkCounts {
            plan_failed: 0,
            would_apply: 0,
            applied: 0,
            applied_with_warnings: 0,
            apply_failed: 0,
        };
        let mut i: usize = 0;
        while i < outcomes.len()
            invariant
                i <= outcomes.len(),
                out.counts(outcomes@.take(i as int)),
            decreases outcomes.len() - i,
        {
            proof {
                let past = outcomes@.take(i as int);
                assert(outcomes@.take(i + 1).drop_last() =~= past);
                lemma_occurrences_bound(past, WorkOutcome::PlanFailed);
                lemma_occurrences_bound(past, WorkOutcome::WouldApply);
                lemma_occurrences_bound(past, WorkOutcome::Applied);
                lemma_occurrences_bound(past, WorkOutcome::AppliedWithWarnings);
                lemma_occurrences_bound(past, WorkOutcome::ApplyFailed);
            }
            match outcomes[i] {
                WorkOutcome::PlanFailed => out.plan_failed += 1,
                WorkOutcome::WouldApply => out.would_apply += 1,
                WorkOutcome::Applied => out.applied += 1,
                WorkOutcome::AppliedWithWarnings => out.applied_with_warnings += 1,
                WorkOutcome::ApplyFailed => out.apply_failed += 1,
            }
            i += 1;
        }
        assert(outcomes@.take(i as int) =~= outcomes@);
        out
    }
}

/// How the groups of copies came out.
#[derive(Debug, Clone, Copy)]
pub struct AutoDeleteCounts {
    pub would_delete_groups: usize,
    pub would_delete_assets: u128,
    pub deleted_groups: usize,
    pub deleted_assets: u128,
    pub delete_failed: usize,
}

/// The groups that would lose members, and how many they would lose.
pub open spec fn would_delete(outcomes: Seq<DeleteOutcome>) -> (nat, nat)
    decreases outcomes.len(),
{
    if outcomes.len() == 0 {
        (0, 0)
    } else {
        let t = would_delete(outcomes.drop_last());
        match outcomes.last() {
            DeleteOutcome::WouldDelete(n) => (t.0 + 1, t.1 + n as nat),
            _ => t,
        }
    }
}

/// The groups that lost members, and how many they lost.
pub open spec fn deleted(outcomes: Seq<DeleteOutcome>) -> (nat, nat)
    decreases outcomes.len(),
{
    if outcomes.len() == 0 {
        (0, 0)
    } else {
        let t = deleted(outcomes.drop_last());
        match outcomes.last() {
            DeleteOutcome::Deleted(n) => (t.0 + 1, t.1 + n as nat),
            _ => t,
        }
    }
}

impl AutoDeleteCounts {
    pub open spec fn counts(self, outcomes: Seq<DeleteOutcome>) -> bool {
        &&& self.would_delete_groups == would_delete(outcomes).0
        &&& self.would_delete_assets == would_delete(outcomes).1
        &&& self.deleted_groups == deleted(outcomes).0
        &&& self.deleted_assets == deleted(outcomes).1
        &&& self.delete_failed == occurrences(outcomes, DeleteOutcome::Failed)
    }

    pub fn tally(outcomes: &Vec<DeleteOutcome>) -> (r: AutoDeleteCounts)
        ensures
            r.counts(outcomes@),
    {
        let mut out = AutoDeleteCounts {
            would_delete_groups: 0,
            would_delete_assets: 0,
            deleted_groups: 0,
            deleted_assets: 0,
            delete_failed: 0,
        };
        let mut i: usize = 0;
        while i < outcomes.len()
            invariant
                i <= outcomes.len(),
                out.counts(outcomes@.take(i as int)),
                out.would_delete_groups <= i,
                out.deleted_groups <= i,
                out.would_delete_assets <= i * usize::MAX,
                out.deleted_assets <= i * usize::MAX,
            decreases outcomes.len() - i,
        {
            proof {
                let past = outcomes@.take(i as int);
                assert(outcomes@.take(i + 1).drop_last() =~= past);
                lemma_occurrences_bound(past, DeleteOutcome::Failed);
                lemma_product_fits(i);
            }
            match outcomes[i] {
                DeleteOutcome::Nothing => {},
                DeleteOutcome::WouldDelete(n) => {
                    out.would_delete_groups += 1;
                    out.would_delete_assets += n as u128;
                },
                DeleteOutcome::Deleted(n) => {
                    out.deleted_groups += 1;
                    out.deleted_assets += n as u128;
                },
                DeleteOutcome::Failed => out.delete_failed += 1,
            }
            i += 1;
        }
        assert(outcomes@.take(i as int) =~= outcomes@);
        out
    }
}

proof fn lemma_product_fits(i: usize)
    requires
        i < usize::MAX,
    ensures
        (i + 1) * usize::MAX == i * usize::MAX + usize::MAX,
        (i + 1) * usize::MAX <= u128::MAX,
{
    let m: int = usize::MAX as int;
    assert((i + 1) * m == i * m + m) by (nonlinear_arith);
    assert((i + 1) * m <= m * m) by (nonlinear_arith)
        requires
            i + 1 <= m,
            0 <= m,
    ;
    assert(m * m <= 0xffff_ffff_ffff_ffff * 0xffff_ffff_ffff_ffff) by (nonlinear_arith)
        requires
            0 <= m <= 0xffff_ffff_ffff_ffff,
    ;
}

/// How the groups that are kept as they are came out.
#[derive(Debug, Clone, Copy)]
pub struct KeepAllCounts {
    pub would_keep_groups: usize,
    pub would_keep_assets: u128,
    pub kept_groups: usize,
    pub kept_assets: u128,
    pub keep_failed: usize,
}

/// The groups that would be dismissed, and how many assets they have.
pub open spec fn would_keep(outcomes: Seq<KeepOutcome>) -> (nat, nat)
    decreases outcomes.len(),
{
    if outcomes.len() == 0 {
        (0, 0)
    } else {
        let t = would_keep(outcomes.drop_last());
        match outcomes.last() {
            KeepOutcome::WouldKeep(n) => (t.0 + 1, t.1 + n as nat),
            _ => t,
        }
    }
}

/// The groups that were dismissed, and how many assets they have.
pub open spec fn dismissed(outcomes: Seq<KeepOutcome>) -> (nat, nat)
    decreases outcomes.len(),
{
    if outcomes.len() == 0 {
        (0, 0)
    } else {
        let t = dismissed(outcomes.drop_last());
        match outcomes.last() {
            KeepOutcome::Kept(n) => (t.0 + 1, t.1 + n as nat),
            _ => t,
        }
    }
}

impl KeepAllCounts {
    pub open spec fn counts(self, outcomes: Seq<KeepOutcome>) -> bool {
        &&& self.would_keep_groups == would_keep(outcomes).0
        &&& self.would_keep_assets == would_keep(outcomes).1
        &&& self.kept_groups == dismissed(outcomes).0
        &&& self.kept_assets == dismissed(outcomes).1
        &&& self.keep_failed == occurrences(outcomes, KeepOutcome::Failed)
    }

    pub fn tally(outcomes: &Vec<KeepOutcome>) -> (r: KeepAllCounts)
        ensures
            r.counts(outcomes@),
    {
        let mut out = KeepAllCounts {
            would_keep_groups: 0,
            would_keep_assets: 0,
            kept_groups: 0,
            kept_assets: 0,
            keep_failed: 0,
        };
        let mut i: usize = 0;
        while i < outcomes.len()
            invariant
                i <= outcomes.len(),
                out.counts(outcomes@.take(i as int)),
                out.would_keep_groups <= i,
                out.kept_groups <= i,
                out.would_keep_assets <= i * usize::MAX,
                out.kept_assets <= i * usize::MAX,
            decreases outcomes.len() - i,
        {
            proof {
                let past = outcomes@.take(i as int);
                assert(outcomes@.take(i + 1).drop_last() =~= past);
                lemma_occurrences_bound(past, KeepOutcome::Failed);
                lemma_product_fits(i);
            }
            match outcomes[i] {
                KeepOutcome::WouldKeep(n) => {
                    out.would_keep_groups += 1;
                    out.would_keep_assets += n as u128;
                },
                KeepOutcome::Kept(n) => {
                    out.kept_groups += 1;
                    out.kept_assets += n as u128;
                },
                KeepOutcome::Failed => out.keep_failed += 1,
            }
            i += 1;
        }
        assert(outcomes@.take(i as int) =~= outcomes@);
        out
    }
}

/// How many groups were skipped, by reason.
#[derive(Debug, Clone, Copy)]
pub struct SkipCounts {
    pub already_stacked: usize,
    pub too_few: usize,
    pub contains_video: usize,
    pub different_folders: usize,
    pub time_gap_too_large: usize,
    pub distance_too_large: usize,
    pub missing_capture_time: usize,
}

pub open spec fn skips(decisions: Seq<GroupDecision>, reason: SkipReason) -> nat {
    occurrences(decisions, GroupDecision::Skip(reason))
}

impl SkipCounts {
    pub open spec fn counts(self, decisions: Seq<GroupDecision>) -> bool {
        &&& self.already_stacked == skips(decisions, SkipReason::AlreadyStacked)
        &&& self.too_few == skips(decisions, SkipReason::TooFewAssets)
        &&& self.contains_video == skips(decisions, SkipReason::ContainsVideo)
        &&& self.different_folders == skips(decisions, SkipReason::DifferentFolders)
        &&& self.time_gap_too_large == skips(decisions, SkipReason::TimeGapTooLarge)
        &&& self.distance_too_large == skips(decisions, SkipReason::DistanceTooLarge)
        &&& self.missing_capture_time == skips(decisions, SkipReason::MissingCaptureTime)
    }

    /// Counts one more skipped group.
    fn record_skip(&mut self, reason: SkipReason)
        requires
            old(self).already_stacked < usize::MAX,
            old(self).too_few < usize::MAX,
            old(self).contains_video < usize::MAX,
            old(self).different_folders < usize::MAX,
            old(self).time_gap_too_large < usize::MAX,
            old(self).distance_too_large < usize::MAX,
            old(self).missing_capture_time < usize::MAX,
        ensures
            *final(self) == (match reason {
                SkipReason::AlreadyStacked => SkipCounts {
                    already_stacked: (old(self).already_stacked + 1) as usize,
                    ..*old(self)
                },
                SkipReason::TooFewAssets => SkipCounts {
                    too_few: (old(self).too_few + 1) as usize,
                    ..*old(self)
                },
                SkipReason::ContainsVideo => SkipCounts {
                    contains_video: (old(self).contains_video + 1) as usize,
                    ..*old(self)
                },
                SkipReason::DifferentFolders => SkipCounts {
                    different_folders: (old(self).different_folders + 1) as usize,
                    ..*old(self)
                },
                SkipReason::TimeGapTooLarge => SkipCounts {
                    time_gap_too_large: (old(self).time_gap_too_large + 1) as usize,
                    ..*old(self)
                },
                SkipReason::DistanceTooLarge => SkipCounts {
                    distance_too_large: (old(self).distance_too_large + 1) as usize,
                    ..*old(self)
                },
                SkipReason::MissingCaptureTime => SkipCounts {
                    missing_capture_time: (old(self).missing_capture_time + 1) as usize,
                    ..*old(self)
                },
            }),
    {
        match reason {
            SkipReason::AlreadyStacked => self.already_stacked += 1,
            SkipReason::TooFewAssets => self.too_few += 1,
            SkipReason::ContainsVideo => self.contains_video += 1,
            SkipReason::DifferentFolders => self.different_folders += 1,
            SkipReason::TimeGapTooLarge => self.time_gap_too_large += 1,
            SkipReason::DistanceTooLarge => self.distance_too_large += 1,
            SkipReason::MissingCaptureTime => self.missing_capture_time += 1,
        }
    }

    pub fn tally(decisions: &Vec<GroupDecision>) -> (r: SkipCounts)
        ensures
            r.counts(decisions@),
    {
        let mut out = SkipCounts {
            already_stacked: 0,
            too_few: 0,
            contains_video: 0,
            different_folders: 0,
            time_gap_too_large: 0,
            distance_too_large: 0,
            missing_capture_time: 0,
        };
        let mut i: usize = 0;
        while i < decisions.len()
            invariant
                i <= decisions.len(),
                out.counts(decisions@.take(i as int)),
            decreases decisions.len() - i,
        {
            proof {
                let past = decisions@.take(i as int);
                assert(decisions@.take(i + 1).drop_last() =~= past);
                assert forall|x: GroupDecision| #[trigger] occurrences(past, x) <= i by {
                    lemma_occurrences_bound(past, x);
                }
            }
            if let GroupDecision::Skip(reason) = &decisions[i] {
                out.record_skip(*reason);
            }
            i += 1;
        }
        assert(decisions@.take(i as int) =~= decisions@);
        out
    }
}

/// What a run comes to.
#[derive(Debug, Clone, Copy)]
pub struct Counts {
    pub skipped: SkipCounts,
    pub auto_delete: AutoDeleteCounts,
    pub keep_all: KeepAllCounts,
    pub work: WorkCounts,
}

/// The lines that end a run.
pub open spec fn summary_text(c: Counts, apply: bool) -> Seq<char> {
    skipped_line(c.skipped) + (if apply {
        applied_lines(c)
    } else {
        dry_run_lines(c)
    })
}

pub open spec fn skipped_line(s: SkipCounts) -> Seq<char> {
    "skipped: already_stacked="@ + decimal(s.already_stacked as nat) + " too_few="@ + decimal(
        s.too_few as nat,
    ) + " video="@ + decimal(s.contains_video as nat) + " folders="@ + decimal(
        s.different_folders as nat,
    ) + " time_gap="@ + decimal(s.time_gap_too_large as nat) + " distance="@ + decimal(
        s.distance_too_large as nat,
    ) + " no_time="@ + decimal(s.missing_capture_time as nat) + "\n"@
}

pub open spec fn applied_lines(c: Counts) -> Seq<char> {
    "auto-deleted: "@ + decimal(c.auto_delete.deleted_groups as nat) + " group(s), "@ + decimal(
        c.auto_delete.deleted_assets as nat,
    ) + " asset(s); "@ + decimal(c.auto_delete.delete_failed as nat)
        + " failed\nkept-all (>6h spread): "@ + decimal(c.keep_all.kept_groups as nat)
        + " group(s), "@ + decimal(c.keep_all.kept_assets as nat) + " asset(s); "@ + decimal(
        c.keep_all.keep_failed as nat,
    ) + " failed\napplied: "@ + decimal(c.work.applied as nat) + " ok, "@ + decimal(
        c.work.applied_with_warnings as nat,
    ) + " ok-with-warnings, "@ + decimal(c.work.apply_failed as nat) + " stack failed, "@ + decimal(
        c.work.plan_failed as nat,
    ) + " plan failed\n"@
}

pub open spec fn dry_run_lines(c: Counts) -> Seq<char> {
    "would auto-delete: "@ + decimal(c.auto_delete.would_delete_groups as nat) + " group(s), "@
        + decimal(c.auto_delete.would_delete_assets as nat)
        + " asset(s)\nwould keep-all (>6h spread): "@ + decimal(c.keep_all.would_keep_groups as nat)
        + " group(s), "@ + decimal(c.keep_all.would_keep_assets as nat)
        + " asset(s)\nwould apply: "@ + decimal(c.work.would_apply as nat) + " group(s); "@
        + decimal(c.work.plan_failed as nat) + " plan failed\n"@
}

impl Counts {
    pub fn write_summary(&self, apply: bool) -> (r: String)
        ensures
            r@ == summary_text(*self, apply),
    {
        let s = &self.skipped;
        let mut out = "skipped: already_stacked=".to_owned();
        out.append(numeral(s.already_stacked as u128).as_str());
        out.append(" too_few=");
        out.append(numeral(s.too_few as u128).as_str());
        out.append(" video=");
        out.append(numeral(s.contains_video as u128).as_str());
        out.append(" folders=");
        out.append(numeral(s.different_folders as u128).as_str());
        out.append(" time_gap=");
        out.append(numeral(s.time_gap_too_large as u128).as_str());
        out.append(" distance=");
        out.append(numeral(s.distance_too_large as u128).as_str());
        out.append(" no_time=");
        out.append(numeral(s.missing_capture_time as u128).as_str());
        out.append("\n");
        let rest = if apply {
            let mut rest = "auto-deleted: ".to_owned();
            rest.append(numeral(self.auto_delete.deleted_groups as u128).as_str());
            rest.append(" group(s), ");
            rest.append(numeral(self.auto_delete.deleted_assets).as_str());
            rest.append(" asset(s); ");
            rest.append(numeral(self.auto_delete.delete_failed as u128).as_str());
            rest.append(" failed\nkept-all (>6h spread): ");
            rest.append(numeral(self.keep_all.kept_groups as u128).as_str());
            rest.append(" group(s), ");
            rest.append(numeral(self.keep_all.kept_assets).as_str());
            rest.append(" asset(s); ");
            rest.append(numeral(self.keep_all.keep_failed as u128).as_str());
            rest.append(" failed\napplied: ");
            rest.append(numeral(self.work.applied as u128).as_str());
            rest.append(" ok, ");
            rest.append(numeral(self.work.applied_with_warnings as u128).as_str());
            rest.append(" ok-with-warnings, ");
            rest.append(numeral(self.work.apply_failed as u128).as_str());
            rest.append(" stack failed, ");
            rest.append(numeral(self.work.plan_failed as u128).as_str());
            rest.append(" plan failed\n");
            rest
        } else {
            let mut rest = "would auto-delete: ".to_owned();
            rest.append(numeral(self.auto_delete.would_delete_groups as u128).as_str());
            rest.append(" group(s), ");
            rest.append(numeral(self.auto_delete.would_delete_assets).as_str());
            rest.append(" asset(s)\nwould keep-all (>6h spread): ");
            rest.append(numeral(self.keep_all.would_keep_groups as u128).as_str());
            rest.append(" group(s), ");
            rest.append(numeral(self.keep_all.would_keep_assets).as_str());
            rest.append(" asset(s)\nwould apply: ");
            rest.append(numeral(self.work.would_apply as u128).as_str());
            rest.append(" group(s); ");
            rest.append(numeral(self.work.plan_failed as u128).as_str());
            rest.append(" plan failed\n");
            rest
        };
        out.append(rest.as_str());
        out
    }
}

// ---- the phases -------------------------------------------------------------

/// Copies are deleted group by group: what the server answered for each, what
/// came of it, and what is logged.
pub open spec fn deletions<W: DedupWriteBackend>(
    write_be: &W,
    groups: Seq<DuplicateGroup>,
    list: Seq<(usize, usize, Option<(Degrees, Degrees)>)>,
    apply: bool,
    replies: Seq<Seq<Result<(), Error>>>,
    outcomes: Seq<DeleteOutcome>,
    logs: Seq<Seq<char>>,
) -> bool {
    &&& replies.len() == list.len()
    &&& outcomes.len() == list.len()
    &&& logs.len() == list.len()
    &&& forall|i: int|
        0 <= i < list.len() ==> {
            let group = groups[(#[trigger] list[i]).0 as int];
            &&& write_replies(
                write_be,
                deletion_writes(group.assets@, list[i].1 as int, list[i].2, apply),
                replies[i],
            )
            &&& outcomes[i] == deletion_outcome(group.assets@.len(), apply, replies[i])
            &&& logs[i] == deletion_log(group, list[i].1 as int, list[i].2, apply, replies[i])
        }
}

/// The changes that the listed groups of copies need may be asked for, group by
/// group.
pub open spec fn deletions_allowed<W: DedupWriteBackend>(
    write_be: &W,
    groups: Seq<DuplicateGroup>,
    list: Seq<(usize, usize, Option<(Degrees, Degrees)>)>,
    apply: bool,
) -> bool {
    forall|
        i: int,
        replies: Seq<Seq<Result<(), Error>>>,
        outcomes: Seq<DeleteOutcome>,
        logs: Seq<Seq<char>>,
    |
        0 <= i < list.len() && #[trigger] deletions(
            write_be,
            groups,
            list.take(i),
            apply,
            replies,
            outcomes,
            logs,
        ) ==> all_allowed(
            write_be,
            deletion_writes(
                groups[list[i].0 as int].assets@,
                list[i].1 as int,
                list[i].2,
                apply,
            ),
        )
}

/// Deletes the copies that were found, or tells what would be deleted. A
/// failure in one group does not stop the others.
pub fn run_auto_deletes<W: DedupWriteBackend>(
    write_be: &W,
    groups: &Vec<DuplicateGroup>,
    list: &Vec<(usize, usize, Option<(Degrees, Degrees)>)>,
    apply: bool,
) -> (r: (AutoDeleteCounts, String))
    requires
        forall|i: int|
            0 <= i < list.len() ==> (#[trigger] list@[i]).0 < groups.len() && list@[i].1
                < groups@[list@[i].0 as int].assets.len(),
        deletions_allowed(write_be, groups@, list@, apply),
    ensures
        exists|
            replies: Seq<Seq<Result<(), Error>>>,
            outcomes: Seq<DeleteOutcome>,
            logs: Seq<Seq<char>>,
        | #[trigger]
            deletions(write_be, groups@, list@, apply, replies, outcomes, logs) && r.0.counts(
                outcomes,
            ) && r.1@ == concat(logs),
{
    let mut outcomes: Vec<DeleteOutcome> = Vec::new();
    let mut out = String::new();
    let ghost mut replies: Seq<Seq<Result<(), Error>>> = Seq::empty();
    let ghost mut logs: Seq<Seq<char>> = Seq::empty();
    let mut i: usize = 0;
    assert(out@ =~= concat(logs));
    assert(list@.take(0) =~= Seq::empty());
    while i < list.len()
        invariant
            i <= list.len(),
            forall|j: int|
                0 <= j < list.len() ==> (#[trigger] list@[j]).0 < groups.len() && list@[j].1
                    < groups@[list@[j].0 as int].assets.len(),
            deletions_allowed(write_be, groups@, list@, apply),
            deletions(
                write_be,
                groups@,
                list@.take(i as int),
                apply,
                replies,
                outcomes@,
                logs,
            ),
            out@ == concat(logs),
        decreases list.len() - i,
    {
        let item = &list[i];
        assert(list@[i as int].0 < groups.len());
        let group = &groups[item.0];
        let writes = plan_deletion(group, item.1, &item.2, apply);
        let answers = perform_all(write_be, &writes);
        let (outcome, log) = report_deletion(group, item.1, &item.2, apply, &answers);
        proof {
            lemma_concat_push(logs, log@);
            let now = list@.take(i + 1);
            assert(now.len() == i + 1);
            assert forall|j: int| 0 <= j < now.len() implies #[trigger] now[j] == list@[j] by {}
            assert forall|j: int| 0 <= j < i implies #[trigger] now[j] == list@.take(
                i as int,
            )[j] by {}
            replies = replies.push(answers@);
            logs = logs.push(log@);
        }
        outcomes.push(outcome);
        out.append(log.as_str());
        i += 1;
    }
    assert(list@.take(i as int) =~= list@);
    (AutoDeleteCounts::tally(&outcomes), out)
}

/// Groups are dismissed one by one: what the server answered for each, what
/// came of it, and what is logged.
pub open spec fn dismissals<W: DedupWriteBackend>(
    write_be: &W,
    groups: Seq<DuplicateGroup>,
    list: Seq<usize>,
    apply: bool,
    replies: Seq<Seq<Result<(), Error>>>,
    outcomes: Seq<KeepOutcome>,
    logs: Seq<Seq<char>>,
) -> bool {
    &&& replies.len() == list.len()
    &&& outcomes.len() == list.len()
    &&& logs.len() == list.len()
    &&& forall|i: int|
        0 <= i < list.len() ==> {
            let group = groups[(#[trigger] list[i]) as int];
            &&& write_replies(write_be, dismissal_writes(group, apply), replies[i])
            &&& outcomes[i] == dismissal_outcome(group.assets@.len(), apply, replies[i])
            &&& logs[i] == dismissal_log(group, apply, replies[i])
        }
}

/// The changes that the groups to dismiss need may be asked for, group by group.
pub open spec fn dismissals_allowed<W: DedupWriteBackend>(
    write_be: &W,
    groups: Seq<DuplicateGroup>,
    list: Seq<usize>,
    apply: bool,
) -> bool {
    forall|
        i: int,
        replies: Seq<Seq<Result<(), Error>>>,
        outcomes: Seq<KeepOutcome>,
        logs: Seq<Seq<char>>,
    |
        0 <= i < list.len() && #[trigger] dismissals(
            write_be,
            groups,
            list.take(i),
            apply,
            replies,
            outcomes,
            logs,
        ) ==> all_allowed(write_be, dismissal_writes(groups[list[i] as int], apply))
}

/// Dismisses the groups whose members are all kept, or tells which would be.
/// A failure in one group does not stop the others.
pub fn run_keep_all<W: DedupWriteBackend>(
    write_be: &W,
    groups: &Vec<DuplicateGroup>,
    list: &Vec<usize>,
    apply: bool,
) -> (r: (KeepAllCounts, String))
    requires
        forall|i: int| 0 <= i < list.len() ==> #[trigger] list@[i] < groups.len(),
        dismissals_allowed(write_be, groups@, list@, apply),
    ensures
        exists|
            replies: Seq<Seq<Result<(), Error>>>,
            outcomes: Seq<KeepOutcome>,
            logs: Seq<Seq<char>>,
        | #[trigger]
            dismissals(write_be, groups@, list@, apply, replies, outcomes, logs) && r.0.counts(
                outcomes,
            ) && r.1@ == concat(logs),
{
    let mut outcomes: Vec<KeepOutcome> = Vec::new();
    let mut out = String::new();
    let ghost mut replies: Seq<Seq<Result<(), Error>>> = Seq::empty();
    let ghost mut logs: Seq<Seq<char>> = Seq::empty();
    let mut i: usize = 0;
    assert(out@ =~= concat(logs));
    assert(list@.take(0) =~= Seq::empty());
    while i < list.len()
        invariant
            i <= list.len(),
            forall|j: int| 0 <= j < list.len() ==> #[trigger] list@[j] < groups.len(),
            dismissals_allowed(write_be, groups@, list@, apply),
            dismissals(
                write_be,
                groups@,
                list@.take(i as int),
                apply,
                replies,
                outcomes@,
                logs,
            ),
            out@ == concat(logs),
        decreases list.len() - i,
    {
        let group = &groups[list[i]];
        let writes = plan_dismissal(group, apply);
        let answers = perform_all(write_be, &writes);
        let (outcome, log) = report_dismissal(group, apply, &answers);
        proof {
            lemma_concat_push(logs, log@);
            let now = list@.take(i + 1);
            assert forall|j: int| 0 <= j < i implies #[trigger] now[j] == list@.take(
                i as int,
            )[j] by {}
            replies = replies.push(answers@);
            logs = logs.push(log@);
        }
        outcomes.push(outcome);
        out.append(log.as_str());
        i += 1;
    }
    assert(list@.take(i as int) =~= list@);
    (KeepAllCounts::tally(&outcomes), out)
}

/// One group was planned, and the plan carried out or told.
pub open spec fn worked<C: CaptionBackend, V: MultiImageVisionLlm, W: DedupWriteBackend>(
    caption_be: &C,
    llm: &V,
    write_be: &W,
    group: DuplicateGroup,
    size_ratio: Ratio,
    apply: bool,
    outcome: WorkOutcome,
    log: Seq<char>,
) -> bool {
    exists|plan: Result<ActionPlan, Error>| #[trigger]
        planned(caption_be, llm, group.assets@, size_ratio, plan) && match plan {
            Err(e) => {
                &&& outcome == WorkOutcome::PlanFailed
                &&& log == "FAIL plan group "@ + group.duplicate_id@ + " — "@ + e.full_text()
                    + "\n"@
            },
            Ok(plan) => exists|replies: Seq<Result<(), Error>>| #[trigger]
                write_replies(write_be, stacking_writes(plan, apply), replies) && outcome
                    == stacking_outcome(apply, replies) && log == stacking_log(
                    group,
                    plan,
                    apply,
                    replies,
                ),
        }
}

/// What planning the group and carrying the plan out needs may be asked for,
/// whatever the plan is.
pub open spec fn work_allowed<C: CaptionBackend, V: MultiImageVisionLlm, W: DedupWriteBackend>(
    caption_be: &C,
    llm: &V,
    write_be: &W,
    group: DuplicateGroup,
    size_ratio: Ratio,
    apply: bool,
) -> bool {
    &&& planning_allowed(caption_be, llm, group.assets@, size_ratio)
    &&& forall|plan: ActionPlan| #[trigger]
        planned(caption_be, llm, group.assets@, size_ratio, Ok(plan)) ==> all_allowed(
            write_be,
            stacking_writes(plan, apply),
        )
}

/// Plans one group and carries the plan out, or tells it.
pub fn process_group<C: CaptionBackend, V: MultiImageVisionLlm, W: DedupWriteBackend>(
    caption_be: &C,
    llm: &V,
    write_be: &W,
    group: &DuplicateGroup,
    size_ratio: Ratio,
    apply: bool,
) -> (r: (WorkOutcome, String))
    requires
        work_allowed(caption_be, llm, write_be, *group, size_ratio, apply),
    ensures
        worked(caption_be, llm, write_be, *group, size_ratio, apply, r.0, r.1@),
{
    let plan = plan_group(caption_be, llm, group, size_ratio);
    assert(planned(caption_be, llm, group.assets@, size_ratio, plan));
    match plan {
        Err(e) => {
            let mut line = "FAIL plan group ".to_owned();
            line.append(group.duplicate_id.as_str());
            line.append(" — ");
            line.append(e.full_message().as_str());
            line.append("\n");
            (WorkOutcome::PlanFailed, line)
        },
        Ok(plan) => {
            let writes = plan_stacking(&plan, apply);
            let answers = perform_all(write_be, &writes);
            assert(write_replies(write_be, stacking_writes(plan, apply), answers@));
            report_stacking(group, &plan, apply, &answers)
        },
    }
}

/// Every listed group was planned, and its plan carried out or told.
pub open spec fn all_worked<C: CaptionBackend, V: MultiImageVisionLlm, W: DedupWriteBackend>(
    caption_be: &C,
    llm: &V,
    write_be: &W,
    groups: Seq<DuplicateGroup>,
    list: Seq<usize>,
    size_ratio: Ratio,
    apply: bool,
    outcomes: Seq<WorkOutcome>,
    logs: Seq<Seq<char>>,
) -> bool {
    &&& outcomes.len() == list.len()
    &&& logs.len() == list.len()
    &&& forall|i: int|
        0 <= i < list.len() ==> worked(
            caption_be,
            llm,
            write_be,
            groups[(#[trigger] list[i]) as int],
            size_ratio,
            apply,
            outcomes[i],
            logs[i],
        )
}

/// What the listed groups need may be asked for.
pub open spec fn all_work_allowed<C: CaptionBackend, V: MultiImageVisionLlm, W: DedupWriteBackend>(
    caption_be: &C,
    llm: &V,
    write_be: &W,
    groups: Seq<DuplicateGroup>,
    list: Seq<usize>,
    size_ratio: Ratio,
    apply: bool,
) -> bool {
    forall|i: int|
        0 <= i < list.len() ==> work_allowed(
            caption_be,
            llm,
            write_be,
            groups[(#[trigger] list[i]) as int],
            size_ratio,
            apply,
        )
}

/// Works on the listed groups one after the other. A failure in one group does
/// not stop the others.
pub fn process_groups<C: CaptionBackend, V: MultiImageVisionLlm, W: DedupWriteBackend>(
    caption_be: &C,
    llm: &V,
    write_be: &W,
    groups: &Vec<DuplicateGroup>,
    list: &Vec<usize>,
    size_ratio: Ratio,
    apply: bool,
) -> (r: (WorkCounts, String))
    requires
        forall|i: int| 0 <= i < list.len() ==> #[trigger] list@[i] < groups.len(),
        all_work_allowed(caption_be, llm, write_be, groups@, list@, size_ratio, apply),
    ensures
        exists|outcomes: Seq<WorkOutcome>, logs: Seq<Seq<char>>| #[trigger]
            all_worked(
                caption_be,
                llm,
                write_be,
                groups@,
                list@,
                size_ratio,
                apply,
                outcomes,
                logs,
            ) && r.0.counts(outcomes) && r.1@ == concat(logs),
{
    let mut outcomes: Vec<WorkOutcome> = Vec::new();
    let mut out = String::new();
    let ghost mut logs: Seq<Seq<char>> = Seq::empty();
    let mut i: usize = 0;
    assert(out@ =~= concat(logs));
    while i < list.len()
        invariant
            i <= list.len(),
            forall|j: int| 0 <= j < list.len() ==> #[trigger] list@[j] < groups.len(),
            all_work_allowed(caption_be, llm, write_be, groups@, list@, size_ratio, apply),
            all_worked(
                caption_be,
                llm,
                write_be,
                groups@,
                list@.take(i as int),
                size_ratio,
                apply,
                outcomes@,
                logs,
            ),
            out@ == concat(logs),
        decreases list.len() - i,
    {
        let (outcome, log) = process_group(
            caption_be,
            llm,
            write_be,
            &groups[list[i]],
            size_ratio,
            apply,
        );
        proof {
            lemma_concat_push(logs, log@);
            let now = list@.take(i + 1);
            assert forall|j: int| 0 <= j < i implies #[trigger] now[j] == list@.take(
                i as int,
            )[j] by {}
            logs = logs.push(log@);
        }
        outcomes.push(outcome);
        out.append(log.as_str());
        i += 1;
    }
    assert(list@.take(i as int) =~= list@);
    (WorkCounts::tally(&outcomes), out)
}

// ---- the whole run ----------------------------------------------------------

/// What a run comes to, and what it logs.
#[derive(Debug)]
pub struct DedupReport {
    pub counts: Counts,
    pub log: String,
}

/// The ids of all assets that are in a stack.
pub open spec fn stacked_set(stacks: Seq<Stack>) -> Set<Seq<char>> {
    Set::new(|id: Seq<char>| in_a_stack(stacks, id))
}

/// The three phases followed the decisions, and the report tells of them: the
/// skipped groups where that was asked for, the copies, the dismissed groups,
/// the groups with a winner, and the summary.
pub open spec fn run_comes_to<
    C: CaptionBackend,
    W: DedupWriteBackend,
    V: MultiImageVisionLlm,
>(
    caption_be: &C,
    write_be: &W,
    llm: &V,
    groups: Seq<DuplicateGroup>,
    decisions: Seq<GroupDecision>,
    args: DedupArgs,
    report: DedupReport,
) -> bool {
    exists|
        delete_replies: Seq<Seq<Result<(), Error>>>,
        delete_outcomes: Seq<DeleteOutcome>,
        delete_logs: Seq<Seq<char>>,
        keep_replies: Seq<Seq<Result<(), Error>>>,
        keep_outcomes: Seq<KeepOutcome>,
        keep_logs: Seq<Seq<char>>,
        work_outcomes: Seq<WorkOutcome>,
        work_logs: Seq<Seq<char>>,
    | {
        &&& #[trigger] deletions(
            write_be,
            groups,
            doomed(decisions),
            args.apply,
            delete_replies,
            delete_outcomes,
            delete_logs,
        )
        &&& #[trigger] dismissals(
            write_be,
            groups,
            kept(decisions),
            args.apply,
            keep_replies,
            keep_outcomes,
            keep_logs,
        )
        &&& #[trigger] all_worked(
            caption_be,
            llm,
            write_be,
            groups,
            capped(considered(decisions), args.limit as nat),
            args.ratio(),
            args.apply,
            work_outcomes,
            work_logs,
        )
        &&& report.counts.skipped.counts(decisions)
        &&& report.counts.auto_delete.counts(delete_outcomes)
        &&& report.counts.keep_all.counts(keep_outcomes)
        &&& report.counts.work.counts(work_outcomes)
        &&& report.log@ == (if args.verbose {
            skips_text(groups, decisions)
        } else {
            Seq::empty()
        }) + concat(delete_logs) + concat(keep_logs) + concat(work_logs) + summary_text(
            report.counts,
            args.apply,
        )
    }
}

proof fn lemma_considered_in_range(decisions: Seq<GroupDecision>)
    requires
        decisions.len() <= usize::MAX,
    ensures
        forall|i: int|
            0 <= i < considered(decisions).len() ==> #[trigger] considered(decisions)[i]
                < decisions.len(),
    decreases decisions.len(),
{
    if decisions.len() > 0 {
        let past = decisions.drop_last();
        lemma_considered_in_range(past);
        assert forall|i: int| 0 <= i < considered(decisions).len() implies #[trigger] considered(
            decisions,
        )[i] < decisions.len() by {
            if i < considered(past).len() {
                assert(considered(decisions)[i] == considered(past)[i]);
            }
        }
    }
}

proof fn lemma_kept_in_range(decisions: Seq<GroupDecision>)
    requires
        decisions.len() <= usize::MAX,
    ensures
        forall|i: int|
            0 <= i < kept(decisions).len() ==> #[trigger] kept(decisions)[i] < decisions.len(),
    decreases decisions.len(),
{
    if decisions.len() > 0 {
        let past = decisions.drop_last();
        lemma_kept_in_range(past);
        assert forall|i: int| 0 <= i < kept(decisions).len() implies #[trigger] kept(
            decisions,
        )[i] < decisions.len() by {
            if i < kept(past).len() {
                assert(kept(decisions)[i] == kept(past)[i]);
            }
        }
    }
}

proof fn lemma_doomed_in_range(decisions: Seq<GroupDecision>)
    requires
        decisions.len() <= usize::MAX,
    ensures
        forall|i: int|
            0 <= i < doomed(decisions).len() ==> {
                let d = #[trigger] doomed(decisions)[i];
                &&& d.0 < decisions.len()
                &&& decisions[d.0 as int] == GroupDecision::AutoDeleteDupes {
                    keeper_idx: d.1,
                    gps_backfill: d.2,
                }
            },
    decreases decisions.len(),
{
    if decisions.len() > 0 {
        let past = decisions.drop_last();
        lemma_doomed_in_range(past);
        assert forall|i: int| 0 <= i < doomed(decisions).len() implies ({
            let d = #[trigger] doomed(decisions)[i];
            &&& d.0 < decisions.len()
            &&& decisions[d.0 as int] == GroupDecision::AutoDeleteDupes {
                keeper_idx: d.1,
                gps_backfill: d.2,
            }
        }) by {
            if i < doomed(past).len() {
                assert(doomed(decisions)[i] == doomed(past)[i]);
            }
        }
    }
}

/// A run whose groups are sorted and whose copies and dismissed groups are done.
/// The groups that need a winner are left.
#[derive(Debug)]
pub struct Underway {
    pub skipped: SkipCounts,
    pub auto_delete: AutoDeleteCounts,
    pub keep_all: KeepAllCounts,
    /// The groups that need a winner, by their index.
    pub to_process: Vec<usize>,
    pub size_ratio: Ratio,
    /// What was logged so far.
    pub log: String,
}

/// The first two phases followed the decisions, and `u` tells of them.
pub open spec fn begun<W: DedupWriteBackend>(
    write_be: &W,
    groups: Seq<DuplicateGroup>,
    decisions: Seq<GroupDecision>,
    args: DedupArgs,
    u: Underway,
) -> bool {
    exists|
        delete_replies: Seq<Seq<Result<(), Error>>>,
        delete_outcomes: Seq<DeleteOutcome>,
        delete_logs: Seq<Seq<char>>,
        keep_replies: Seq<Seq<Result<(), Error>>>,
        keep_outcomes: Seq<KeepOutcome>,
        keep_logs: Seq<Seq<char>>,
    | {
        &&& #[trigger] deletions(
            write_be,
            groups,
            doomed(decisions),
            args.apply,
            delete_replies,
            delete_outcomes,
            delete_logs,
        )
        &&& #[trigger] dismissals(
            write_be,
            groups,
            kept(decisions),
            args.apply,
            keep_replies,
            keep_outcomes,
            keep_logs,
        )
        &&& u.skipped.counts(decisions)
        &&& u.auto_delete.counts(delete_outcomes)
        &&& u.keep_all.counts(keep_outcomes)
        &&& u.to_process@ == capped(considered(decisions), args.limit as nat)
        &&& u.size_ratio == args.ratio()
        &&& u.log@ == (if args.verbose {
            skips_text(groups, decisions)
        } else {
            Seq::empty()
        }) + concat(delete_logs) + concat(keep_logs)
    }
}

/// The changes of the first two phases may be asked for, those of the second once
/// the first is done.
pub open spec fn beginning_allowed<W: DedupWriteBackend>(
    write_be: &W,
    groups: Seq<DuplicateGroup>,
    decisions: Seq<GroupDecision>,
    args: DedupArgs,
) -> bool {
    &&& deletions_allowed(write_be, groups, doomed(decisions), args.apply)
    &&& forall|
        replies: Seq<Seq<Result<(), Error>>>,
        outcomes: Seq<DeleteOutcome>,
        logs: Seq<Seq<char>>,
    | #[trigger]
        deletions(write_be, groups, doomed(decisions), args.apply, replies, outcomes, logs)
            ==> dismissals_allowed(write_be, groups, kept(decisions), args.apply)
}

/// What all phases need may be asked for, that of the last once the others are done.
pub open spec fn run_allowed<C: CaptionBackend, W: DedupWriteBackend, V: MultiImageVisionLlm>(
    caption_be: &C,
    write_be: &W,
    llm: &V,
    groups: Seq<DuplicateGroup>,
    decisions: Seq<GroupDecision>,
    args: DedupArgs,
) -> bool {
    &&& beginning_allowed(write_be, groups, decisions, args)
    &&& forall|underway: Underway| #[trigger]
        begun(write_be, groups, decisions, args, underway) ==> all_work_allowed(
            caption_be,
            llm,
            write_be,
            groups,
            capped(considered(decisions), args.limit as nat),
            args.ratio(),
            args.apply,
        )
}

/// Sorts the groups that the server reported, deletes the copies and dismisses the
/// groups that are none. `far_apart` lists for each group the pairs of members that
/// lie too far from each other.
pub fn begin<W: DedupWriteBackend>(
    groups: &Vec<DuplicateGroup>,
    stacks: &Vec<Stack>,
    far_apart: &Vec<Vec<(usize, usize)>>,
    write_be: &W,
    args: &DedupArgs,
) -> (r: Result<Underway, Error>)
    requires
        far_apart.len() == groups.len(),
        args.refusal() is None ==> beginning_allowed(
            write_be,
            groups@,
            all_decisions(
                groups@,
                stacked_set(stacks@),
                args.max_time_gap_secs as int,
                far_apart@,
            ),
            *args,
        ),
    ensures
        match args.refusal() {
            Some(e) => r == Err::<Underway, Error>(e),
            None => r is Ok && begun(
                write_be,
                groups@,
                all_decisions(
                    groups@,
                    stacked_set(stacks@),
                    args.max_time_gap_secs as int,
                    far_apart@,
                ),
                *args,
                r->Ok_0,
            ),
        },
        r matches Ok(u) ==> forall|i: int|
            0 <= i < u.to_process@.len() ==> #[trigger] u.to_process@[i] < groups.len(),
{
    if let Err(e) = args.validate() {
        return Err(e);
    }
    let stacked = stacked_ids(stacks);
    assert(stacked@ =~= stacked_set(stacks@));
    let sorted = triage(groups, &stacked, args.max_time_gap_secs, far_apart, args.limit);
    let ghost decisions = sorted.decisions@;
    proof {
        assert(decisions.len() == groups.len());
        lemma_considered_in_range(decisions);
        lemma_kept_in_range(decisions);
        lemma_doomed_in_range(decisions);
        assert forall|i: int| 0 <= i < sorted.to_auto_delete.len() implies (
        #[trigger] sorted.to_auto_delete@[i]).0 < groups.len() && sorted.to_auto_delete@[i].1
            < groups@[sorted.to_auto_delete@[i].0 as int].assets.len() by {
            let d = doomed(decisions)[i];
            let g = d.0 as int;
            law_only_copies_are_deleted(
                groups@[g],
                stacked@,
                args.max_time_gap_secs as int,
                far_apart@[g]@,
                capture_times(groups@[g].assets@),
            );
        }
    }
    let mut log = if args.verbose {
        log_skips(groups, &sorted.decisions)
    } else {
        String::new()
    };
    assert(log@ =~= if args.verbose {
        skips_text(groups@, decisions)
    } else {
        Seq::empty()
    });
    let (auto_delete, delete_log) = run_auto_deletes(
        write_be,
        groups,
        &sorted.to_auto_delete,
        args.apply,
    );
    log.append(delete_log.as_str());
    let (keep_all, keep_log) = run_keep_all(write_be, groups, &sorted.to_keep_all, args.apply);
    log.append(keep_log.as_str());
    let underway = Underway {
        skipped: SkipCounts::tally(&sorted.decisions),
        auto_delete,
        keep_all,
        to_process: sorted.to_process,
        size_ratio: Ratio { num: args.size_ratio.num as u64, den: args.size_ratio.den },
        log,
    };
    proof {
        let (delete_replies, delete_outcomes, delete_logs) = choose|
            replies: Seq<Seq<Result<(), Error>>>,
            outcomes: Seq<DeleteOutcome>,
            logs: Seq<Seq<char>>,
        | #[trigger]
            deletions(
                write_be,
                groups@,
                doomed(decisions),
                args.apply,
                replies,
                outcomes,
                logs,
            ) && auto_delete.counts(outcomes) && delete_log@ == concat(logs);
        let (keep_replies, keep_outcomes, keep_logs) = choose|
            replies: Seq<Seq<Result<(), Error>>>,
            outcomes: Seq<KeepOutcome>,
            logs: Seq<Seq<char>>,
        | #[trigger]
            dismissals(
                write_be,
                groups@,
                kept(decisions),
                args.apply,
                replies,
                outcomes,
                logs,
            ) && keep_all.counts(outcomes) && keep_log@ == concat(logs);
        assert(begun(write_be, groups@, decisions, *args, underway));
    }
    Ok(underway)
}

/// Puts the report together once the groups that needed a winner are done: `work`
/// counts how they came out, and `work_log` is what was logged of them.
pub fn finish(underway: Underway, work: WorkCounts, work_log: &str, apply: bool) -> (r: DedupReport)
    ensures
        r.counts.skipped == underway.skipped,
        r.counts.auto_delete == underway.auto_delete,
        r.counts.keep_all == underway.keep_all,
        r.counts.work == work,
        r.log@ == underway.log@ + work_log@ + summary_text(r.counts, apply),
{
    let counts = Counts {
        skipped: underway.skipped,
        auto_delete: underway.auto_delete,
        keep_all: underway.keep_all,
        work,
    };
    let mut log = underway.log;
    log.append(work_log);
    log.append(counts.write_summary(apply).as_str());
    DedupReport { counts, log }
}

/// Runs all phases, the groups that need a winner one after the other.
pub fn run_with<C: CaptionBackend, W: DedupWriteBackend, V: MultiImageVisionLlm>(
    groups: &Vec<DuplicateGroup>,
    stacks: &Vec<Stack>,
    far_apart: &Vec<Vec<(usize, usize)>>,
    caption_be: &C,
    write_be: &W,
    llm: &V,
    args: &DedupArgs,
) -> (r: Result<DedupReport, Error>)
    requires
        far_apart.len() == groups.len(),
        args.refusal() is None ==> run_allowed(
            caption_be,
            write_be,
            llm,
            groups@,
            all_decisions(
                groups@,
                stacked_set(stacks@),
                args.max_time_gap_secs as int,
                far_apart@,
            ),
            *args,
        ),
    ensures
        match args.refusal() {
            Some(e) => r == Err::<DedupReport, Error>(e),
            None => r is Ok && run_comes_to(
                caption_be,
                write_be,
                llm,
                groups@,
                all_decisions(
                    groups@,
                    stacked_set(stacks@),
                    args.max_time_gap_secs as int,
                    far_apart@,
                ),
                *args,
                r->Ok_0,
            ),
        },
{
    let ghost decisions = all_decisions(
        groups@,
        stacked_set(stacks@),
        args.max_time_gap_secs as int,
        far_apart@,
    );
    let underway = match begin(groups, stacks, far_apart, write_be, args) {
        Ok(underway) => underway,
        Err(e) => {
            return Err(e);
        },
    };
    let (work, work_log) = process_groups(
        caption_be,
        llm,
        write_be,
        groups,
        &underway.to_process,
        underway.size_ratio,
        args.apply,
    );
    let ghost u = underway;
    let report = finish(underway, work, work_log.as_str(), args.apply);
    proof {
        let (
            delete_replies,
            delete_outcomes,
            delete_logs,
            keep_replies,
            keep_outcomes,
            keep_logs,
        ) = choose|
            delete_replies: Seq<Seq<Result<(), Error>>>,
            delete_outcomes: Seq<DeleteOutcome>,
            delete_logs: Seq<Seq<char>>,
            keep_replies: Seq<Seq<Result<(), Error>>>,
            keep_outcomes: Seq<KeepOutcome>,
            keep_logs: Seq<Seq<char>>,
        | {
            &&& #[trigger] deletions(
                write_be,
                groups@,
                doomed(decisions),
                args.apply,
                delete_replies,
                delete_outcomes,
                delete_logs,
            )
            &&& #[trigger] dismissals(
                write_be,
                groups@,
                kept(decisions),
                args.apply,
                keep_replies,
                keep_outcomes,
                keep_logs,
            )
            &&& u.auto_delete.counts(delete_outcomes)
            &&& u.keep_all.counts(keep_outcomes)
            &&& u.log@ == (if args.verbose {
                skips_text(groups@, decisions)
            } else {
                Seq::empty()
            }) + concat(delete_logs) + concat(keep_logs)
        };
        let (work_outcomes, work_logs) = choose|
            outcomes: Seq<WorkOutcome>,
            logs: Seq<Seq<char>>,
        | #[trigger]
            all_worked(
                caption_be,
                llm,
                write_be,
                groups@,
                capped(considered(decisions), args.limit as nat),
                args.ratio(),
                args.apply,
                outcomes,
                logs,
            ) && work.counts(outcomes) && work_log@ == concat(logs);
        assert(run_comes_to(caption_be, write_be, llm, groups@, decisions, *args, report));
    }
    Ok(report)
}

// ---- what a run guarantees --------------------------------------------------

/// A dry run needs leave to plan, and none to change anything: whatever the backend
/// refuses, nothing that it refuses is asked of it.
pub proof fn law_dry_run_changes_nothing<
    C: CaptionBackend,
    W: DedupWriteBackend,
    V: MultiImageVisionLlm,
>(
    caption_be: &C,
    write_be: &W,
    llm: &V,
    groups: Seq<DuplicateGroup>,
    decisions: Seq<GroupDecision>,
    args: DedupArgs,
)
    requires
        !args.apply,
        forall|i: int|
            #![trigger capped(considered(decisions), args.limit as nat)[i]]
            0 <= i < capped(considered(decisions), args.limit as nat).len() ==> planning_allowed(
                caption_be,
                llm,
                groups[capped(considered(decisions), args.limit as nat)[i] as int].assets@,
                args.ratio(),
            ),
    ensures
        beginning_allowed(write_be, groups, decisions, args),
        run_allowed(caption_be, write_be, llm, groups, decisions, args),
{
}

/// The change leaves the asset in place.
pub open spec fn spares(write: WriteView, id: Seq<char>) -> bool {
    write matches WriteView::Delete(ids) ==> !ids.contains(id)
}

/// Where the members of a group have distinct ids, deleting the copies needs no
/// leave to delete the kept member.
pub proof fn law_keeper_is_never_deleted<W: DedupWriteBackend>(
    write_be: &W,
    group: DuplicateGroup,
    keeper: int,
    gps_backfill: Option<(Degrees, Degrees)>,
    apply: bool,
)
    requires
        0 <= keeper < group.assets@.len(),
        asset_ids(group.assets@).no_duplicates(),
        forall|w: WriteView|
            spares(w, group.assets@[keeper].id@) ==> #[trigger] write_be.allows(w),
    ensures
        all_allowed(write_be, deletion_writes(group.assets@, keeper, gps_backfill, apply)),
{
    if apply && group.assets@.len() > 1 {
        law_deletion_spares_the_keeper(group.assets@, keeper, gps_backfill);
        let writes = deletion_writes(group.assets@, keeper, gps_backfill, apply);
        let id = group.assets@[keeper].id@;
        assert(asset_ids(group.assets@)[keeper] == id);
        assert forall|k: int| 0 <= k < writes.len() implies spares(#[trigger] writes[k], id) by {}
    }
}

/// The change deletes nothing.
pub open spec fn deletes_nothing(write: WriteView) -> bool {
    !(write is Delete)
}

/// Only copies are ever deleted: dismissing groups and stacking winners needs no
/// leave to delete anything.
pub proof fn law_only_copies_need_deletion<W: DedupWriteBackend>(
    write_be: &W,
    group: DuplicateGroup,
    plan: ActionPlan,
    apply: bool,
)
    requires
        forall|w: WriteView| deletes_nothing(w) ==> #[trigger] write_be.allows(w),
    ensures
        all_allowed(write_be, dismissal_writes(group, apply)),
        all_allowed(write_be, stacking_writes(plan, apply)),
{
    let writes = dismissal_writes(group, apply);
    assert forall|k: int| 0 <= k < writes.len() implies deletes_nothing(#[trigger] writes[k]) by {}
    let writes = stacking_writes(plan, apply);
    assert forall|k: int| 0 <= k < writes.len() implies deletes_nothing(#[trigger] writes[k]) by {}
}

/// Where the sizes decide, planning needs leave for nothing: no image is fetched and
/// no model asked.
pub proof fn law_sizes_need_no_images<C: CaptionBackend, V: MultiImageVisionLlm>(
    caption_be: &C,
    llm: &V,
    group: DuplicateGroup,
    size_ratio: Ratio,
)
    requires
        winner_by_size(group.assets@, size_ratio) is Some,
    ensures
        planning_allowed(caption_be, llm, group.assets@, size_ratio),
{
}

/// Every group ends in exactly one place: it is skipped for one reason, or it
/// is listed for one of the phases.
pub proof fn law_every_group_is_accounted_for(decisions: Seq<GroupDecision>)
    ensures
        skips(decisions, SkipReason::AlreadyStacked) + skips(decisions, SkipReason::TooFewAssets)
            + skips(decisions, SkipReason::ContainsVideo) + skips(
            decisions,
            SkipReason::DifferentFolders,
        ) + skips(decisions, SkipReason::TimeGapTooLarge) + skips(
            decisions,
            SkipReason::DistanceTooLarge,
        ) + skips(decisions, SkipReason::MissingCaptureTime) + doomed(decisions).len() + kept(
            decisions,
        ).len() + considered(decisions).len() == decisions.len(),
    decreases decisions.len(),
{
    if decisions.len() > 0 {
        law_every_group_is_accounted_for(decisions.drop_last());
    }
}

} // verus!
