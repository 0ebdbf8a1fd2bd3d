//! What `dedup` guarantees.
use crate::client::{thumbnail_reply, CaptionBackend, DedupWriteBackend, WriteView};
use crate::commands::dedup::classify::{
    all_sized, byte_size, byte_sizes, bytes_of, capture_times, classify_group, decision,
    first_location, gps, is_first_largest, is_first_located, largest, law_only_copies_are_deleted,
    lemma_first_largest_exists, lemma_first_located_exists, lemma_largest_bounds,
    lemma_smallest_is_there, smallest, GroupDecision, Ratio, SkipReason,
};
use crate::commands::dedup::plan::{
    asset_ids, copies_from, copy_views, failed_during, follows, gps_source, is_copy_onto_unlocated,
    lemma_copies, parse_pick_response, pick_in, pick_prompt, pick_winner_by_size, picked,
    plan_for_winner, planned, planning_allowed, thumbnails_of, unfenced, vision_reply,
    winner_by_size, winner_first, ActionPlan, PickReason, MAX_PICK_TOKENS, PICK_SYSTEM_PROMPT,
    PICK_USER_PROMPT_HEAD,
};
use crate::commands::dedup::reports::{
    backfill_failure, backfill_failures, copy_lines, deletion_failures, deletion_gps_line,
    deletion_heading, deletion_log, deletion_outcome, deletion_prefix, deletion_writes,
    dismissal_log, dismissal_outcome, dismissal_writes, failure_line, gap_percent, gps_line,
    member_lines, plan_log, reason_text, stacking_log, stacking_outcome, stacking_writes,
    DeleteOutcome, KeepOutcome, WorkOutcome,
};
use crate::commands::dedup::run::{
    all_worked, applied_lines, begin, begun, deleted, deletions, deletions_allowed, dismissals,
    dismissals_allowed, dismissed, dry_run_lines, finish, occurrences, run_comes_to, run_with,
    skipped_line, stacked_set, summary_text, work_allowed, worked, would_delete, would_keep,
    AutoDeleteCounts, Counts, DedupArgs, DedupReport, KeepAllCounts, SkipCounts, Underway,
    WorkCounts,
};
use crate::commands::dedup::triage::{
    all_decisions, capped, considered, doomed, in_stack, kept, original_time, reason_name, shown,
    skip_text, skips_text, time_lines, times_text,
};
use crate::commands::dedup::writes::{all_allowed, write_replies};
use crate::error::Error;
use crate::ids::IdSet;
use crate::json::{has_member, json_of, law_members_by_name, JsonView};
use crate::llm::MultiImageVisionLlm;
use crate::models::{Asset, Degrees, DuplicateGroup, Stack};
use crate::text::{
    concat, decimal, holds, is_space, lemma_concat_push, lemma_holds, lemma_holds_piece,
    lemma_holds_within, lemma_sum_assoc, opt_text, quoted_of, strip_leading, texts, trim, trim_end,
};
use vstd::prelude::*;
use vstd::string::*;

verus! {

// ---- picking a winner -------------------------------------------------------

/// A winner by size is the first of the largest files, and some member is smaller by
/// more than the ratio. Without one a size is unknown, or no two sizes differ so much.
#[verifier::spinoff_prover]
#[verifier::rlimit(60)]
pub proof fn law_size_winner_is_the_largest(group: DuplicateGroup, ratio: Ratio)
    ensures
        ({
            let assets = group.assets@;
            match winner_by_size(assets, ratio) {
                Some(k) => {
                    &&& k < assets.len()
                    &&& forall|i: int|
                        0 <= i < assets.len() ==> (#[trigger] assets[i]).exif_info is Some
                            && assets[i].exif_info->0.file_size_in_byte is Some && bytes_of(
                            assets,
                            i,
                        ) <= bytes_of(assets, k as int) && (i < k ==> bytes_of(assets, i)
                            < bytes_of(assets, k as int))
                    &&& exists|j: int|
                        0 <= j < assets.len() && (bytes_of(assets, k as int)
                            - #[trigger] bytes_of(assets, j)) * ratio.den > ratio.num * bytes_of(
                            assets,
                            k as int,
                        )
                },
                None => (exists|i: int|
                    0 <= i < assets.len() && ((#[trigger] assets[i]).exif_info is None
                        || assets[i].exif_info->0.file_size_in_byte is None)) || forall|
                    i: int,
                    j: int,
                |
                    #![trigger bytes_of(assets, i), bytes_of(assets, j)]
                    0 <= i < assets.len() && 0 <= j < assets.len() && (forall|k: int|
                        0 <= k < assets.len() ==> #[trigger] bytes_of(assets, k) <= bytes_of(
                            assets,
                            i,
                        )) ==> (bytes_of(assets, i) - bytes_of(assets, j)) * ratio.den <= ratio.num
                        * bytes_of(assets, i),
            }
        }),
{
    let assets = group.assets@;
    let sizes = byte_sizes(assets);
    lemma_largest_bounds(sizes);
    lemma_smallest_is_there(sizes);
    assert(group.assets.len() == assets.len());
    if let Some(k) = winner_by_size(assets, ratio) {
        if sizes.len() == 0 {
            let (num, den) = (ratio.num as int, ratio.den as int);
            assert(0 * den == 0 && num * 0 == 0) by (nonlinear_arith);
        }
        lemma_first_largest_exists(sizes);
        let top = choose|j: int| is_first_largest(sizes, j);
        assert(is_first_largest(sizes, top));
        assert((top as usize) as int == top);
        assert forall|i: int| 0 <= i < assets.len() implies (#[trigger] assets[i]).exif_info is Some
            && assets[i].exif_info->0.file_size_in_byte is Some && bytes_of(assets, i) <= bytes_of(
            assets,
            k as int,
        ) && (i < k ==> bytes_of(assets, i) < bytes_of(assets, k as int)) by {
            assert(byte_size(assets[i]) is Some);
            assert(sizes[i] == bytes_of(assets, i));
            assert(sizes[top] == bytes_of(assets, top));
            assert(sizes[i] <= largest(sizes));
        }
        let low = choose|i: int| 0 <= i < sizes.len() && sizes[i] == smallest(sizes);
        assert(sizes[low] == bytes_of(assets, low));
        assert(sizes[top] == bytes_of(assets, top));
    } else if all_sized(assets) {
        assert forall|i: int, j: int|
            #![trigger bytes_of(assets, i), bytes_of(assets, j)]
            0 <= i < assets.len() && 0 <= j < assets.len() && (forall|k: int|
                0 <= k < assets.len() ==> #[trigger] bytes_of(assets, k) <= bytes_of(
                    assets,
                    i,
                )) implies (bytes_of(assets, i) - bytes_of(assets, j)) * ratio.den <= ratio.num
            * bytes_of(assets, i) by {
            let t = choose|t: int| 0 <= t < sizes.len() && sizes[t] == largest(sizes);
            assert(sizes[t] == bytes_of(assets, t));
            assert(sizes[i] == bytes_of(assets, i));
            assert(sizes[j] == bytes_of(assets, j));
            assert(bytes_of(assets, t) <= bytes_of(assets, i));
            assert(sizes[i] <= largest(sizes));
            assert(smallest(sizes) <= sizes[j]);
            let (a, b, c) = (
                (sizes[i] - sizes[j]) as int,
                (largest(sizes) - smallest(sizes)) as int,
                ratio.den as int,
            );
            assert(a * c <= b * c) by (nonlinear_arith)
                requires
                    a <= b,
                    c >= 0,
            ;
        }
    } else {
        let i = choose|i: int| 0 <= i < assets.len() && !(byte_size(#[trigger] assets[i]) is Some);
        assert(assets[i].exif_info is None || assets[i].exif_info->0.file_size_in_byte is None);
    }
}

/// An answer that names an index and a reason, in either order and whatever else it
/// holds, is taken at its word.
#[verifier::spinoff_prover]
#[verifier::rlimit(60)]
pub proof fn law_pick_is_taken_at_its_word(
    doc: JsonView,
    numeral: Seq<char>,
    n: u64,
    reason: Seq<char>,
)
    requires
        n <= usize::MAX,
        has_member(
            doc,
            "winner_index"@,
            JsonView::Number { text: numeral, unsigned: Some(n) },
        ),
        has_member(doc, "reason"@, JsonView::Text(reason)),
    ensures
        picked(doc) == Some((n as usize, reason)),
{
    law_members_by_name(
        doc,
        "winner_index"@,
        JsonView::Number { text: numeral, unsigned: Some(n) },
    );
    law_members_by_name(doc, "reason"@, JsonView::Text(reason));
}

#[verifier::spinoff_prover]
#[verifier::rlimit(60)]
proof fn lemma_trim_is_idle(s: Seq<char>)
    requires
        s.len() > 0,
        !is_space(s[0]),
        !is_space(s.last()),
    ensures
        trim(s) == s,
        trim_end(s) == s,
{
}

/// A markdown fence around an answer is taken off, with or without the word `json`.
#[verifier::spinoff_prover]
#[verifier::rlimit(60)]
pub proof fn law_fence_comes_off(body: Seq<char>)
    requires
        body.len() > 0,
        !is_space(body[0]),
        !is_space(body.last()),
        body[0] != 'j',
    ensures
        unfenced("```json\n"@ + body + "\n```"@) == body,
        unfenced("```\n"@ + body + "\n```"@) == body,
        body[0] != '`' ==> unfenced(body) == body,
{
    reveal_strlit("```json\n");
    reveal_strlit("```json");
    reveal_strlit("```\n");
    reveal_strlit("```");
    reveal_strlit("\n```");
    let long = "```json\n"@ + body + "\n```"@;
    lemma_trim_is_idle(long);
    assert("```json"@.is_prefix_of(long)) by {
        assert(long.take(7) =~= "```json"@);
    }
    let inner = body + "\n```"@;
    lemma_fence_body(body);
    assert(long.skip(7) =~= seq!['\n'] + inner);
    let short = "```\n"@ + body + "\n```"@;
    lemma_trim_is_idle(short);
    assert(!"```json"@.is_prefix_of(short)) by {
        assert(short[3] == '\n');
        assert("```json"@[3] == 'j');
    }
    assert("```"@.is_prefix_of(short)) by {
        assert(short.take(3) =~= "```"@);
    }
    assert(short.skip(3) =~= seq!['\n'] + inner);
    if body[0] != '`' {
        lemma_trim_is_idle(body);
        assert("```"@[0] == '`' && "```json"@[0] == '`');
    }
}

#[verifier::spinoff_prover]
#[verifier::rlimit(60)]
proof fn lemma_fence_body(body: Seq<char>)
    requires
        body.len() > 0,
        !is_space(body[0]),
        !is_space(body.last()),
    ensures
        strip_leading(seq!['\n'] + (body + "\n```"@), '\n') == body + "\n```"@,
        "```"@.is_suffix_of(body + "\n```"@),
        trim_end((body + "\n```"@).take((body + "\n```"@).len() - 3)) == body,
{
    reveal_strlit("\n```");
    reveal_strlit("```");
    let inner = body + "\n```"@;
    let whole = seq!['\n'] + inner;
    assert(whole.drop_first() =~= inner);
    assert(inner[0] == body[0]);
    assert(strip_leading(inner, '\n') == inner);
    assert(inner.skip(inner.len() - 3) =~= "```"@);
    let rest = inner.take(inner.len() - 3);
    assert(rest =~= body.push('\n'));
    assert(rest.drop_last() =~= body);
    assert(trim_end(body) == body);
}

/// A stack is made of the winner, and behind it the others in their order.
#[verifier::spinoff_prover]
#[verifier::rlimit(60)]
pub proof fn law_stack_begins_with_the_winner(plan: ActionPlan, assets: Seq<Asset>, winner: int)
    requires
        0 <= winner < assets.len(),
        follows(plan, assets, winner),
    ensures
        plan.winner_idx == winner,
        plan.stack_order@.len() == assets.len(),
        plan.stack_order@[0]@ == assets[winner].id@,
        forall|k: int| 1 <= k <= winner ==> (#[trigger] plan.stack_order@[k])@ == assets[k - 1].id@,
        forall|k: int|
            winner < k < assets.len() ==> (#[trigger] plan.stack_order@[k])@ == assets[k].id@,
{
    let ids = asset_ids(assets);
    let order = winner_first(ids, winner);
    assert(texts(plan.stack_order@) == order);
    assert(texts(plan.stack_order@).len() == plan.stack_order@.len());
    assert forall|k: int| 0 <= k < plan.stack_order@.len() implies (
    #[trigger] plan.stack_order@[k])@ == order[k] by {
        assert(texts(plan.stack_order@)[k] == plan.stack_order@[k]@);
    }
}

/// Coordinates are copied where some members have them and some do not: those of the
/// winner, or of the first member that has some where the winner has none. Each member
/// without coordinates gets them, and no other does.
#[verifier::spinoff_prover]
#[verifier::rlimit(60)]
pub proof fn law_coordinates_are_copied(
    plan: ActionPlan,
    assets: Seq<Asset>,
    winner: int,
    source: int,
)
    requires
        0 <= winner < assets.len(),
        follows(plan, assets, winner),
        0 <= source < assets.len(),
        gps(assets[source]) is Some,
        source == winner || gps(assets[winner]) is None && forall|i: int|
            0 <= i < source ==> gps(#[trigger] assets[i]) is None,
    ensures
        forall|k: int|
            0 <= k < plan.gps_backfill@.len() ==> Some(
                (
                    (#[trigger] plan.gps_backfill@[k]).latitude,
                    plan.gps_backfill@[k].longitude,
                ),
            ) == gps(assets[source]),
        forall|k: int|
            0 <= k < plan.gps_backfill@.len() ==> is_unlocated(
                assets,
                (#[trigger] plan.gps_backfill@[k]).asset_id@,
            ),
        forall|j: int|
            0 <= j < assets.len() && gps(#[trigger] assets[j]) is None ==> gets_coordinates(
                plan,
                assets[j].id@,
            ),
{
    lemma_first_located_exists(assets, source);
    let f = choose|k: int| is_first_located(assets, k);
    assert(is_first_located(assets, f));
    if source != winner {
        assert(gps(assets[f]) is Some);
        assert(f == source) by {
            if f < source {
                assert(gps(assets[f]) is None);
            }
            if source < f {
                assert(gps(assets[source]) is None);
            }
        }
    }
    let from = gps_source(assets, winner)->0;
    assert(gps(assets[source]) == Some(from));
    let copies = copy_views(plan.gps_backfill@);
    assert(copies == copies_from(assets, from));
    lemma_copies(assets, from);
    assert forall|k: int| 0 <= k < plan.gps_backfill@.len() implies Some(
        ((#[trigger] plan.gps_backfill@[k]).latitude, plan.gps_backfill@[k].longitude),
    ) == gps(assets[source]) && is_unlocated(assets, plan.gps_backfill@[k].asset_id@) by {
        assert(copies[k] == plan.gps_backfill@[k]@);
        assert(is_copy_onto_unlocated(assets, from, copies[k]));
        let j = choose|j: int|
            0 <= j < assets.len() && gps(#[trigger] assets[j]) is None && copies[k] == (
                assets[j].id@,
                from.0,
                from.1,
            );
        assert(gps(assets[j]) is None);
    }
    assert forall|j: int| 0 <= j < assets.len() && gps(#[trigger] assets[j]) is None implies
        gets_coordinates(plan, assets[j].id@) by {
        let item = (assets[j].id@, from.0, from.1);
        assert(copies.contains(item));
        let k = choose|k: int| 0 <= k < copies.len() && copies[k] == item;
        assert(plan.gps_backfill@[k]@ == item);
        assert(plan.gps_backfill@[k].asset_id@ == assets[j].id@);
    }
}

/// A member with this id has no coordinates.
pub open spec fn is_unlocated(assets: Seq<Asset>, id: Seq<char>) -> bool {
    exists|j: int| 0 <= j < assets.len() && gps(#[trigger] assets[j]) is None && assets[j].id@ == id
}

/// The plan writes coordinates onto the asset.
pub open spec fn gets_coordinates(plan: ActionPlan, id: Seq<char>) -> bool {
    exists|k: int|
        0 <= k < plan.gps_backfill@.len() && (#[trigger] plan.gps_backfill@[k]).asset_id@ == id
}

/// Where no member has coordinates, none are written.
#[verifier::spinoff_prover]
#[verifier::rlimit(60)]
pub proof fn law_nothing_to_copy(plan: ActionPlan, assets: Seq<Asset>, winner: int)
    requires
        0 <= winner < assets.len(),
        follows(plan, assets, winner),
        forall|j: int| 0 <= j < assets.len() ==> gps(#[trigger] assets[j]) is None,
    ensures
        plan.gps_backfill@.len() == 0,
{
    if exists|k: int| is_first_located(assets, k) {
        let k = choose|k: int| is_first_located(assets, k);
        assert(is_first_located(assets, k));
    }
    assert(gps(assets[winner]) is None);
    assert(first_location(assets) is None);
    assert(copy_views(plan.gps_backfill@).len() == plan.gps_backfill@.len());
}

/// A group that is planned has the winner that the sizes give, and otherwise the one that
/// the model named in its answer.
#[verifier::spinoff_prover]
#[verifier::rlimit(60)]
pub proof fn law_planned_winner<C: CaptionBackend, V: MultiImageVisionLlm>(
    backend: &C,
    llm: &V,
    group: DuplicateGroup,
    ratio: Ratio,
    plan: ActionPlan,
)
    requires
        planned(backend, llm, group.assets@, ratio, Ok(plan)),
    ensures
        follows(plan, group.assets@, plan.winner_idx as int),
        plan.winner_idx < group.assets@.len(),
        winner_by_size(group.assets@, ratio) matches Some(k) ==> plan.winner_idx == k
            && plan.pick_reason is LargerFile,
        winner_by_size(group.assets@, ratio) is None ==> exists|raw: Seq<char>|
            #![trigger pick_in(raw)]
            plan.pick_reason matches PickReason::VisionModel { rationale } && pick_in(raw) == Some(
                (plan.winner_idx, rationale@),
            ),
{
    law_size_winner_is_the_largest(group, ratio);
}

// ---- what is asked of the server --------------------------------------------

/// Copies: the coordinates go onto the kept member first, latitude and longitude as they
/// are, and then all others are deleted, in their order, in one go.
#[verifier::spinoff_prover]
#[verifier::rlimit(60)]
pub proof fn law_deletion_asks_for(
    assets: Seq<Asset>,
    keeper: int,
    gps_backfill: Option<(Degrees, Degrees)>,
    apply: bool,
)
    requires
        0 <= keeper < assets.len(),
    ensures
        ({
            let writes = deletion_writes(assets, keeper, gps_backfill, apply);
            &&& !apply || assets.len() == 1 ==> writes.len() == 0
            &&& apply && assets.len() > 1 ==> {
                &&& gps_backfill is None ==> writes.len() == 1
                &&& gps_backfill matches Some(g) ==> writes.len() == 2 && writes[0]
                    == WriteView::SetLocation((assets[keeper].id@, g.0, g.1))
                &&& writes.last() is Delete
                &&& writes.last()->Delete_0.len() == assets.len() - 1
                &&& forall|i: int|
                    0 <= i < keeper ==> writes.last()->Delete_0[i] == (#[trigger] assets[i]).id@
                &&& forall|i: int|
                    keeper < i < assets.len() ==> writes.last()->Delete_0[i - 1] == (
                    #[trigger] assets[i]).id@
            }
        }),
{
}

/// A group that is kept is dismissed, and nothing else.
#[verifier::spinoff_prover]
#[verifier::rlimit(60)]
pub proof fn law_dismissal_asks_for(group: DuplicateGroup, apply: bool)
    ensures
        apply ==> dismissal_writes(group, apply) == seq![WriteView::Dismiss(group.duplicate_id@)],
        !apply ==> dismissal_writes(group, apply).len() == 0,
{
}

/// A plan: each of its coordinates is written onto the asset that it names, and then the
/// stack is made in the order of the plan.
#[verifier::spinoff_prover]
#[verifier::rlimit(60)]
pub proof fn law_stacking_asks_for(plan: ActionPlan, apply: bool)
    ensures
        ({
            let writes = stacking_writes(plan, apply);
            let n = plan.gps_backfill@.len();
            &&& !apply ==> writes.len() == 0
            &&& apply ==> {
                &&& writes.len() == n + 1
                &&& forall|i: int|
                    0 <= i < n ==> writes[i] == WriteView::SetLocation(
                        (
                            (#[trigger] plan.gps_backfill@[i]).asset_id@,
                            plan.gps_backfill@[i].latitude,
                            plan.gps_backfill@[i].longitude,
                        ),
                    )
                &&& writes[n as int] is Stack
                &&& writes[n as int]->Stack_0.len() == plan.stack_order@.len()
                &&& forall|i: int|
                    0 <= i < plan.stack_order@.len() ==> writes[n as int]->Stack_0[i] == (
                    #[trigger] plan.stack_order@[i])@
            }
        }),
{
}

/// A phase has succeeded exactly where the answer that counts is a success: that on the
/// deletion, on the dismissal or on the stack. Coordinates that could not be written are
/// a warning.
#[verifier::spinoff_prover]
#[verifier::rlimit(60)]
pub proof fn law_outcomes_follow_the_answers(n: nat, replies: Seq<Result<(), Error>>)
    requires
        n <= usize::MAX,
        replies.len() > 0,
    ensures
        n > 1 ==> deletion_outcome(n, true, replies) == (if replies[replies.len() - 1] is Ok {
            DeleteOutcome::Deleted((n - 1) as usize)
        } else {
            DeleteOutcome::Failed
        }),
        n > 1 ==> deletion_outcome(n, false, replies) == DeleteOutcome::WouldDelete(
            (n - 1) as usize,
        ),
        n <= 1 ==> deletion_outcome(n, true, replies) == DeleteOutcome::Nothing && deletion_outcome(
            n,
            false,
            replies,
        ) == DeleteOutcome::Nothing,
        dismissal_outcome(n, false, replies) == KeepOutcome::WouldKeep(n as usize),
        replies[0] is Ok ==> dismissal_outcome(n, true, replies) == KeepOutcome::Kept(n as usize),
        replies[0] is Err ==> dismissal_outcome(n, true, replies) == KeepOutcome::Failed,
        stacking_outcome(false, replies) == WorkOutcome::WouldApply,
        stacking_outcome(true, replies) == WorkOutcome::ApplyFailed <==> replies[replies.len() - 1]
            is Err,
        stacking_outcome(true, replies) == WorkOutcome::Applied <==> forall|i: int|
            0 <= i < replies.len() ==> (#[trigger] replies[i]) is Ok,
        stacking_outcome(true, replies) == WorkOutcome::AppliedWithWarnings <==> replies[
            replies.len() - 1] is Ok && exists|i: int|
            0 <= i < replies.len() - 1 && (#[trigger] replies[i]) is Err,
{
    if forall|i: int| 0 <= i < replies.len() ==> (#[trigger] replies[i]) is Ok {
        assert(replies[replies.len() - 1] is Ok);
    }
}

// ---- sorting the groups -----------------------------------------------------

/// Each list names exactly the groups whose decision is meant, in their order, and a group
/// of copies with the member to keep and the coordinates for it.
#[verifier::spinoff_prover]
#[verifier::rlimit(60)]
pub proof fn law_groups_are_sorted_by_decision(decisions: Seq<GroupDecision>)
    requires
        decisions.len() <= usize::MAX,
    ensures
        forall|i: int|
            0 <= i < decisions.len() ==> #[trigger] considered(decisions).contains(i as usize) == (
            decisions[i] is Consider),
        forall|i: int|
            0 <= i < decisions.len() ==> #[trigger] kept(decisions).contains(i as usize) == (
            decisions[i] is KeepAll),
        forall|i: int, k: usize, g: Option<(Degrees, Degrees)>|
            0 <= i < decisions.len() ==> #[trigger] doomed(decisions).contains((i as usize, k, g))
                == (decisions[i] == GroupDecision::AutoDeleteDupes {
                keeper_idx: k,
                gps_backfill: g,
            }),
        forall|a: int, b: int|
            0 <= a < b < considered(decisions).len() ==> #[trigger] considered(decisions)[a]
                < #[trigger] considered(decisions)[b],
        forall|a: int, b: int|
            0 <= a < b < kept(decisions).len() ==> #[trigger] kept(decisions)[a]
                < #[trigger] kept(decisions)[b],
        forall|a: int, b: int|
            0 <= a < b < doomed(decisions).len() ==> (#[trigger] doomed(decisions)[a]).0 < (
            #[trigger] doomed(decisions)[b]).0,
{
    lemma_considered(decisions);
    lemma_kept(decisions);
    lemma_doomed(decisions);
}

#[verifier::spinoff_prover]
#[verifier::rlimit(60)]
proof fn lemma_considered(decisions: Seq<GroupDecision>)
    requires
        decisions.len() <= usize::MAX,
    ensures
        forall|x: usize| #[trigger]
            considered(decisions).contains(x) == (x < decisions.len() && decisions[x as int]
                is Consider),
        forall|a: int, b: int|
            0 <= a < b < considered(decisions).len() ==> #[trigger] considered(decisions)[a]
                < #[trigger] considered(decisions)[b],
    decreases decisions.len(),
{
    if decisions.len() > 0 {
        let past = decisions.drop_last();
        let before = considered(past);
        let now = considered(decisions);
        lemma_considered(past);
        let n = (decisions.len() - 1) as usize;
        assert forall|x: usize| #[trigger] now.contains(x) == (x < decisions.len()
            && decisions[x as int] is Consider) by {
            assert(before.contains(x) == (x < past.len() && past[x as int] is Consider));
            if now.contains(x) {
                let k = choose|k: int| 0 <= k < now.len() && now[k] == x;
                if k < before.len() {
                    assert(before[k] == x);
                }
            }
            if before.contains(x) {
                let k = choose|k: int| 0 <= k < before.len() && before[k] == x;
                assert(now[k] == x);
            }
            if decisions.last() is Consider && x == n {
                assert(now[now.len() - 1] == x);
            }
        }
        assert forall|a: int, b: int| 0 <= a < b < now.len() implies #[trigger] now[a]
            < #[trigger] now[b] by {
            assert(now[a] == before[a]);
            if b < before.len() {
                assert(now[b] == before[b]);
            } else {
                assert(before.contains(before[a]));
            }
        }
    }
}

#[verifier::spinoff_prover]
#[verifier::rlimit(60)]
proof fn lemma_kept(decisions: Seq<GroupDecision>)
    requires
        decisions.len() <= usize::MAX,
    ensures
        forall|x: usize| #[trigger]
            kept(decisions).contains(x) == (x < decisions.len() && decisions[x as int] is KeepAll),
        forall|a: int, b: int|
            0 <= a < b < kept(decisions).len() ==> #[trigger] kept(decisions)[a]
                < #[trigger] kept(decisions)[b],
    decreases decisions.len(),
{
    if decisions.len() > 0 {
        let past = decisions.drop_last();
        let before = kept(past);
        let now = kept(decisions);
        lemma_kept(past);
        let n = (decisions.len() - 1) as usize;
        assert forall|x: usize| #[trigger] now.contains(x) == (x < decisions.len()
            && decisions[x as int] is KeepAll) by {
            assert(before.contains(x) == (x < past.len() && past[x as int] is KeepAll));
            if now.contains(x) {
                let k = choose|k: int| 0 <= k < now.len() && now[k] == x;
                if k < before.len() {
                    assert(before[k] == x);
                }
            }
            if before.contains(x) {
                let k = choose|k: int| 0 <= k < before.len() && before[k] == x;
                assert(now[k] == x);
            }
            if decisions.last() is KeepAll && x == n {
                assert(now[now.len() - 1] == x);
            }
        }
        assert forall|a: int, b: int| 0 <= a < b < now.len() implies #[trigger] now[a]
            < #[trigger] now[b] by {
            assert(now[a] == before[a]);
            if b < before.len() {
                assert(now[b] == before[b]);
            } else {
                assert(before.contains(before[a]));
            }
        }
    }
}

#[verifier::spinoff_prover]
#[verifier::rlimit(60)]
proof fn lemma_doomed(decisions: Seq<GroupDecision>)
    requires
        decisions.len() <= usize::MAX,
    ensures
        forall|x: (usize, usize, Option<(Degrees, Degrees)>)| #[trigger]
            doomed(decisions).contains(x) == (x.0 < decisions.len() && decisions[x.0 as int]
                == GroupDecision::AutoDeleteDupes { keeper_idx: x.1, gps_backfill: x.2 }),
        forall|a: int, b: int|
            0 <= a < b < doomed(decisions).len() ==> (#[trigger] doomed(decisions)[a]).0 < (
            #[trigger] doomed(decisions)[b]).0,
    decreases decisions.len(),
{
    if decisions.len() > 0 {
        let past = decisions.drop_last();
        let before = doomed(past);
        let now = doomed(decisions);
        lemma_doomed(past);
        let n = (decisions.len() - 1) as usize;
        assert forall|x: (usize, usize, Option<(Degrees, Degrees)>)| #[trigger]
            now.contains(x) == (x.0 < decisions.len() && decisions[x.0 as int]
                == GroupDecision::AutoDeleteDupes { keeper_idx: x.1, gps_backfill: x.2 }) by {
            assert(before.contains(x) == (x.0 < past.len() && past[x.0 as int]
                == GroupDecision::AutoDeleteDupes { keeper_idx: x.1, gps_backfill: x.2 }));
            if now.contains(x) {
                let k = choose|k: int| 0 <= k < now.len() && now[k] == x;
                if k < before.len() {
                    assert(before[k] == x);
                }
            }
            if before.contains(x) {
                let k = choose|k: int| 0 <= k < before.len() && before[k] == x;
                assert(now[k] == x);
            }
            if decisions.last() is AutoDeleteDupes && x.0 == n {
                let last = now[now.len() - 1];
                assert(now.contains(last));
                assert(last.0 == n);
            }
        }
        assert forall|a: int, b: int| 0 <= a < b < now.len() implies (#[trigger] now[a]).0 < (
        #[trigger] now[b]).0 by {
            assert(now[a] == before[a]);
            if b < before.len() {
                assert(now[b] == before[b]);
            } else {
                assert(before.contains(before[a]));
            }
        }
    }
}

/// The cap takes groups from the end of the list, and 0 means no cap.
#[verifier::spinoff_prover]
#[verifier::rlimit(60)]
pub proof fn law_cap_takes_the_first(list: Seq<usize>, limit: nat)
    ensures
        capped(list, limit).is_prefix_of(list),
        capped(list, limit).len() == if limit == 0 || list.len() < limit {
            list.len()
        } else {
            limit
        },
{
    assert(list.take(list.len() as int) =~= list);
    if 0 < limit < list.len() {
        assert(list.take(limit as int).len() == limit);
        assert(capped(list, limit) =~= list.take(capped(list, limit).len() as int));
    }
}

/// Every group is judged on its own: by its own members, their own capture times and the
/// pairs that are listed for it, whatever the other groups are.
#[verifier::spinoff_prover]
#[verifier::rlimit(60)]
pub proof fn law_groups_are_judged_one_by_one(
    groups: Seq<DuplicateGroup>,
    stacks: Seq<Stack>,
    gap: int,
    far: Seq<Vec<(usize, usize)>>,
    i: int,
)
    requires
        0 <= i < groups.len(),
        far.len() == groups.len(),
    ensures
        all_decisions(groups, stacked_set(stacks), gap, far).len() == groups.len(),
        all_decisions(groups, stacked_set(stacks), gap, far)[i] == all_decisions(
            seq![groups[i]],
            stacked_set(stacks),
            gap,
            seq![far[i]],
        )[0],
        forall|m: int, s: int, k: int|
            0 <= m < groups[i].assets@.len() && 0 <= s < stacks.len() && 0 <= k
                < stacks[s].assets@.len() && (#[trigger] groups[i].assets@[m]).id@ == (
            #[trigger] stacks[s].assets@[k]).id@ && groups[i].assets@.len() >= 2 ==> all_decisions(
                groups,
                stacked_set(stacks),
                gap,
                far,
            )[i] == GroupDecision::Skip(SkipReason::AlreadyStacked),
        forall|m: int, s: int|
            0 <= m < groups[i].assets@.len() && 0 <= s < stacks.len() && (
            #[trigger] groups[i].assets@[m]).id@ == (#[trigger] stacks[s]).primary_asset_id@
                && groups[i].assets@.len() >= 2 ==> all_decisions(
                groups,
                stacked_set(stacks),
                gap,
                far,
            )[i] == GroupDecision::Skip(SkipReason::AlreadyStacked),
{
    let assets = groups[i].assets@;
    assert forall|m: int, s: int, k: int|
        0 <= m < assets.len() && 0 <= s < stacks.len() && 0 <= k < stacks[s].assets@.len() && (
        #[trigger] assets[m]).id@ == (#[trigger] stacks[s].assets@[k]).id@ && assets.len()
            >= 2 implies all_decisions(groups, stacked_set(stacks), gap, far)[i]
        == GroupDecision::Skip(SkipReason::AlreadyStacked) by {
        assert(in_stack(stacks[s], assets[m].id@));
        assert(stacked_set(stacks).contains(assets[m].id@));
    }
    assert forall|m: int, s: int|
        0 <= m < assets.len() && 0 <= s < stacks.len() && (#[trigger] assets[m]).id@ == (
        #[trigger] stacks[s]).primary_asset_id@ && assets.len() >= 2 implies all_decisions(
        groups,
        stacked_set(stacks),
        gap,
        far,
    )[i] == GroupDecision::Skip(SkipReason::AlreadyStacked) by {
        assert(in_stack(stacks[s], assets[m].id@));
        assert(stacked_set(stacks).contains(assets[m].id@));
    }
}

/// Nothing but the members and covers of the stacks counts as stacked.
#[verifier::spinoff_prover]
#[verifier::rlimit(60)]
pub proof fn law_stacked_means_in_a_stack(stacks: Seq<Stack>, id: Seq<char>)
    ensures
        stacked_set(stacks).contains(id) <==> exists|s: int|
            0 <= s < stacks.len() && ((#[trigger] stacks[s]).primary_asset_id@ == id || exists|
                m: int,
            | 0 <= m < stacks[s].assets@.len() && (#[trigger] stacks[s].assets@[m]).id@ == id),
{
    if stacked_set(stacks).contains(id) {
        let s = choose|s: int| 0 <= s < stacks.len() && #[trigger] in_stack(stacks[s], id);
        assert(stacks[s].primary_asset_id@ == id || exists|m: int|
            0 <= m < stacks[s].assets@.len() && (#[trigger] stacks[s].assets@[m]).id@ == id);
    }
    if exists|s: int|
        0 <= s < stacks.len() && ((#[trigger] stacks[s]).primary_asset_id@ == id || exists|m: int|
            0 <= m < stacks[s].assets@.len() && (#[trigger] stacks[s].assets@[m]).id@ == id) {
        let s = choose|s: int|
            0 <= s < stacks.len() && ((#[trigger] stacks[s]).primary_asset_id@ == id || exists|
                m: int,
            | 0 <= m < stacks[s].assets@.len() && (#[trigger] stacks[s].assets@[m]).id@ == id);
        assert(in_stack(stacks[s], id));
    }
}

// ---- arguments --------------------------------------------------------------

/// Arguments are accepted exactly where something is worked on at a time, no bound is
/// negative and the size ratio lies between 0 and 1; the ratio is then used as it is.
#[verifier::spinoff_prover]
#[verifier::rlimit(60)]
pub proof fn law_accepted_arguments(args: DedupArgs)
    ensures
        args.refusal() is None <==> args.parallel >= 1 && args.max_time_gap_secs >= 0
            && args.max_distance_m.num >= 0 && 0 <= args.size_ratio.num <= args.size_ratio.den
            && args.size_ratio.den > 0,
        args.parallel == 0 ==> args.refusal() == Some(Error::ParallelZero),
        args.parallel > 0 && args.max_time_gap_secs < 0 ==> args.refusal() == Some(
            Error::TimeGapNegative,
        ),
        args.parallel > 0 && args.max_time_gap_secs >= 0 && args.max_distance_m.num < 0
            ==> args.refusal() == Some(Error::DistanceNegative),
        args.refusal() is None ==> args.ratio().num as int == args.size_ratio.num
            && args.ratio().den == args.size_ratio.den,
{
}

// ---- counting ---------------------------------------------------------------

/// One more outcome raises the count that it belongs to by one, the assets by as many as
/// it tells of, and no other count.
#[verifier::spinoff_prover]
#[verifier::rlimit(60)]
pub proof fn law_deletions_are_counted(
    outcomes: Seq<DeleteOutcome>,
    one: DeleteOutcome,
    a: AutoDeleteCounts,
    b: AutoDeleteCounts,
)
    requires
        a.counts(outcomes),
        b.counts(outcomes.push(one)),
    ensures
        b.would_delete_groups == a.would_delete_groups + if one is WouldDelete {
            1int
        } else {
            0
        },
        b.would_delete_assets == a.would_delete_assets + if one is WouldDelete {
            one->WouldDelete_0 as int
        } else {
            0
        },
        b.deleted_groups == a.deleted_groups + if one is Deleted {
            1int
        } else {
            0
        },
        b.deleted_assets == a.deleted_assets + if one is Deleted {
            one->Deleted_0 as int
        } else {
            0
        },
        b.delete_failed == a.delete_failed + if one is Failed {
            1int
        } else {
            0
        },
{
    assert(outcomes.push(one).drop_last() =~= outcomes);
}

/// As with deletions, each dismissal is counted once and where it belongs.
#[verifier::spinoff_prover]
#[verifier::rlimit(60)]
pub proof fn law_dismissals_are_counted(
    outcomes: Seq<KeepOutcome>,
    one: KeepOutcome,
    a: KeepAllCounts,
    b: KeepAllCounts,
)
    requires
        a.counts(outcomes),
        b.counts(outcomes.push(one)),
    ensures
        b.would_keep_groups == a.would_keep_groups + if one is WouldKeep {
            1int
        } else {
            0
        },
        b.would_keep_assets == a.would_keep_assets + if one is WouldKeep {
            one->WouldKeep_0 as int
        } else {
            0
        },
        b.kept_groups == a.kept_groups + if one is Kept {
            1int
        } else {
            0
        },
        b.kept_assets == a.kept_assets + if one is Kept {
            one->Kept_0 as int
        } else {
            0
        },
        b.keep_failed == a.keep_failed + if one is Failed {
            1int
        } else {
            0
        },
{
    assert(outcomes.push(one).drop_last() =~= outcomes);
}

/// As with deletions, each planned group is counted once and where it belongs.
#[verifier::spinoff_prover]
#[verifier::rlimit(60)]
pub proof fn law_work_is_counted(
    outcomes: Seq<WorkOutcome>,
    one: WorkOutcome,
    a: WorkCounts,
    b: WorkCounts,
)
    requires
        a.counts(outcomes),
        b.counts(outcomes.push(one)),
    ensures
        b.plan_failed == a.plan_failed + if one is PlanFailed {
            1int
        } else {
            0
        },
        b.would_apply == a.would_apply + if one is WouldApply {
            1int
        } else {
            0
        },
        b.applied == a.applied + if one is Applied {
            1int
        } else {
            0
        },
        b.applied_with_warnings == a.applied_with_warnings + if one is AppliedWithWarnings {
            1int
        } else {
            0
        },
        b.apply_failed == a.apply_failed + if one is ApplyFailed {
            1int
        } else {
            0
        },
{
    assert(outcomes.push(one).drop_last() =~= outcomes);
}

/// Each skipped group is counted once and under its reason; no other group is.
#[verifier::spinoff_prover]
#[verifier::rlimit(60)]
pub proof fn law_skips_are_counted(
    decisions: Seq<GroupDecision>,
    one: GroupDecision,
    a: SkipCounts,
    b: SkipCounts,
)
    requires
        a.counts(decisions),
        b.counts(decisions.push(one)),
    ensures
        !(one is Skip) ==> a == b,
        one == GroupDecision::Skip(SkipReason::AlreadyStacked) ==> b == (SkipCounts {
            already_stacked: (a.already_stacked + 1) as usize,
            ..a
        }),
        one == GroupDecision::Skip(SkipReason::TooFewAssets) ==> b == (SkipCounts {
            too_few: (a.too_few + 1) as usize,
            ..a
        }),
        one == GroupDecision::Skip(SkipReason::ContainsVideo) ==> b == (SkipCounts {
            contains_video: (a.contains_video + 1) as usize,
            ..a
        }),
        one == GroupDecision::Skip(SkipReason::DifferentFolders) ==> b == (SkipCounts {
            different_folders: (a.different_folders + 1) as usize,
            ..a
        }),
        one == GroupDecision::Skip(SkipReason::TimeGapTooLarge) ==> b == (SkipCounts {
            time_gap_too_large: (a.time_gap_too_large + 1) as usize,
            ..a
        }),
        one == GroupDecision::Skip(SkipReason::DistanceTooLarge) ==> b == (SkipCounts {
            distance_too_large: (a.distance_too_large + 1) as usize,
            ..a
        }),
        one == GroupDecision::Skip(SkipReason::MissingCaptureTime) ==> b == (SkipCounts {
            missing_capture_time: (a.missing_capture_time + 1) as usize,
            ..a
        }),
{
    assert(decisions.push(one).drop_last() =~= decisions);
}

// ---- what is told -----------------------------------------------------------

/// Each number of the summary stands behind the name of what it counts.
#[verifier::spinoff_prover]
#[verifier::rlimit(60)]
pub proof fn law_summary_names_the_skips(c: Counts, apply: bool)
    ensures
        holds(summary_text(c, apply), "skipped: already_stacked="@ + decimal(c.skipped.already_stacked as nat)),
        holds(summary_text(c, apply), " too_few="@ + decimal(c.skipped.too_few as nat)),
        holds(summary_text(c, apply), " video="@ + decimal(c.skipped.contains_video as nat)),
        holds(summary_text(c, apply), " folders="@ + decimal(c.skipped.different_folders as nat)),
        holds(summary_text(c, apply), " time_gap="@ + decimal(c.skipped.time_gap_too_large as nat)),
        holds(summary_text(c, apply), " distance="@ + decimal(c.skipped.distance_too_large as nat)),
        holds(summary_text(c, apply), " no_time="@ + decimal(c.skipped.missing_capture_time as nat)),
{
    let s = c.skipped;
    let rest = if apply {
        applied_lines(c)
    } else {
        dry_run_lines(c)
    };
    let q = Seq::<Seq<char>>::empty();
    let t = Seq::<char>::empty();
    let p0 = "skipped: already_stacked="@ + decimal(s.already_stacked as nat);
    let q0 = q.push(p0);
    let t0 = "skipped: already_stacked="@ + decimal(s.already_stacked as nat);
    lemma_concat_push(q, p0);
    assert(concat(q0) =~= t0);
    let p1 = " too_few="@ + decimal(s.too_few as nat);
    let q1 = q0.push(p1);
    let t1 = t0 + " too_few="@ + decimal(s.too_few as nat);
    lemma_concat_push(q0, p1);
    assert(concat(q1) =~= t1);
    let p2 = " video="@ + decimal(s.contains_video as nat);
    let q2 = q1.push(p2);
    let t2 = t1 + " video="@ + decimal(s.contains_video as nat);
    lemma_concat_push(q1, p2);
    assert(concat(q2) =~= t2);
    let p3 = " folders="@ + decimal(s.different_folders as nat);
    let q3 = q2.push(p3);
    let t3 = t2 + " folders="@ + decimal(s.different_folders as nat);
    lemma_concat_push(q2, p3);
    assert(concat(q3) =~= t3);
    let p4 = " time_gap="@ + decimal(s.time_gap_too_large as nat);
    let q4 = q3.push(p4);
    let t4 = t3 + " time_gap="@ + decimal(s.time_gap_too_large as nat);
    lemma_concat_push(q3, p4);
    assert(concat(q4) =~= t4);
    let p5 = " distance="@ + decimal(s.distance_too_large as nat);
    let q5 = q4.push(p5);
    let t5 = t4 + " distance="@ + decimal(s.distance_too_large as nat);
    lemma_concat_push(q4, p5);
    assert(concat(q5) =~= t5);
    let p6 = " no_time="@ + decimal(s.missing_capture_time as nat);
    let q6 = q5.push(p6);
    let t6 = t5 + " no_time="@ + decimal(s.missing_capture_time as nat);
    lemma_concat_push(q5, p6);
    assert(concat(q6) =~= t6);
    assert(summary_text(c, apply) =~= t6 + ("\n"@ + rest));
    lemma_holds_piece(q6, 0);
    assert(q6[0] == p0);
    lemma_holds_within(t, t6, "\n"@ + rest, p0);
    lemma_holds_piece(q6, 1);
    assert(q6[1] == p1);
    lemma_holds_within(t, t6, "\n"@ + rest, p1);
    lemma_holds_piece(q6, 2);
    assert(q6[2] == p2);
    lemma_holds_within(t, t6, "\n"@ + rest, p2);
    lemma_holds_piece(q6, 3);
    assert(q6[3] == p3);
    lemma_holds_within(t, t6, "\n"@ + rest, p3);
    lemma_holds_piece(q6, 4);
    assert(q6[4] == p4);
    lemma_holds_within(t, t6, "\n"@ + rest, p4);
    lemma_holds_piece(q6, 5);
    assert(q6[5] == p5);
    lemma_holds_within(t, t6, "\n"@ + rest, p5);
    lemma_holds_piece(q6, 6);
    assert(q6[6] == p6);
    lemma_holds_within(t, t6, "\n"@ + rest, p6);
}

/// What was done is told with its numbers: the groups and assets that were deleted, those
/// that were dismissed, and how the stacks came out.
#[verifier::spinoff_prover]
#[verifier::rlimit(60)]
pub proof fn law_summary_tells_what_was_done(c: Counts)
    ensures
        holds(summary_text(c, true), "auto-deleted: "@ + decimal(c.auto_delete.deleted_groups as nat) + " group(s), "@ + decimal(c.auto_delete.deleted_assets as nat) + " asset(s); "@ + decimal(c.auto_delete.delete_failed as nat) + " failed\n"@),
        holds(summary_text(c, true), "kept-all (>6h spread): "@ + decimal(c.keep_all.kept_groups as nat) + " group(s), "@ + decimal(c.keep_all.kept_assets as nat) + " asset(s); "@ + decimal(c.keep_all.keep_failed as nat) + " failed\n"@),
        holds(summary_text(c, true), "applied: "@ + decimal(c.work.applied as nat) + " ok, "@ + decimal(c.work.applied_with_warnings as nat) + " ok-with-warnings, "@ + decimal(c.work.apply_failed as nat) + " stack failed, "@ + decimal(c.work.plan_failed as nat) + " plan failed\n"@),
{
    reveal_strlit(" failed\nkept-all (>6h spread): ");
    reveal_strlit(" failed\napplied: ");
    reveal_strlit(" failed\n");
    reveal_strlit("kept-all (>6h spread): ");
    reveal_strlit("applied: ");
    assert(" failed\nkept-all (>6h spread): "@ =~= " failed\n"@ + "kept-all (>6h spread): "@);
    assert(" failed\napplied: "@ =~= " failed\n"@ + "applied: "@);
    let head = skipped_line(c.skipped);
    let a0 = "auto-deleted: "@ + decimal(c.auto_delete.deleted_groups as nat) + " group(s), "@ + decimal(c.auto_delete.deleted_assets as nat) + " asset(s); "@ + decimal(c.auto_delete.delete_failed as nat) + " failed\n"@;
    let a1 = "kept-all (>6h spread): "@ + decimal(c.keep_all.kept_groups as nat) + " group(s), "@ + decimal(c.keep_all.kept_assets as nat) + " asset(s); "@ + decimal(c.keep_all.keep_failed as nat) + " failed\n"@;
    let a2 = "applied: "@ + decimal(c.work.applied as nat) + " ok, "@ + decimal(c.work.applied_with_warnings as nat) + " ok-with-warnings, "@ + decimal(c.work.apply_failed as nat) + " stack failed, "@ + decimal(c.work.plan_failed as nat) + " plan failed\n"@;
    let t0 = "auto-deleted: "@ + decimal(c.auto_delete.deleted_groups as nat) + " group(s), "@ + decimal(c.auto_delete.deleted_assets as nat) + " asset(s); "@ + decimal(c.auto_delete.delete_failed as nat) + " failed\nkept-all (>6h spread): "@;
    assert(t0 =~= a0 + "kept-all (>6h spread): "@);
    let t1 = t0 + decimal(c.keep_all.kept_groups as nat) + " group(s), "@ + decimal(c.keep_all.kept_assets as nat) + " asset(s); "@ + decimal(c.keep_all.keep_failed as nat) + " failed\napplied: "@;
    assert(t1 =~= a0 + a1 + "applied: "@);
    let t2 = t1 + decimal(c.work.applied as nat) + " ok, "@ + decimal(c.work.applied_with_warnings as nat) + " ok-with-warnings, "@ + decimal(c.work.apply_failed as nat) + " stack failed, "@ + decimal(c.work.plan_failed as nat) + " plan failed\n"@;
    assert(t2 =~= a0 + a1 + a2);
    assert(applied_lines(c) == t2);
    lemma_three(head, a0, a1, a2);
    assert(head + t2 =~= head + a0 + a1 + a2);
}

/// What a dry run would have done is told with its numbers.
#[verifier::spinoff_prover]
#[verifier::rlimit(60)]
pub proof fn law_summary_tells_what_would_be_done(c: Counts)
    ensures
        holds(summary_text(c, false), "would auto-delete: "@ + decimal(c.auto_delete.would_delete_groups as nat) + " group(s), "@ + decimal(c.auto_delete.would_delete_assets as nat) + " asset(s)\n"@),
        holds(summary_text(c, false), "would keep-all (>6h spread): "@ + decimal(c.keep_all.would_keep_groups as nat) + " group(s), "@ + decimal(c.keep_all.would_keep_assets as nat) + " asset(s)\n"@),
        holds(summary_text(c, false), "would apply: "@ + decimal(c.work.would_apply as nat) + " group(s); "@ + decimal(c.work.plan_failed as nat) + " plan failed\n"@),
{
    reveal_strlit(" asset(s)\nwould keep-all (>6h spread): ");
    reveal_strlit(" asset(s)\nwould apply: ");
    reveal_strlit(" asset(s)\n");
    reveal_strlit("would keep-all (>6h spread): ");
    reveal_strlit("would apply: ");
    assert(" asset(s)\nwould keep-all (>6h spread): "@ =~= " asset(s)\n"@ + "would keep-all (>6h spread): "@);
    assert(" asset(s)\nwould apply: "@ =~= " asset(s)\n"@ + "would apply: "@);
    let head = skipped_line(c.skipped);
    let a0 = "would auto-delete: "@ + decimal(c.auto_delete.would_delete_groups as nat) + " group(s), "@ + decimal(c.auto_delete.would_delete_assets as nat) + " asset(s)\n"@;
    let a1 = "would keep-all (>6h spread): "@ + decimal(c.keep_all.would_keep_groups as nat) + " group(s), "@ + decimal(c.keep_all.would_keep_assets as nat) + " asset(s)\n"@;
    let a2 = "would apply: "@ + decimal(c.work.would_apply as nat) + " group(s); "@ + decimal(c.work.plan_failed as nat) + " plan failed\n"@;
    let t0 = "would auto-delete: "@ + decimal(c.auto_delete.would_delete_groups as nat) + " group(s), "@ + decimal(c.auto_delete.would_delete_assets as nat) + " asset(s)\nwould keep-all (>6h spread): "@;
    assert(t0 =~= a0 + "would keep-all (>6h spread): "@);
    let t1 = t0 + decimal(c.keep_all.would_keep_groups as nat) + " group(s), "@ + decimal(c.keep_all.would_keep_assets as nat) + " asset(s)\nwould apply: "@;
    assert(t1 =~= a0 + a1 + "would apply: "@);
    let t2 = t1 + decimal(c.work.would_apply as nat) + " group(s); "@ + decimal(c.work.plan_failed as nat) + " plan failed\n"@;
    assert(t2 =~= a0 + a1 + a2);
    assert(dry_run_lines(c) == t2);
    lemma_three(head, a0, a1, a2);
    assert(head + t2 =~= head + a0 + a1 + a2);
}

#[verifier::spinoff_prover]
#[verifier::rlimit(60)]
proof fn lemma_three(head: Seq<char>, a: Seq<char>, b: Seq<char>, c: Seq<char>)
    ensures
        holds(head + a + b + c, a),
        holds(head + a + b + c, b),
        holds(head + a + b + c, c),
{
    lemma_holds(head, a, b + c);
    assert(head + a + (b + c) =~= head + a + b + c);
    lemma_holds(head + a, b, c);
    lemma_holds(head + a + b, c, Seq::empty());
}

// ---- a whole run ------------------------------------------------------------

#[verifier::spinoff_prover]
#[verifier::rlimit(60)]
proof fn lemma_delete_outcomes(outcomes: Seq<DeleteOutcome>, apply: bool)
    requires
        forall|i: int|
            0 <= i < outcomes.len() ==> if apply {
                (#[trigger] outcomes[i]) is Deleted || outcomes[i] is Failed
            } else {
                outcomes[i] is WouldDelete
            },
    ensures
        apply ==> would_delete(outcomes).0 == 0 && deleted(outcomes).0 + occurrences(
            outcomes,
            DeleteOutcome::Failed,
        ) == outcomes.len(),
        !apply ==> would_delete(outcomes).0 == outcomes.len() && deleted(outcomes).0 == 0
            && occurrences(outcomes, DeleteOutcome::Failed) == 0,
    decreases outcomes.len(),
{
    if outcomes.len() > 0 {
        let past = outcomes.drop_last();
        assert forall|i: int| 0 <= i < past.len() implies if apply {
            (#[trigger] past[i]) is Deleted || past[i] is Failed
        } else {
            past[i] is WouldDelete
        } by {
            assert(past[i] == outcomes[i]);
        }
        lemma_delete_outcomes(past, apply);
        assert(outcomes[outcomes.len() - 1] == outcomes.last());
    }
}

#[verifier::spinoff_prover]
#[verifier::rlimit(60)]
proof fn lemma_keep_outcomes(outcomes: Seq<KeepOutcome>, apply: bool)
    requires
        forall|i: int|
            0 <= i < outcomes.len() ==> if apply {
                (#[trigger] outcomes[i]) is Kept || outcomes[i] is Failed
            } else {
                outcomes[i] is WouldKeep
            },
    ensures
        apply ==> would_keep(outcomes).0 == 0 && dismissed(outcomes).0 + occurrences(
            outcomes,
            KeepOutcome::Failed,
        ) == outcomes.len(),
        !apply ==> would_keep(outcomes).0 == outcomes.len() && dismissed(outcomes).0 == 0
            && occurrences(outcomes, KeepOutcome::Failed) == 0,
    decreases outcomes.len(),
{
    if outcomes.len() > 0 {
        let past = outcomes.drop_last();
        assert forall|i: int| 0 <= i < past.len() implies if apply {
            (#[trigger] past[i]) is Kept || past[i] is Failed
        } else {
            past[i] is WouldKeep
        } by {
            assert(past[i] == outcomes[i]);
        }
        lemma_keep_outcomes(past, apply);
        assert(outcomes[outcomes.len() - 1] == outcomes.last());
    }
}

#[verifier::spinoff_prover]
#[verifier::rlimit(60)]
proof fn lemma_work_outcomes(outcomes: Seq<WorkOutcome>, apply: bool)
    requires
        forall|i: int|
            0 <= i < outcomes.len() ==> (apply ==> !((#[trigger] outcomes[i]) is WouldApply)) && (
            !apply ==> outcomes[i] is WouldApply || outcomes[i] is PlanFailed),
    ensures
        occurrences(outcomes, WorkOutcome::PlanFailed) + occurrences(
            outcomes,
            WorkOutcome::WouldApply,
        ) + occurrences(outcomes, WorkOutcome::Applied) + occurrences(
            outcomes,
            WorkOutcome::AppliedWithWarnings,
        ) + occurrences(outcomes, WorkOutcome::ApplyFailed) == outcomes.len(),
        apply ==> occurrences(outcomes, WorkOutcome::WouldApply) == 0,
        !apply ==> occurrences(outcomes, WorkOutcome::Applied) == 0 && occurrences(
            outcomes,
            WorkOutcome::AppliedWithWarnings,
        ) == 0 && occurrences(outcomes, WorkOutcome::ApplyFailed) == 0,
    decreases outcomes.len(),
{
    if outcomes.len() > 0 {
        let past = outcomes.drop_last();
        assert forall|i: int| 0 <= i < past.len() implies (apply ==> !((
        #[trigger] past[i]) is WouldApply)) && (!apply ==> past[i] is WouldApply || past[i]
            is PlanFailed) by {
            assert(past[i] == outcomes[i]);
        }
        lemma_work_outcomes(past, apply);
        assert(outcomes[outcomes.len() - 1] == outcomes.last());
    }
}

/// Every group that a phase is to work on is worked on, and counted once: the groups of
/// copies, those to dismiss, and those that need a winner, up to the limit. A dry run counts
/// them as what would be done, and nothing as done.
#[verifier::spinoff_prover]
#[verifier::rlimit(60)]
pub proof fn law_run_accounts_for_its_groups<
    C: CaptionBackend,
    W: DedupWriteBackend,
    V: MultiImageVisionLlm,
>(
    caption_be: &C,
    write_be: &W,
    llm: &V,
    groups: Vec<DuplicateGroup>,
    stacks: Seq<Stack>,
    far: Seq<Vec<(usize, usize)>>,
    args: DedupArgs,
    report: DedupReport,
)
    requires
        far.len() == groups@.len(),
        run_comes_to(
            caption_be,
            write_be,
            llm,
            groups@,
            all_decisions(groups@, stacked_set(stacks), args.max_time_gap_secs as int, far),
            args,
            report,
        ),
    ensures
        ({
            let decisions = all_decisions(
                groups@,
                stacked_set(stacks),
                args.max_time_gap_secs as int,
                far,
            );
            let d = report.counts.auto_delete;
            let k = report.counts.keep_all;
            let w = report.counts.work;
            &&& args.apply ==> d.would_delete_groups == 0 && d.deleted_groups + d.delete_failed
                == doomed(decisions).len()
            &&& !args.apply ==> d.deleted_groups == 0 && d.delete_failed == 0
                && d.would_delete_groups == doomed(decisions).len()
            &&& args.apply ==> k.would_keep_groups == 0 && k.kept_groups + k.keep_failed == kept(
                decisions,
            ).len()
            &&& !args.apply ==> k.kept_groups == 0 && k.keep_failed == 0 && k.would_keep_groups
                == kept(decisions).len()
            &&& w.plan_failed + w.would_apply + w.applied + w.applied_with_warnings
                + w.apply_failed == capped(considered(decisions), args.limit as nat).len()
            &&& args.apply ==> w.would_apply == 0
            &&& !args.apply ==> w.applied == 0 && w.applied_with_warnings == 0 && w.apply_failed
                == 0
        }),
{
    let decisions = all_decisions(
        groups@,
        stacked_set(stacks),
        args.max_time_gap_secs as int,
        far,
    );
    let apply = args.apply;
    let (dr, dout, dl, kr, kout, kl, wout, wl) = choose|
        delete_replies: Seq<Seq<Result<(), Error>>>,
        delete_outcomes: Seq<DeleteOutcome>,
        delete_logs: Seq<Seq<char>>,
        keep_replies: Seq<Seq<Result<(), Error>>>,
        keep_outcomes: Seq<KeepOutcome>,
        keep_logs: Seq<Seq<char>>,
        work_outcomes: Seq<WorkOutcome>,
        work_logs: Seq<Seq<char>>,
    | {
        &&& #[trigger] deletions(
            write_be,
            groups@,
            doomed(decisions),
            apply,
            delete_replies,
            delete_outcomes,
            delete_logs,
        )
        &&& #[trigger] dismissals(
            write_be,
            groups@,
            kept(decisions),
            apply,
            keep_replies,
            keep_outcomes,
            keep_logs,
        )
        &&& #[trigger] all_worked(
            caption_be,
            llm,
            write_be,
            groups@,
            capped(considered(decisions), args.limit as nat),
            args.ratio(),
            apply,
            work_outcomes,
            work_logs,
        )
        &&& report.counts.auto_delete.counts(delete_outcomes)
        &&& report.counts.keep_all.counts(keep_outcomes)
        &&& report.counts.work.counts(work_outcomes)
    };
    assert(groups.len() == decisions.len());
    lemma_doomed(decisions);
    let list = doomed(decisions);
    assert forall|i: int| 0 <= i < dout.len() implies if apply {
        (#[trigger] dout[i]) is Deleted || dout[i] is Failed
    } else {
        dout[i] is WouldDelete
    } by {
        let item = list[i];
        assert(list.contains(item));
        let g = item.0 as int;
        law_only_copies_are_deleted(
            groups@[g],
            stacked_set(stacks),
            args.max_time_gap_secs as int,
            far[g]@,
            capture_times(groups@[g].assets@),
        );
        assert(dout[i] == deletion_outcome(groups@[g].assets@.len(), apply, dr[i]));
    }
    lemma_delete_outcomes(dout, apply);
    let keeps = kept(decisions);
    assert forall|i: int| 0 <= i < kout.len() implies if apply {
        (#[trigger] kout[i]) is Kept || kout[i] is Failed
    } else {
        kout[i] is WouldKeep
    } by {
        let n = groups@[keeps[i] as int].assets@.len();
        assert(kout[i] == dismissal_outcome(n, apply, kr[i]));
    }
    lemma_keep_outcomes(kout, apply);
    let todo = capped(considered(decisions), args.limit as nat);
    assert forall|i: int| 0 <= i < wout.len() implies (apply ==> !((#[trigger] wout[i])
        is WouldApply)) && (!apply ==> wout[i] is WouldApply || wout[i] is PlanFailed) by {
        assert(worked(
            caption_be,
            llm,
            write_be,
            groups@[todo[i] as int],
            args.ratio(),
            apply,
            wout[i],
            wl[i],
        ));
    }
    lemma_work_outcomes(wout, apply);
}

/// With `apply` the server is asked to delete the copies of every group of copies, all but
/// the one to keep, and to dismiss every group that is kept; what it answered is in the log.
#[verifier::spinoff_prover]
#[verifier::rlimit(60)]
pub proof fn law_run_asks_for_its_changes<
    C: CaptionBackend,
    W: DedupWriteBackend,
    V: MultiImageVisionLlm,
>(
    caption_be: &C,
    write_be: &W,
    llm: &V,
    groups: Vec<DuplicateGroup>,
    decisions: Seq<GroupDecision>,
    args: DedupArgs,
    report: DedupReport,
    i: int,
)
    requires
        decisions.len() == groups@.len(),
        run_comes_to(caption_be, write_be, llm, groups@, decisions, args, report),
        0 <= i < decisions.len(),
    ensures
        summary_text(report.counts, args.apply).is_suffix_of(report.log@),
        decisions[i] matches GroupDecision::AutoDeleteDupes { keeper_idx, gps_backfill } ==> exists|
            replies: Seq<Result<(), Error>>,
        |
            {
                &&& #[trigger] write_replies(
                    write_be,
                    deletion_writes(
                        groups@[i].assets@,
                        keeper_idx as int,
                        gps_backfill,
                        args.apply,
                    ),
                    replies,
                )
                &&& holds(
                    report.log@,
                    deletion_log(
                        groups@[i],
                        keeper_idx as int,
                        gps_backfill,
                        args.apply,
                        replies,
                    ),
                )
            },
        decisions[i] is KeepAll ==> exists|replies: Seq<Result<(), Error>>|
            {
                &&& #[trigger] write_replies(
                    write_be,
                    dismissal_writes(groups@[i], args.apply),
                    replies,
                )
                &&& holds(report.log@, dismissal_log(groups@[i], args.apply, replies))
            },
{
    let apply = args.apply;
    let (dr, dout, dl, kr, kout, kl, wout, wl) = choose|
        delete_replies: Seq<Seq<Result<(), Error>>>,
        delete_outcomes: Seq<DeleteOutcome>,
        delete_logs: Seq<Seq<char>>,
        keep_replies: Seq<Seq<Result<(), Error>>>,
        keep_outcomes: Seq<KeepOutcome>,
        keep_logs: Seq<Seq<char>>,
        work_outcomes: Seq<WorkOutcome>,
        work_logs: Seq<Seq<char>>,
    | {
        &&& #[trigger] deletions(
            write_be,
            groups@,
            doomed(decisions),
            apply,
            delete_replies,
            delete_outcomes,
            delete_logs,
        )
        &&& #[trigger] dismissals(
            write_be,
            groups@,
            kept(decisions),
            apply,
            keep_replies,
            keep_outcomes,
            keep_logs,
        )
        &&& #[trigger] all_worked(
            caption_be,
            llm,
            write_be,
            groups@,
            capped(considered(decisions), args.limit as nat),
            args.ratio(),
            apply,
            work_outcomes,
            work_logs,
        )
        &&& report.log@ == (if args.verbose {
            skips_text(groups@, decisions)
        } else {
            Seq::empty()
        }) + concat(delete_logs) + concat(keep_logs) + concat(work_logs) + summary_text(
            report.counts,
            apply,
        )
    };
    let skips = if args.verbose {
        skips_text(groups@, decisions)
    } else {
        Seq::empty()
    };
    let (d, k, w, s) = (concat(dl), concat(kl), concat(wl), summary_text(report.counts, apply));
    let log = report.log@;
    assert(log.skip(log.len() - s.len()) =~= s);
    assert(groups.len() == decisions.len());
    lemma_doomed(decisions);
    lemma_kept(decisions);
    if let GroupDecision::AutoDeleteDupes { keeper_idx, gps_backfill } = decisions[i] {
        let item = (i as usize, keeper_idx, gps_backfill);
        assert(doomed(decisions).contains(item));
        let n = choose|n: int| 0 <= n < doomed(decisions).len() && doomed(decisions)[n] == item;
        lemma_holds_piece(dl, n);
        assert(log =~= skips + d + (k + w + s));
        lemma_holds_within(skips, d, k + w + s, dl[n]);
        assert(write_replies(
            write_be,
            deletion_writes(groups@[i].assets@, keeper_idx as int, gps_backfill, apply),
            dr[n],
        ));
        assert(dl[n] == deletion_log(groups@[i], keeper_idx as int, gps_backfill, apply, dr[n]));
    }
    if decisions[i] is KeepAll {
        assert(kept(decisions).contains(i as usize));
        let n = choose|n: int| 0 <= n < kept(decisions).len() && kept(decisions)[n] == i as usize;
        lemma_holds_piece(kl, n);
        assert(log =~= (skips + d) + k + (w + s));
        lemma_holds_within(skips + d, k, w + s, kl[n]);
        assert(write_replies(write_be, dismissal_writes(groups@[i], apply), kr[n]));
        assert(kl[n] == dismissal_log(groups@[i], apply, kr[n]));
    }
}

/// A group that a winner was picked for had its coordinates written and its stack made, in
/// the order of the plan, or is told as it would be; one that could not be planned is told
/// with the reason.
#[verifier::spinoff_prover]
#[verifier::rlimit(60)]
pub proof fn law_work_follows_the_plan<C: CaptionBackend, V: MultiImageVisionLlm, W: DedupWriteBackend>(
    caption_be: &C,
    llm: &V,
    write_be: &W,
    group: DuplicateGroup,
    ratio: Ratio,
    apply: bool,
    outcome: WorkOutcome,
    log: Seq<char>,
)
    requires
        worked(caption_be, llm, write_be, group, ratio, apply, outcome, log),
    ensures
        outcome is PlanFailed ==> exists|e: Error|
            #![trigger e.full_text()]
            planned(caption_be, llm, group.assets@, ratio, Err(e)) && log == "FAIL plan group "@
                + group.duplicate_id@ + " — "@ + e.full_text() + "\n"@,
        !(outcome is PlanFailed) ==> exists|plan: ActionPlan, replies: Seq<Result<(), Error>>|
            {
                &&& #[trigger] planned(caption_be, llm, group.assets@, ratio, Ok(plan))
                &&& #[trigger] write_replies(write_be, stacking_writes(plan, apply), replies)
                &&& apply ==> replies.len() == plan.gps_backfill@.len() + 1
                &&& outcome == stacking_outcome(apply, replies)
                &&& plan_log(group, plan, apply).is_prefix_of(log)
            },
{
    let plan = choose|plan: Result<ActionPlan, Error>| #[trigger]
        planned(caption_be, llm, group.assets@, ratio, plan) && match plan {
            Err(e) => {
                &&& outcome == WorkOutcome::PlanFailed
                &&& log == "FAIL plan group "@ + group.duplicate_id@ + " — "@ + e.full_text()
                    + "\n"@
            },
            Ok(plan) => exists|replies: Seq<Result<(), Error>>| #[trigger]
                write_replies(write_be, stacking_writes(plan, apply), replies) && outcome
                    == stacking_outcome(apply, replies) && log == stacking_log(
                    group,
                    plan,
                    apply,
                    replies,
                ),
        };
    match plan {
        Err(e) => {
            assert(planned(caption_be, llm, group.assets@, ratio, Err(e)));
            assert(e.full_text() == e.full_text());
        },
        Ok(p) => {
            let replies = choose|replies: Seq<Result<(), Error>>| #[trigger]
                write_replies(write_be, stacking_writes(p, apply), replies) && outcome
                    == stacking_outcome(apply, replies) && log == stacking_log(
                    group,
                    p,
                    apply,
                    replies,
                );
            law_stacking_asks_for(p, apply);
            let head = plan_log(group, p, apply);
            assert(log.take(head.len() as int) =~= head);
            assert(planned(caption_be, llm, group.assets@, ratio, Ok(p)));
        },
    }
}

/// The line on a group of copies tells which member is kept, by its id and path, and how many
/// are deleted; a dry run says that it is one.
#[verifier::spinoff_prover]
#[verifier::rlimit(60)]
pub proof fn law_log_names_the_keeper(group: DuplicateGroup, keeper: int, apply: bool)
    requires
        0 <= keeper < group.assets@.len(),
    ensures
        ({
            let line = deletion_heading(group, keeper, apply);
            let a = group.assets@[keeper];
            &&& apply ==> ("AUTO-DELETE group "@ + group.duplicate_id@).is_prefix_of(line)
            &&& !apply ==> ("DRY-RUN AUTO-DELETE group "@ + group.duplicate_id@).is_prefix_of(line)
            &&& holds(line, " → keep "@ + a.id@ + " "@ + a.original_path@ + " ["@)
            &&& holds(line, "delete "@ + decimal((group.assets@.len() - 1) as nat) + "\n"@)
        }),
{
    let line = deletion_heading(group, keeper, apply);
    let a = group.assets@[keeper];
    let gps_mark = if gps(a) is Some {
        "GPS"@
    } else {
        "no-GPS"@
    };
    reveal_strlit("AUTO-DELETE");
    reveal_strlit("DRY-RUN AUTO-DELETE");
    reveal_strlit(" group ");
    reveal_strlit("AUTO-DELETE group ");
    reveal_strlit("DRY-RUN AUTO-DELETE group ");
    assert("AUTO-DELETE group "@ =~= "AUTO-DELETE"@ + " group "@);
    assert("DRY-RUN AUTO-DELETE group "@ =~= "DRY-RUN AUTO-DELETE"@ + " group "@);
    let start = (if apply {
        "AUTO-DELETE group "@
    } else {
        "DRY-RUN AUTO-DELETE group "@
    }) + group.duplicate_id@;
    assert(line.take(start.len() as int) =~= start);
    reveal_strlit(" assets) → keep ");
    reveal_strlit(" assets)");
    reveal_strlit(" → keep ");
    assert(" assets) → keep "@ =~= " assets)"@ + " → keep "@);
    let head = start + " ("@ + decimal(group.assets@.len()) + " assets)"@;
    let middle = " → keep "@ + a.id@ + " "@ + a.original_path@ + " ["@;
    let tail = gps_mark + "], delete "@ + decimal((group.assets@.len() - 1) as nat) + "\n"@;
    assert(line =~= head + middle + tail);
    lemma_holds(head, middle, tail);
    reveal_strlit("], delete ");
    reveal_strlit("], ");
    reveal_strlit("delete ");
    assert("], delete "@ =~= "], "@ + "delete "@);
    let last = "delete "@ + decimal((group.assets@.len() - 1) as nat) + "\n"@;
    assert(line =~= head + middle + gps_mark + "], "@ + last);
    lemma_holds(head + middle + gps_mark + "], "@, last, Seq::empty());
}

/// Each deleted member has a line with its id and path; the kept one has none. Coordinates
/// are told with the latitude first, and a failure with its cause.
#[verifier::spinoff_prover]
#[verifier::rlimit(60)]
pub proof fn law_log_lines(
    prefix: Seq<char>,
    assets: Seq<Asset>,
    a: Asset,
    except: int,
    lat: Degrees,
    lng: Degrees,
    id: Seq<char>,
)
    ensures
        except != assets.len() ==> member_lines(prefix, assets.push(a), except) == member_lines(
            prefix,
            assets,
            except,
        ) + ("  "@ + prefix + " "@ + a.id@ + " "@ + a.original_path@ + "\n"@),
        except == assets.len() ==> member_lines(prefix, assets.push(a), except) == member_lines(
            prefix,
            assets,
            except,
        ),
        holds(
            gps_line(prefix, id, lat, lng),
            id + " → ("@ + lat.six_decimals@ + ", "@ + lng.six_decimals@ + ")\n"@,
        ),
{
    assert(assets.push(a).drop_last() =~= assets);
    let head = "  "@ + prefix + " GPS "@;
    let tail = id + " → ("@ + lat.six_decimals@ + ", "@ + lng.six_decimals@ + ")\n"@;
    assert(gps_line(prefix, id, lat, lng) =~= head + tail);
    lemma_holds(head, tail, Seq::empty());
}

/// The line on a planned group tells its winner by id and path, and why it was picked; a dry
/// run says that it is one.
#[verifier::spinoff_prover]
#[verifier::rlimit(60)]
pub proof fn law_log_names_the_winner(group: DuplicateGroup, plan: ActionPlan, apply: bool)
    requires
        plan.winner_idx < group.assets@.len(),
    ensures
        ({
            let text = plan_log(group, plan, apply);
            let a = group.assets@[plan.winner_idx as int];
            &&& apply ==> ("PLAN stack group "@ + group.duplicate_id@).is_prefix_of(text)
            &&& !apply ==> ("DRY-RUN stack group "@ + group.duplicate_id@).is_prefix_of(text)
            &&& holds(
                text,
                " → winner "@ + a.id@ + " "@ + a.original_path@ + " ["@ + reason_text(
                    plan.pick_reason,
                ) + "]\n"@,
            )
        }),
        plan.pick_reason matches PickReason::VisionModel { rationale } ==> reason_text(
            plan.pick_reason,
        ) == "vision: "@ + rationale@,
{
    let text = plan_log(group, plan, apply);
    let a = group.assets@[plan.winner_idx as int];
    reveal_strlit("PLAN");
    reveal_strlit("DRY-RUN");
    reveal_strlit(" stack group ");
    reveal_strlit("PLAN stack group ");
    reveal_strlit("DRY-RUN stack group ");
    assert("PLAN stack group "@ =~= "PLAN"@ + " stack group "@);
    assert("DRY-RUN stack group "@ =~= "DRY-RUN"@ + " stack group "@);
    let start = (if apply {
        "PLAN stack group "@
    } else {
        "DRY-RUN stack group "@
    }) + group.duplicate_id@;
    assert(text.take(start.len() as int) =~= start);
    reveal_strlit(" assets) → winner ");
    reveal_strlit(" assets)");
    reveal_strlit(" → winner ");
    assert(" assets) → winner "@ =~= " assets)"@ + " → winner "@);
    let head = start + " ("@ + decimal(group.assets@.len()) + " assets)"@;
    let middle = " → winner "@ + a.id@ + " "@ + a.original_path@ + " ["@ + reason_text(
        plan.pick_reason,
    ) + "]\n"@;
    let tail = copy_lines(
        if apply {
            "PLAN"@
        } else {
            "DRY-RUN"@
        },
        copy_views(plan.gps_backfill@),
    );
    assert(text =~= head + middle + tail);
    lemma_holds(head, middle, tail);
}

/// The gap that is told of a winner by size is the share by which the smallest file is
/// smaller, in per cent, to the nearest integer.
#[verifier::spinoff_prover]
#[verifier::rlimit(60)]
pub proof fn law_gap_is_the_nearest_per_cent(smallest: nat, largest: nat)
    requires
        smallest <= largest,
        largest > 0,
    ensures
        ({
            let off = gap_percent(smallest, largest) * largest - 100 * (largest - smallest);
            -(largest as int) <= 2 * off <= largest
        }),
{
    let part = (100 * (largest - smallest)) as nat;
    vstd::arithmetic::div_mod::lemma_fundamental_div_mod(part as int, largest as int);
    let (whole, rest) = (part / largest, part % largest);
    assert(part == largest * whole + rest);
    assert(largest * whole == whole * largest) by (nonlinear_arith);
    assert((whole + 1) * largest == whole * largest + largest) by (nonlinear_arith);
}

/// Each skipped group is told with its reason and its id, in the order of the groups.
#[verifier::spinoff_prover]
#[verifier::rlimit(60)]
pub proof fn law_skips_are_told(
    groups: Seq<DuplicateGroup>,
    decisions: Seq<GroupDecision>,
    one: GroupDecision,
)
    requires
        decisions.len() < groups.len(),
    ensures
        ({
            let before = skips_text(groups, decisions);
            let after = skips_text(groups, decisions.push(one));
            let group = groups[decisions.len() as int];
            match one {
                GroupDecision::Skip(reason) => after == before + skip_text(reason, group) && (
                "skip ["@ + reason_name(reason) + "] group "@ + group.duplicate_id@).is_prefix_of(
                    skip_text(reason, group),
                ),
                _ => after == before,
            }
        }),
        reason_name(SkipReason::AlreadyStacked) == "AlreadyStacked"@,
        reason_name(SkipReason::TooFewAssets) == "TooFewAssets"@,
        reason_name(SkipReason::ContainsVideo) == "ContainsVideo"@,
        reason_name(SkipReason::DifferentFolders) == "DifferentFolders"@,
        reason_name(SkipReason::TimeGapTooLarge) == "TimeGapTooLarge"@,
        reason_name(SkipReason::DistanceTooLarge) == "DistanceTooLarge"@,
        reason_name(SkipReason::MissingCaptureTime) == "MissingCaptureTime"@,
{
    assert(decisions.push(one).drop_last() =~= decisions);
    if let GroupDecision::Skip(reason) = one {
        let group = groups[decisions.len() as int];
        let start = "skip ["@ + reason_name(reason) + "] group "@ + group.duplicate_id@;
        let text = skip_text(reason, group);
        assert(text.take(start.len() as int) =~= start);
    }
}

/// Where times are why a group was skipped, each member is told with its id and times.
#[verifier::spinoff_prover]
#[verifier::rlimit(60)]
pub proof fn law_times_are_told(assets: Seq<Asset>, a: Asset)
    ensures
        time_lines(SkipReason::MissingCaptureTime, assets.push(a)) == time_lines(
            SkipReason::MissingCaptureTime,
            assets,
        ) + ("  asset "@ + a.id@ + " times: "@ + times_text(a)),
        time_lines(SkipReason::TimeGapTooLarge, assets.push(a)) == time_lines(
            SkipReason::TimeGapTooLarge,
            assets,
        ) + ("  asset "@ + a.id@ + " path="@ + a.original_path@ + " "@ + times_text(a)),
{
    assert(assets.push(a).drop_last() =~= assets);
}

/// The three times of an asset are told under their names.
#[verifier::spinoff_prover]
#[verifier::rlimit(60)]
pub proof fn law_times_have_names(a: Asset)
    ensures
        a.exif_info is Some && a.exif_info->0.date_time_original is Some ==> holds(
            times_text(a),
            "dateTimeOriginal="@ + ("Some("@ + quoted_of(a.exif_info->0.date_time_original->0@)
                + ")"@),
        ),
        a.local_date_time matches Some(t) ==> holds(
            times_text(a),
            " localDateTime="@ + ("Some("@ + quoted_of(t@) + ")"@),
        ),
        a.file_created_at matches Some(t) ==> holds(
            times_text(a),
            " fileCreatedAt="@ + ("Some("@ + quoted_of(t@) + ")"@),
        ),
{
    let p0 = "dateTimeOriginal="@ + shown(original_time(a));
    let p1 = " localDateTime="@ + shown(opt_text(a.local_date_time));
    let p2 = " fileCreatedAt="@ + shown(opt_text(a.file_created_at));
    let q = Seq::<Seq<char>>::empty().push(p0).push(p1).push(p2).push("\n"@);
    lemma_four(p0, p1, p2, "\n"@);
    let text = times_text(a);
    let t1 = p0 + " localDateTime="@ + shown(opt_text(a.local_date_time));
    assert(t1 =~= p0 + p1);
    let t2 = t1 + " fileCreatedAt="@ + shown(opt_text(a.file_created_at));
    assert(t2 =~= p0 + p1 + p2);
    assert(text == t2 + "\n"@);
    assert(concat(q) == text);
    lemma_holds_piece(q, 0);
    lemma_holds_piece(q, 1);
    lemma_holds_piece(q, 2);
    assert(q[0] == p0 && q[1] == p1 && q[2] == p2);
}

#[verifier::spinoff_prover]
#[verifier::rlimit(60)]
proof fn lemma_four(a: Seq<char>, b: Seq<char>, c: Seq<char>, d: Seq<char>)
    ensures
        concat(Seq::<Seq<char>>::empty().push(a).push(b).push(c).push(d)) == a + b + c + d,
{
    let q0 = Seq::<Seq<char>>::empty();
    lemma_concat_push(q0, a);
    assert(concat(q0) + a =~= a);
    lemma_concat_push(q0.push(a), b);
    lemma_concat_push(q0.push(a).push(b), c);
    lemma_concat_push(q0.push(a).push(b).push(c), d);
}

/// Where the sizes do not decide, the model is shown the thumbnail of every member, in the
/// order of the members, and the winner is the member at the index that it names.
#[verifier::spinoff_prover]
#[verifier::rlimit(60)]
pub proof fn law_vision_sees_every_member<'a, C: CaptionBackend, V: MultiImageVisionLlm>(
    backend: &C,
    llm: &'a V,
    assets: Seq<Asset>,
    ratio: Ratio,
    plan: ActionPlan,
) -> (r: (Vec<(Vec<u8>, String)>, &'a str, &'a str, String))
    requires
        planned(backend, llm, assets, ratio, Ok(plan)),
        winner_by_size(assets, ratio) is None,
    ensures
        r.0@.len() == assets.len(),
        forall|i: int|
            0 <= i < assets.len() ==> thumbnail_reply(
                backend,
                assets[i].id@,
                Ok((#[trigger] r.0@[i]).0),
            ) && r.0@[i].1@ == "image/jpeg"@,
        call_ensures(V::pick_best, (llm, r.1, r.2, &r.0, 1024u32), Ok::<String, Error>(r.3)),
        holds(r.2@, decimal(assets.len())),
        json_of(unfenced(r.3@)) is Ok,
        picked(json_of(unfenced(r.3@))->Ok_0) is Some,
        (picked(json_of(unfenced(r.3@))->Ok_0)->Some_0).0 == plan.winner_idx,
        plan.winner_idx < assets.len(),
        follows(plan, assets, plan.winner_idx as int),
{
    let images = choose|images: Vec<(Vec<u8>, String)>| #[trigger]
        thumbnails_of(backend, assets, images@) && images.len() == assets.len() && exists|
            reply: Result<String, Error>,
        | #[trigger]
            vision_reply(llm, images, reply) && (reply matches Ok(raw) && (pick_in(
                raw@,
            ) matches Some(p) && p.0 < assets.len() && follows(plan, assets, p.0 as int)));
    let reply = choose|reply: Result<String, Error>| #[trigger]
        vision_reply(llm, images, reply) && (reply matches Ok(raw) && (pick_in(raw@) matches Some(p)
            && p.0 < assets.len() && follows(plan, assets, p.0 as int)));
    let raw = reply->Ok_0;
    let (system, user) = choose|system: &str, user: &str|
        system@ == PICK_SYSTEM_PROMPT@ && user@ == pick_prompt(images.len() as nat)
            && #[trigger] call_ensures(
            V::pick_best,
            (llm, system, user, &images, MAX_PICK_TOKENS),
            reply,
        );
    let n = assets.len();
    let head = PICK_USER_PROMPT_HEAD@ + "\n\n本组共 "@;
    let rest = " 张候选，索引 0 到 "@ + decimal(
        if n > 0 {
            (n - 1) as nat
        } else {
            0
        },
    ) + "。"@;
    lemma_holds(head, decimal(n), rest);
    assert(user@ =~= head + decimal(n) + rest);
    (images, system, user, raw)
}

/// A run that has begun has done the first two phases on the groups that they are for, and
/// lists the others up to the limit, with the ratio that was given.
#[verifier::spinoff_prover]
#[verifier::rlimit(60)]
pub proof fn law_beginning_does_the_first_phases<W: DedupWriteBackend>(
    write_be: &W,
    groups: Seq<DuplicateGroup>,
    decisions: Seq<GroupDecision>,
    args: DedupArgs,
    u: Underway,
) -> (r: (
    Seq<Seq<Result<(), Error>>>,
    Seq<DeleteOutcome>,
    Seq<Seq<char>>,
    Seq<Seq<Result<(), Error>>>,
    Seq<KeepOutcome>,
    Seq<Seq<char>>,
))
    requires
        begun(write_be, groups, decisions, args, u),
    ensures
        deletions(write_be, groups, doomed(decisions), args.apply, r.0, r.1, r.2),
        dismissals(write_be, groups, kept(decisions), args.apply, r.3, r.4, r.5),
        u.auto_delete.counts(r.1),
        u.keep_all.counts(r.4),
        u.skipped.counts(decisions),
        u.to_process@ == capped(considered(decisions), args.limit as nat),
        u.size_ratio.num == args.size_ratio.num as u64,
        u.size_ratio.den == args.size_ratio.den,
        u.log@ == (if args.verbose {
            skips_text(groups, decisions)
        } else {
            Seq::empty()
        }) + concat(r.2) + concat(r.5),
{
    choose|
        delete_replies: Seq<Seq<Result<(), Error>>>,
        delete_outcomes: Seq<DeleteOutcome>,
        delete_logs: Seq<Seq<char>>,
        keep_replies: Seq<Seq<Result<(), Error>>>,
        keep_outcomes: Seq<KeepOutcome>,
        keep_logs: Seq<Seq<char>>,
    | {
        &&& #[trigger] deletions(
            write_be,
            groups,
            doomed(decisions),
            args.apply,
            delete_replies,
            delete_outcomes,
            delete_logs,
        )
        &&& #[trigger] dismissals(
            write_be,
            groups,
            kept(decisions),
            args.apply,
            keep_replies,
            keep_outcomes,
            keep_logs,
        )
        &&& u.auto_delete.counts(delete_outcomes)
        &&& u.keep_all.counts(keep_outcomes)
        &&& u.log@ == (if args.verbose {
            skips_text(groups, decisions)
        } else {
            Seq::empty()
        }) + concat(delete_logs) + concat(keep_logs)
    }
}

/// Each listed group of copies is thinned out by its own plan: the answers are those to the
/// changes that its decision calls for, and what is counted and told follows from them.
#[verifier::spinoff_prover]
#[verifier::rlimit(60)]
pub proof fn law_deletions_follow_the_decisions<W: DedupWriteBackend>(
    write_be: &W,
    groups: Seq<DuplicateGroup>,
    list: Seq<(usize, usize, Option<(Degrees, Degrees)>)>,
    apply: bool,
    replies: Seq<Seq<Result<(), Error>>>,
    outcomes: Seq<DeleteOutcome>,
    logs: Seq<Seq<char>>,
    i: int,
)
    requires
        deletions(write_be, groups, list, apply, replies, outcomes, logs),
        0 <= i < list.len(),
    ensures
        outcomes.len() == list.len(),
        logs.len() == list.len(),
        ({
            let group = groups[list[i].0 as int];
            &&& write_replies(
                write_be,
                deletion_writes(group.assets@, list[i].1 as int, list[i].2, apply),
                replies[i],
            )
            &&& outcomes[i] == deletion_outcome(group.assets@.len(), apply, replies[i])
            &&& logs[i] == deletion_log(group, list[i].1 as int, list[i].2, apply, replies[i])
        }),
{
    assert(list[i] == list[i]);
}

/// What is logged of a group of copies: the heading, the coordinates, a line for each deleted
/// member, and the failures with their causes.
#[verifier::spinoff_prover]
#[verifier::rlimit(60)]
pub proof fn law_deletion_log_is_complete(
    group: DuplicateGroup,
    keeper: int,
    gps_backfill: Option<(Degrees, Degrees)>,
    apply: bool,
    replies: Seq<Result<(), Error>>,
    e: Error,
)
    requires
        group.assets@.len() > 1,
        0 <= keeper < group.assets@.len(),
        replies.len() > 0,
    ensures
        ({
            let log = deletion_log(group, keeper, gps_backfill, apply, replies);
            let prefix = if apply {
                "AUTO-DELETE"@
            } else {
                "DRY-RUN AUTO-DELETE"@
            };
            &&& deletion_heading(group, keeper, apply).is_prefix_of(log)
            &&& gps_backfill matches Some(g) ==> holds(
                log,
                gps_line(prefix, group.assets@[keeper].id@, g.0, g.1),
            )
            &&& holds(log, member_lines(prefix, group.assets@, keeper))
            &&& apply && replies.last() == Err::<(), Error>(e) ==> holds(
                log,
                "FAIL delete group "@ + group.duplicate_id@ + " — "@ + e.full_text() + "\n"@,
            )
        }),
{
    let log = deletion_log(group, keeper, gps_backfill, apply, replies);
    let h = deletion_heading(group, keeper, apply);
    let g = deletion_gps_line(group, keeper, gps_backfill, apply);
    let m = member_lines(deletion_prefix(apply), group.assets@, keeper);
    let f = deletion_failures(group, keeper, gps_backfill, apply, replies);
    assert(log.take(h.len() as int) =~= h);
    lemma_three(h, g, m, f);
    if apply && replies.last() == Err::<(), Error>(e) {
        let line = "FAIL delete group "@ + group.duplicate_id@ + " — "@ + e.full_text() + "\n"@;
        let head = if gps_backfill is Some {
            backfill_failure(group.assets@[keeper].id@, group.duplicate_id@, replies[0])
        } else {
            Seq::empty()
        };
        assert(f =~= head + line);
        lemma_holds(head, line, Seq::empty());
        lemma_holds_within(h + g + m, f, Seq::empty(), line);
    }
}

/// Every group that needs a winner, up to the limit, is worked on, and what is logged of it
/// stands in the log of the run.
#[verifier::spinoff_prover]
#[verifier::rlimit(60)]
pub proof fn law_run_works_on_its_groups<
    C: CaptionBackend,
    W: DedupWriteBackend,
    V: MultiImageVisionLlm,
>(
    caption_be: &C,
    write_be: &W,
    llm: &V,
    groups: Seq<DuplicateGroup>,
    decisions: Seq<GroupDecision>,
    args: DedupArgs,
    report: DedupReport,
    n: int,
) -> (r: (WorkOutcome, Seq<char>))
    requires
        run_comes_to(caption_be, write_be, llm, groups, decisions, args, report),
        0 <= n < capped(considered(decisions), args.limit as nat).len(),
    ensures
        worked(
            caption_be,
            llm,
            write_be,
            groups[capped(considered(decisions), args.limit as nat)[n] as int],
            args.ratio(),
            args.apply,
            r.0,
            r.1,
        ),
        holds(report.log@, r.1),
{
    let apply = args.apply;
    let todo = capped(considered(decisions), args.limit as nat);
    let (dr, dout, dl, kr, kout, kl, wout, wl) = choose|
        delete_replies: Seq<Seq<Result<(), Error>>>,
        delete_outcomes: Seq<DeleteOutcome>,
        delete_logs: Seq<Seq<char>>,
        keep_replies: Seq<Seq<Result<(), Error>>>,
        keep_outcomes: Seq<KeepOutcome>,
        keep_logs: Seq<Seq<char>>,
        work_outcomes: Seq<WorkOutcome>,
        work_logs: Seq<Seq<char>>,
    | {
        &&& #[trigger] deletions(
            write_be,
            groups,
            doomed(decisions),
            apply,
            delete_replies,
            delete_outcomes,
            delete_logs,
        )
        &&& #[trigger] dismissals(
            write_be,
            groups,
            kept(decisions),
            apply,
            keep_replies,
            keep_outcomes,
            keep_logs,
        )
        &&& #[trigger] all_worked(
            caption_be,
            llm,
            write_be,
            groups,
            todo,
            args.ratio(),
            apply,
            work_outcomes,
            work_logs,
        )
        &&& report.log@ == (if args.verbose {
            skips_text(groups, decisions)
        } else {
            Seq::empty()
        }) + concat(delete_logs) + concat(keep_logs) + concat(work_logs) + summary_text(
            report.counts,
            apply,
        )
    };
    let head = (if args.verbose {
        skips_text(groups, decisions)
    } else {
        Seq::empty()
    }) + concat(dl) + concat(kl);
    lemma_holds_piece(wl, n);
    lemma_holds_within(head, concat(wl), summary_text(report.counts, apply), wl[n]);
    assert(worked(
        caption_be,
        llm,
        write_be,
        groups[todo[n] as int],
        args.ratio(),
        apply,
        wout[n],
        wl[n],
    ));
    (wout[n], wl[n])
}

// ---- the functions themselves -----------------------------------------------

/// What classifying gives is the decision on the members of the group, with the capture time
/// of each, and a pick by size is the winner by size.
#[verifier::spinoff_prover]
#[verifier::rlimit(60)]
pub proof fn law_classifying_decides(
    group: &DuplicateGroup,
    stacked: &IdSet,
    gap: i64,
    far: &Vec<(usize, usize)>,
    r: GroupDecision,
    ratio: Ratio,
    k: Option<usize>,
)
    requires
        call_ensures(classify_group, (group, stacked, gap, far), r),
        call_ensures(pick_winner_by_size, (group, ratio), k),
    ensures
        r == decision(group.assets@, stacked@, gap as int, far@, capture_times(group.assets@)),
        k == winner_by_size(group.assets@, ratio),
{
}

/// What is read of an answer on images is the index and the reason in it, and an index that
/// names no image is refused.
#[verifier::spinoff_prover]
#[verifier::rlimit(60)]
pub proof fn law_answers_on_images(
    raw: &str,
    n: usize,
    r: Result<(usize, String), Error>,
    doc: JsonView,
    numeral: Seq<char>,
    k: u64,
    reason: Seq<char>,
)
    requires
        call_ensures(parse_pick_response, (raw, n), r),
        json_of(unfenced(raw@)) == Ok::<JsonView, Seq<char>>(doc),
        k <= usize::MAX,
        has_member(doc, "winner_index"@, JsonView::Number { text: numeral, unsigned: Some(k) }),
        has_member(doc, "reason"@, JsonView::Text(reason)),
    ensures
        k < n ==> r is Ok && (r->Ok_0).0 == k && (r->Ok_0).1@ == reason,
        k >= n ==> r is Err,
{
    law_pick_is_taken_at_its_word(doc, numeral, k, reason);
}

/// What is planned for a winner follows from it, and the report at the end holds the counts of
/// all phases and their logs in their order, the summary last.
#[verifier::spinoff_prover]
#[verifier::rlimit(60)]
pub proof fn law_plans_and_reports(
    group: &DuplicateGroup,
    winner: usize,
    reason: PickReason,
    plan: ActionPlan,
    underway: Underway,
    work: WorkCounts,
    log: &str,
    apply: bool,
    report: DedupReport,
)
    requires
        winner < group.assets.len(),
        call_ensures(plan_for_winner, (group, winner, reason), plan),
        call_ensures(finish, (underway, work, log, apply), report),
    ensures
        follows(plan, group.assets@, winner as int),
        plan.pick_reason == reason,
        report.counts.skipped == underway.skipped,
        report.counts.auto_delete == underway.auto_delete,
        report.counts.keep_all == underway.keep_all,
        report.counts.work == work,
        report.log@ == underway.log@ + log@ + summary_text(report.counts, apply),
{
}

/// A run comes to what is said of it: refused arguments are refused, and otherwise the phases
/// follow the decisions on the groups.
#[verifier::spinoff_prover]
#[verifier::rlimit(60)]
pub proof fn law_running_comes_to<C: CaptionBackend, W: DedupWriteBackend, V: MultiImageVisionLlm>(
    groups: &Vec<DuplicateGroup>,
    stacks: &Vec<Stack>,
    far: &Vec<Vec<(usize, usize)>>,
    caption_be: &C,
    write_be: &W,
    llm: &V,
    args: &DedupArgs,
    r: Result<DedupReport, Error>,
    u: Result<Underway, Error>,
)
    requires
        call_ensures(run_with::<C, W, V>, (groups, stacks, far, caption_be, write_be, llm, args), r),
        call_ensures(begin::<W>, (groups, stacks, far, write_be, args), u),
        args.refusal() is None,
    ensures
        ({
            let decisions = all_decisions(
                groups@,
                stacked_set(stacks@),
                args.max_time_gap_secs as int,
                far@,
            );
            &&& r is Ok && run_comes_to(
                caption_be,
                write_be,
                llm,
                groups@,
                decisions,
                *args,
                r->Ok_0,
            )
            &&& u is Ok && begun(write_be, groups@, decisions, *args, u->Ok_0)
        }),
{
}

/// What is logged of a group that is kept names the group and its members, all of them, and a
/// failure with its cause; a dry run says that it is one.
#[verifier::spinoff_prover]
#[verifier::rlimit(60)]
pub proof fn law_dismissal_log_is_complete(
    group: DuplicateGroup,
    apply: bool,
    replies: Seq<Result<(), Error>>,
    e: Error,
)
    requires
        replies.len() > 0,
    ensures
        ({
            let log = dismissal_log(group, apply, replies);
            let prefix = if apply {
                "KEEP-ALL"@
            } else {
                "DRY-RUN KEEP-ALL"@
            };
            &&& (prefix + " group "@ + group.duplicate_id@ + " ("@ + decimal(
                group.assets@.len(),
            )).is_prefix_of(log)
            &&& holds(log, member_lines(prefix, group.assets@, -1))
            &&& apply && replies[0] == Err::<(), Error>(e) ==> (("FAIL keep-all group "@
                + group.duplicate_id@ + " — "@ + e.full_text() + "\n"@)).is_suffix_of(log)
        }),
{
    let log = dismissal_log(group, apply, replies);
    let prefix = if apply {
        "KEEP-ALL"@
    } else {
        "DRY-RUN KEEP-ALL"@
    };
    let start = prefix + " group "@ + group.duplicate_id@ + " ("@ + decimal(group.assets@.len());
    let told = " assets) — capture-time spread > 6h, dismissing on server\n"@;
    let lines = member_lines(prefix, group.assets@, -1);
    let failure = if apply {
        failure_line("FAIL keep-all group "@, group.duplicate_id@, replies[0])
    } else {
        Seq::empty()
    };
    assert(log == start + told + lines + failure);
    assert(log.take(start.len() as int) =~= start);
    lemma_holds(start + told, lines, failure);
    if apply && replies[0] == Err::<(), Error>(e) {
        let line = "FAIL keep-all group "@ + group.duplicate_id@ + " — "@ + e.full_text() + "\n"@;
        assert(failure == line);
        assert(log.skip(log.len() - line.len()) =~= line);
    }
}

/// What is logged of a planned group ends in its failures: each set of coordinates that could
/// not be written, by its asset, and the stack that could not be made, with their causes.
#[verifier::spinoff_prover]
#[verifier::rlimit(60)]
pub proof fn law_stacking_log_tells_failures(
    group: DuplicateGroup,
    plan: ActionPlan,
    replies: Seq<Result<(), Error>>,
    e: Error,
)
    requires
        replies.len() == plan.gps_backfill@.len() + 1,
    ensures
        ({
            let log = stacking_log(group, plan, true, replies);
            &&& replies.last() == Err::<(), Error>(e) ==> ("FAIL create stack for group "@
                + group.duplicate_id@ + " — "@ + e.full_text() + "\n"@).is_suffix_of(log)
            &&& holds(
                log,
                backfill_failures(copy_views(plan.gps_backfill@), group.duplicate_id@, replies),
            )
            &&& stacking_log(group, plan, false, replies) == plan_log(group, plan, false)
        }),
{
    let log = stacking_log(group, plan, true, replies);
    let head = plan_log(group, plan, true);
    let middle = backfill_failures(copy_views(plan.gps_backfill@), group.duplicate_id@, replies);
    let tail = failure_line(
        "FAIL create stack for group "@,
        group.duplicate_id@,
        replies.last(),
    );
    lemma_sum_assoc(head, middle, tail);
    lemma_holds(head, middle, tail);
    if replies.last() == Err::<(), Error>(e) {
        let line = "FAIL create stack for group "@ + group.duplicate_id@ + " — "@ + e.full_text()
            + "\n"@;
        assert(tail == line);
        assert(log.skip(log.len() - line.len()) =~= line);
    }
    let dry = plan_log(group, plan, false);
    assert(dry + Seq::<char>::empty() =~= dry);
}

/// One more set of coordinates adds a line where it could not be written, with its asset, the
/// group and the cause, and nothing where it could.
#[verifier::spinoff_prover]
#[verifier::rlimit(60)]
pub proof fn law_failed_coordinates_are_told(
    copies: Seq<(Seq<char>, Degrees, Degrees)>,
    copy: (Seq<char>, Degrees, Degrees),
    group: Seq<char>,
    replies: Seq<Result<(), Error>>,
)
    requires
        replies.len() > copies.len(),
    ensures
        ({
            let before = backfill_failures(copies, group, replies);
            let after = backfill_failures(copies.push(copy), group, replies);
            match replies[copies.len() as int] {
                Ok(_) => after == before,
                Err(e) => after == before + ("FAIL backfill GPS for "@ + copy.0 + " (group "@ + group
                    + ") — "@ + e.full_text() + "\n"@),
            }
        }),
{
    assert(copies.push(copy).drop_last() =~= copies);
    let before = backfill_failures(copies, group, replies);
    assert(before + Seq::<char>::empty() =~= before);
}

/// A group whose image could not be fetched fails to be planned, and the failure names the
/// member.
#[verifier::spinoff_prover]
#[verifier::rlimit(60)]
pub proof fn law_missing_image_is_named<C: CaptionBackend, V: MultiImageVisionLlm>(
    backend: &C,
    llm: &V,
    assets: Seq<Asset>,
    ratio: Ratio,
    e: Error,
)
    requires
        planned(backend, llm, assets, ratio, Err(e)),
    ensures
        winner_by_size(assets, ratio) is None,
        e matches Error::During { what, cause } ==> what@ == "vision pick failed"@ || exists|i: int|
            0 <= i < assets.len() && what@ == "failed to fetch thumbnail for "@ + (
            #[trigger] assets[i]).id@,
{
    let images = choose|images: Vec<(Vec<u8>, String)>| #[trigger]
        thumbnails_of(backend, assets, images@) && {
            ||| {
                &&& images.len() < assets.len()
                &&& exists|c: Error|
                    #![trigger failed_during(e, "failed to fetch thumbnail for "@ + assets[images.len() as int].id@, c)]
                    failed_during(
                        e,
                        "failed to fetch thumbnail for "@ + assets[images.len() as int].id@,
                        c,
                    )
            }
            ||| {
                &&& images.len() == assets.len()
                &&& exists|reply: Result<String, Error>| #[trigger]
                    vision_reply(llm, images, reply) && match reply {
                        Err(c) => failed_during(e, "vision pick failed"@, c),
                        Ok(raw) => e is PickReplyNotJson || e is PickOutOfRange,
                    }
            }
        };
    if images.len() < assets.len() {
        let i = images.len() as int;
        assert(assets[i].id@ == assets[i].id@);
    }
}

// ---- what a run may ask for -------------------------------------------------

/// Leave for the planned changes is enough: deleting copies needs leave for the changes that
/// the listed groups call for and for nothing else, and so do dismissing groups and working on
/// one.
#[verifier::spinoff_prover]
#[verifier::rlimit(60)]
pub proof fn law_planned_changes_are_enough<
    C: CaptionBackend,
    V: MultiImageVisionLlm,
    W: DedupWriteBackend,
>(
    caption_be: &C,
    llm: &V,
    write_be: &W,
    groups: Seq<DuplicateGroup>,
    copies: Seq<(usize, usize, Option<(Degrees, Degrees)>)>,
    keeps: Seq<usize>,
    group: DuplicateGroup,
    ratio: Ratio,
    apply: bool,
)
    requires
        forall|i: int, k: int|
            #![trigger copies[i], deletion_writes(
                groups[copies[i].0 as int].assets@,
                copies[i].1 as int,
                copies[i].2,
                apply,
            )[k]]
            0 <= i < copies.len() && 0 <= k < deletion_writes(
                groups[copies[i].0 as int].assets@,
                copies[i].1 as int,
                copies[i].2,
                apply,
            ).len() ==> write_be.allows(
                deletion_writes(
                    groups[copies[i].0 as int].assets@,
                    copies[i].1 as int,
                    copies[i].2,
                    apply,
                )[k],
            ),
        forall|i: int|
            0 <= i < keeps.len() && apply ==> write_be.allows(
                WriteView::Dismiss(groups[(#[trigger] keeps[i]) as int].duplicate_id@),
            ),
        planning_allowed(caption_be, llm, group.assets@, ratio),
        forall|plan: ActionPlan, k: int|
            #![trigger planned(caption_be, llm, group.assets@, ratio, Ok(plan)), stacking_writes(plan, apply)[k]]
            planned(caption_be, llm, group.assets@, ratio, Ok(plan)) && 0 <= k < stacking_writes(
                plan,
                apply,
            ).len() ==> write_be.allows(stacking_writes(plan, apply)[k]),
    ensures
        deletions_allowed(write_be, groups, copies, apply),
        dismissals_allowed(write_be, groups, keeps, apply),
        work_allowed(caption_be, llm, write_be, group, ratio, apply),
{
    assert forall|i: int| 0 <= i < copies.len() implies all_allowed(
        write_be,
        deletion_writes(
            groups[(#[trigger] copies[i]).0 as int].assets@,
            copies[i].1 as int,
            copies[i].2,
            apply,
        ),
    ) by {}
    assert forall|i: int| 0 <= i < keeps.len() implies all_allowed(
        write_be,
        dismissal_writes(groups[(#[trigger] keeps[i]) as int], apply),
    ) by {
        let writes = dismissal_writes(groups[keeps[i] as int], apply);
        assert forall|k: int| 0 <= k < writes.len() implies write_be.allows(#[trigger] writes[k]) by {
            assert(k == 0);
        }
    }
}

} // verus!
