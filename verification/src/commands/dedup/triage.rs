//! Sorting the groups by what is to be done with them.
use crate::commands::dedup::classify::{
    capture_times, classify_group, decision, GroupDecision, SkipReason,
};
use crate::ids::IdSet;
use crate::models::{Asset, Degrees, DuplicateGroup, Stack};
use crate::text::{decimal, numeral, opt_text, quoted, quoted_of};
use vstd::prelude::*;
use vstd::string::*;

verus! {

// ---- assets in stacks -------------------------------------------------------

/// `id` is a member of one of the stacks, or its cover.
pub open spec fn in_a_stack(stacks: Seq<Stack>, id: Seq<char>) -> bool {
    exists|s: int| 0 <= s < stacks.len() && #[trigger] in_stack(stacks[s], id)
}

pub open spec fn in_stack(stack: Stack, id: Seq<char>) -> bool {
    ||| stack.primary_asset_id@ == id
    ||| exists|m: int| 0 <= m < stack.assets@.len() && (#[trigger] stack.assets@[m]).id@ == id
}

/// The ids of all assets that are in a stack.
pub fn stacked_ids(stacks: &Vec<Stack>) -> (r: IdSet)
    ensures
        forall|id: Seq<char>| #[trigger] r@.contains(id) == in_a_stack(stacks@, id),
{
    let mut out = IdSet::new();
    let mut s: usize = 0;
    while s < stacks.len()
        invariant
            s <= stacks.len(),
            forall|id: Seq<char>| #[trigger]
                out@.contains(id) == in_a_stack(stacks@.take(s as int), id),
        decreases stacks.len() - s,
    {
        let ghost before = out@;
        out.insert(stacks[s].primary_asset_id.as_str());
        let members = &stacks[s].assets;
        let mut m: usize = 0;
        while m < members.len()
            invariant
                s < stacks.len(),
                *members == stacks@[s as int].assets,
                m <= members.len(),
                forall|id: Seq<char>| #[trigger]
                    out@.contains(id) == (before.contains(id) || stacks@[s as int].primary_asset_id@
                        == id || exists|k: int| 0 <= k < m && (#[trigger] members@[k]).id@ == id),
            decreases members.len() - m,
        {
            let ghost prior = out@;
            out.insert(members[m].id.as_str());
            assert forall|id: Seq<char>| #[trigger] out@.contains(id) implies (before.contains(id)
                || stacks@[s as int].primary_asset_id@ == id || exists|k: int|
                0 <= k < m + 1 && (#[trigger] members@[k]).id@ == id) by {
                if !prior.contains(id) {
                    assert(members@[m as int].id@ == id);
                }
            }
            m += 1;
        }
        proof {
            let now = stacks@.take(s + 1);
            let past = stacks@.take(s as int);
            assert forall|id: Seq<char>| #[trigger] out@.contains(id) == in_a_stack(now, id) by {
                if out@.contains(id) {
                    if before.contains(id) {
                        let k = choose|k: int|
                            0 <= k < past.len() && #[trigger] in_stack(past[k], id);
                        assert(in_stack(now[k], id));
                    } else {
                        assert(in_stack(now[s as int], id));
                    }
                }
                if in_a_stack(now, id) {
                    let k = choose|k: int| 0 <= k < now.len() && #[trigger] in_stack(now[k], id);
                    if k < s {
                        assert(in_stack(past[k], id));
                        assert(in_a_stack(past, id));
                    }
                }
            }
        }
        s += 1;
    }
    assert(stacks@.take(s as int) =~= stacks@);
    out
}

// ---- sorting ----------------------------------------------------------------

/// The groups by what is to be done with them, by their index.
pub struct Triage {
    /// A winner is to be picked.
    pub to_process: Vec<usize>,
    /// Copies: the kept member, and the coordinates that it gets.
    pub to_auto_delete: Vec<(usize, usize, Option<(Degrees, Degrees)>)>,
    /// To be dismissed.
    pub to_keep_all: Vec<usize>,
    pub decisions: Vec<GroupDecision>,
}

pub open spec fn considered(decisions: Seq<GroupDecision>) -> Seq<usize>
    decreases decisions.len(),
{
    if decisions.len() == 0 {
        Seq::empty()
    } else if decisions.last() is Consider {
        considered(decisions.drop_last()).push((decisions.len() - 1) as usize)
    } else {
        considered(decisions.drop_last())
    }
}

pub open spec fn kept(decisions: Seq<GroupDecision>) -> Seq<usize>
    decreases decisions.len(),
{
    if decisions.len() == 0 {
        Seq::empty()
    } else if decisions.last() is KeepAll {
        kept(decisions.drop_last()).push((decisions.len() - 1) as usize)
    } else {
        kept(decisions.drop_last())
    }
}

pub open spec fn doomed(decisions: Seq<GroupDecision>) -> Seq<
    (usize, usize, Option<(Degrees, Degrees)>),
>
    decreases decisions.len(),
{
    if decisions.len() == 0 {
        Seq::empty()
    } else {
        match decisions.last() {
            GroupDecision::AutoDeleteDupes { keeper_idx, gps_backfill } => doomed(
                decisions.drop_last(),
            ).push(((decisions.len() - 1) as usize, keeper_idx, gps_backfill)),
            _ => doomed(decisions.drop_last()),
        }
    }
}

/// What the rules say of each group.
pub open spec fn all_decisions(
    groups: Seq<DuplicateGroup>,
    stacked: Set<Seq<char>>,
    max_time_gap_secs: int,
    far_apart: Seq<Vec<(usize, usize)>>,
) -> Seq<GroupDecision> {
    Seq::new(
        groups.len(),
        |i: int|
            decision(
                groups[i].assets@,
                stacked,
                max_time_gap_secs,
                far_apart[i]@,
                capture_times(groups[i].assets@),
            ),
    )
}

/// The first `limit` of the list; all of it where `limit` is 0.
pub open spec fn capped(list: Seq<usize>, limit: nat) -> Seq<usize> {
    if 0 < limit < list.len() {
        list.take(limit as int)
    } else {
        list
    }
}

/// Sorts the groups. At most `limit` of those that need a winner are kept; 0
/// means all of them.
pub fn triage(
    groups: &Vec<DuplicateGroup>,
    stacked: &IdSet,
    max_time_gap_secs: i64,
    far_apart: &Vec<Vec<(usize, usize)>>,
    limit: u32,
) -> (r: Triage)
    requires
        far_apart.len() == groups.len(),
    ensures
        r.decisions@ == all_decisions(
            groups@,
            stacked@,
            max_time_gap_secs as int,
            far_apart@,
        ),
        r.to_process@ == capped(considered(r.decisions@), limit as nat),
        r.to_auto_delete@ == doomed(r.decisions@),
        r.to_keep_all@ == kept(r.decisions@),
{
    let ghost all = all_decisions(groups@, stacked@, max_time_gap_secs as int, far_apart@);
    let mut out = Triage {
        to_process: Vec::new(),
        to_auto_delete: Vec::new(),
        to_keep_all: Vec::new(),
        decisions: Vec::new(),
    };
    let mut i: usize = 0;
    while i < groups.len()
        invariant
            far_apart.len() == groups.len(),
            i <= groups.len(),
            all == all_decisions(groups@, stacked@, max_time_gap_secs as int, far_apart@),
            out.decisions@ == all.take(i as int),
            out.to_process@ == considered(out.decisions@),
            out.to_auto_delete@ == doomed(out.decisions@),
            out.to_keep_all@ == kept(out.decisions@),
        decreases groups.len() - i,
    {
        let d = classify_group(&groups[i], stacked, max_time_gap_secs, &far_apart[i]);
        let ghost now = out.decisions@.push(d);
        assert(now.drop_last() =~= out.decisions@);
        match &d {
            GroupDecision::Skip(_) => {},
            GroupDecision::AutoDeleteDupes { keeper_idx, gps_backfill } => {
                let copy = match gps_backfill {
                    Some((lat, lng)) => Some((lat.clone(), lng.clone())),
                    None => None,
                };
                out.to_auto_delete.push((i, *keeper_idx, copy));
            },
            GroupDecision::KeepAll => out.to_keep_all.push(i),
            GroupDecision::Consider => out.to_process.push(i),
        }
        out.decisions.push(d);
        assert(all.take(i + 1) =~= all.take(i as int).push(all[i as int]));
        i += 1;
    }
    assert(all.take(i as int) =~= all);
    if limit > 0 && (limit as usize) < out.to_process.len() {
        out.to_process.truncate(limit as usize);
    }
    out
}

// ---- groups that are left alone ---------------------------------------------

pub open spec fn reason_name(reason: SkipReason) -> Seq<char> {
    match reason {
        SkipReason::AlreadyStacked => "AlreadyStacked"@,
        SkipReason::TooFewAssets => "TooFewAssets"@,
        SkipReason::ContainsVideo => "ContainsVideo"@,
        SkipReason::DifferentFolders => "DifferentFolders"@,
        SkipReason::TimeGapTooLarge => "TimeGapTooLarge"@,
        SkipReason::DistanceTooLarge => "DistanceTooLarge"@,
        SkipReason::MissingCaptureTime => "MissingCaptureTime"@,
    }
}

fn name_of(reason: SkipReason) -> (r: &'static str)
    ensures
        r@ == reason_name(reason),
{
    match reason {
        SkipReason::AlreadyStacked => "AlreadyStacked",
        SkipReason::TooFewAssets => "TooFewAssets",
        SkipReason::ContainsVideo => "ContainsVideo",
        SkipReason::DifferentFolders => "DifferentFolders",
        SkipReason::TimeGapTooLarge => "TimeGapTooLarge",
        SkipReason::DistanceTooLarge => "DistanceTooLarge",
        SkipReason::MissingCaptureTime => "MissingCaptureTime",
    }
}

/// `Some("...")` or `None`.
pub open spec fn shown(text: Option<Seq<char>>) -> Seq<char> {
    match text {
        Some(t) => "Some("@ + quoted_of(t) + ")"@,
        None => "None"@,
    }
}

fn show(text: &Option<String>) -> (r: String)
    ensures
        r@ == shown(opt_text(*text)),
{
    match text {
        Some(t) => {
            let mut out = "Some(".to_owned();
            out.append(quoted(t.as_str()).as_str());
            out.append(")");
            out
        },
        None => "None".to_owned(),
    }
}

pub open spec fn original_time(a: Asset) -> Option<Seq<char>> {
    match a.exif_info {
        Some(e) => opt_text(e.date_time_original),
        None => None,
    }
}

/// The three times of an asset, as they were given.
pub open spec fn times_text(a: Asset) -> Seq<char> {
    "dateTimeOriginal="@ + shown(original_time(a)) + " localDateTime="@ + shown(
        opt_text(a.local_date_time),
    ) + " fileCreatedAt="@ + shown(opt_text(a.file_created_at)) + "\n"@
}

fn write_times(a: &Asset) -> (r: String)
    ensures
        r@ == times_text(*a),
{
    let mut out = "dateTimeOriginal=".to_owned();
    let original = match &a.exif_info {
        Some(e) => show(&e.date_time_original),
        None => "None".to_owned(),
    };
    out.append(original.as_str());
    out.append(" localDateTime=");
    out.append(show(&a.local_date_time).as_str());
    out.append(" fileCreatedAt=");
    out.append(show(&a.file_created_at).as_str());
    out.append("\n");
    out
}

/// One line per asset on its times, where times are why the group was skipped.
pub open spec fn time_lines(reason: SkipReason, assets: Seq<Asset>) -> Seq<char>
    decreases assets.len(),
{
    if assets.len() == 0 {
        Seq::empty()
    } else {
        let a = assets.last();
        time_lines(reason, assets.drop_last()) + match reason {
            SkipReason::MissingCaptureTime => "  asset "@ + a.id@ + " times: "@ + times_text(a),
            SkipReason::TimeGapTooLarge => "  asset "@ + a.id@ + " path="@ + a.original_path@ + " "@
                + times_text(a),
            _ => Seq::empty(),
        }
    }
}

/// What is logged of a group that is skipped.
pub open spec fn skip_text(reason: SkipReason, group: DuplicateGroup) -> Seq<char> {
    "skip ["@ + reason_name(reason) + "] group "@ + group.duplicate_id@ + " ("@ + decimal(
        group.assets@.len(),
    ) + " assets)\n"@ + time_lines(reason, group.assets@)
}

pub fn log_skip(reason: SkipReason, group: &DuplicateGroup) -> (r: String)
    ensures
        r@ == skip_text(reason, *group),
{
    let mut out = "skip [".to_owned();
    out.append(name_of(reason));
    out.append("] group ");
    out.append(group.duplicate_id.as_str());
    out.append(" (");
    out.append(numeral(group.assets.len() as u128).as_str());
    out.append(" assets)\n");
    let assets = &group.assets;
    let mut lines = String::new();
    let mut i: usize = 0;
    assert(lines@ =~= time_lines(reason, assets@.take(0)));
    while i < assets.len()
        invariant
            i <= assets.len(),
            lines@ == time_lines(reason, assets@.take(i as int)),
        decreases assets.len() - i,
    {
        assert(assets@.take(i + 1).drop_last() =~= assets@.take(i as int));
        let a = &assets[i];
        let mut line = String::new();
        match reason {
            SkipReason::MissingCaptureTime => {
                line = "  asset ".to_owned();
                line.append(a.id.as_str());
                line.append(" times: ");
                line.append(write_times(a).as_str());
            },
            SkipReason::TimeGapTooLarge => {
                line = "  asset ".to_owned();
                line.append(a.id.as_str());
                line.append(" path=");
                line.append(a.original_path.as_str());
                line.append(" ");
                line.append(write_times(a).as_str());
            },
            _ => {
                assert(line@ =~= Seq::<char>::empty());
            },
        }
        lines.append(line.as_str());
        i += 1;
    }
    assert(assets@.take(i as int) =~= assets@);
    out.append(lines.as_str());
    out
}

/// What is logged of all groups that are skipped, in their order.
pub open spec fn skips_text(
    groups: Seq<DuplicateGroup>,
    decisions: Seq<GroupDecision>,
) -> Seq<char>
    decreases decisions.len(),
{
    if decisions.len() == 0 {
        Seq::empty()
    } else {
        let before = skips_text(groups, decisions.drop_last());
        match decisions.last() {
            GroupDecision::Skip(reason) => before + skip_text(
                reason,
                groups[decisions.len() - 1],
            ),
            _ => before,
        }
    }
}

pub fn log_skips(groups: &Vec<DuplicateGroup>, decisions: &Vec<GroupDecision>) -> (r: String)
    requires
        decisions.len() == groups.len(),
    ensures
        r@ == skips_text(groups@, decisions@),
{
    let mut out = String::new();
    let mut i: usize = 0;
    assert(out@ =~= skips_text(groups@, decisions@.take(0)));
    while i < decisions.len()
        invariant
            decisions.len() == groups.len(),
            i <= decisions.len(),
            out@ == skips_text(groups@, decisions@.take(i as int)),
        decreases decisions.len() - i,
    {
        assert(decisions@.take(i + 1).drop_last() =~= decisions@.take(i as int));
        if let GroupDecision::Skip(reason) = &decisions[i] {
            out.append(log_skip(*reason, &groups[i]).as_str());
        }
        i += 1;
    }
    assert(decisions@.take(i as int) =~= decisions@);
    out
}

} // verus!
