//! What each phase of `dedup` asks of the server for one group, what comes of
//! the answers, and the lines that are logged.
use crate::commands::dedup::classify::{asset_gps, gps};
use crate::commands::dedup::plan::{
    asset_ids, backfill, copy_views, follows, gps_source, lemma_copies, winner_first, ActionPlan,
    GpsCopy, PickReason,
};
use crate::client::WriteView;
use crate::commands::dedup::writes::{write_views, Write};
use crate::error::Error;
use crate::models::{Asset, Degrees, DuplicateGroup};
use crate::text::{decimal, numeral, texts};
use vstd::prelude::*;
use vstd::string::*;

verus! {

// ---- copies that are deleted ------------------------------------------------

/// What came of a group of copies.
#[derive(Debug, Clone, Copy, PartialEq, Eq, Structural)]
pub enum DeleteOutcome {
    /// There is nothing but the kept member.
    Nothing,
    /// Dry run: so many assets would go.
    WouldDelete(usize),
    Deleted(usize),
    Failed,
}

/// The ids of all members but the kept one.
pub open spec fn victims(assets: Seq<Asset>, keeper: int) -> Seq<Seq<char>> {
    asset_ids(assets).remove(keeper)
}

/// The changes for a group of copies: coordinates onto the kept member, where
/// they would be lost otherwise, and then the deletion of the others. A dry
/// run asks for nothing.
pub open spec fn deletion_writes(
    assets: Seq<Asset>,
    keeper: int,
    gps_backfill: Option<(Degrees, Degrees)>,
    apply: bool,
) -> Seq<WriteView> {
    if !apply || assets.len() <= 1 {
        Seq::empty()
    } else {
        match gps_backfill {
            Some(g) => seq![
                WriteView::SetLocation((assets[keeper].id@, g.0, g.1)),
                WriteView::Delete(victims(assets, keeper)),
            ],
            None => seq![WriteView::Delete(victims(assets, keeper))],
        }
    }
}

/// Where the members have distinct ids, the kept member is not deleted, all others
/// are, and nothing else is. Coordinates are written before anything is deleted,
/// and onto the kept member.
pub proof fn law_deletion_spares_the_keeper(
    assets: Seq<Asset>,
    keeper: int,
    gps_backfill: Option<(Degrees, Degrees)>,
)
    requires
        assets.len() > 1,
        0 <= keeper < assets.len(),
        asset_ids(assets).no_duplicates(),
    ensures
        ({
            let writes = deletion_writes(assets, keeper, gps_backfill, true);
            let ids = asset_ids(assets);
            &&& writes.len() == if gps_backfill is Some {
                2nat
            } else {
                1nat
            }
            &&& gps_backfill is Some ==> (writes[0] matches WriteView::SetLocation(c) && c.0
                == ids[keeper])
            &&& writes.last() is Delete
            &&& forall|id: Seq<char>| #[trigger]
                writes.last()->Delete_0.contains(id) <==> ids.contains(id) && id != ids[keeper]
        }),
{
    let ids = asset_ids(assets);
    let gone = victims(assets, keeper);
    assert forall|id: Seq<char>| #[trigger] gone.contains(id) <==> ids.contains(id) && id
        != ids[keeper] by {
        if gone.contains(id) {
            let k = choose|k: int| 0 <= k < gone.len() && gone[k] == id;
            let i = if k < keeper {
                k
            } else {
                k + 1
            };
            assert(ids[i] == id);
        }
        if ids.contains(id) && id != ids[keeper] {
            let i = choose|i: int| 0 <= i < ids.len() && ids[i] == id;
            let k = if i < keeper {
                i
            } else {
                i - 1
            };
            assert(gone[k] == id);
        }
    }
}

fn other_ids(assets: &Vec<Asset>, keeper: usize) -> (r: Vec<String>)
    requires
        keeper < assets.len(),
    ensures
        texts(r@) == victims(assets@, keeper as int),
{
    let ghost ids = asset_ids(assets@);
    let mut out: Vec<String> = Vec::new();
    let mut i: usize = 0;
    assert(texts(out@) =~= ids.take(0));
    while i < assets.len()
        invariant
            keeper < assets.len(),
            ids == asset_ids(assets@),
            i <= assets.len(),
            texts(out@) == if i <= keeper {
                ids.take(i as int)
            } else {
                ids.take(i as int).remove(keeper as int)
            },
        decreases assets.len() - i,
    {
        if i != keeper {
            let ghost before = out@;
            let id = assets[i].id.clone();
            let ghost s = id;
            out.push(id);
            assert(texts(out@) =~= texts(before).push(s@));
            if i < keeper {
                assert(ids.take(i + 1) =~= ids.take(i as int).push(s@));
            } else {
                assert(ids.take(i + 1).remove(keeper as int) =~= ids.take(i as int).remove(
                    keeper as int,
                ).push(s@));
            }
        } else {
            assert(ids.take(i + 1).remove(keeper as int) =~= ids.take(i as int));
        }
        i += 1;
    }
    assert(ids.take(i as int) =~= ids);
    out
}

pub fn plan_deletion(
    group: &DuplicateGroup,
    keeper_idx: usize,
    gps_backfill: &Option<(Degrees, Degrees)>,
    apply: bool,
) -> (r: Vec<Write>)
    requires
        keeper_idx < group.assets.len(),
    ensures
        write_views(r@) == deletion_writes(
            group.assets@,
            keeper_idx as int,
            *gps_backfill,
            apply,
        ),
{
    let mut out: Vec<Write> = Vec::new();
    if apply && group.assets.len() > 1 {
        if let Some((lat, lng)) = gps_backfill {
            out.push(
                Write::SetLocation(
                    GpsCopy {
                        asset_id: group.assets[keeper_idx].id.clone(),
                        latitude: lat.clone(),
                        longitude: lng.clone(),
                    },
                ),
            );
        }
        out.push(Write::Delete(other_ids(&group.assets, keeper_idx)));
    }
    assert(write_views(out@) =~= deletion_writes(
        group.assets@,
        keeper_idx as int,
        *gps_backfill,
        apply,
    ));
    out
}

pub open spec fn deletion_outcome(
    n: nat,
    apply: bool,
    replies: Seq<Result<(), Error>>,
) -> DeleteOutcome {
    if n <= 1 {
        DeleteOutcome::Nothing
    } else if !apply {
        DeleteOutcome::WouldDelete((n - 1) as usize)
    } else if replies.last() is Ok {
        DeleteOutcome::Deleted((n - 1) as usize)
    } else {
        DeleteOutcome::Failed
    }
}

pub open spec fn deletion_prefix(apply: bool) -> Seq<char> {
    if apply {
        "AUTO-DELETE"@
    } else {
        "DRY-RUN AUTO-DELETE"@
    }
}

/// `  PREFIX ID PATH`, for each member but the one at `except`.
pub open spec fn member_lines(prefix: Seq<char>, assets: Seq<Asset>, except: int) -> Seq<char>
    decreases assets.len(),
{
    if assets.len() == 0 {
        Seq::empty()
    } else {
        let before = member_lines(prefix, assets.drop_last(), except);
        if assets.len() - 1 == except {
            before
        } else {
            before + ("  "@ + prefix + " "@ + assets.last().id@ + " "@
                + assets.last().original_path@ + "\n"@)
        }
    }
}

fn write_member_lines(prefix: &str, assets: &Vec<Asset>, except: Option<usize>) -> (r: String)
    ensures
        r@ == member_lines(
            prefix@,
            assets@,
            match except {
                Some(k) => k as int,
                None => -1,
            },
        ),
{
    let ghost skip: int = match except {
        Some(k) => k as int,
        None => -1,
    };
    let mut out = String::new();
    let mut i: usize = 0;
    assert(assets@.take(0) =~= Seq::<Asset>::empty());
    assert(out@ =~= Seq::<char>::empty());
    while i < assets.len()
        invariant
            i <= assets.len(),
            skip == match except {
                Some(k) => k as int,
                None => -1,
            },
            out@ == member_lines(prefix@, assets@.take(i as int), skip),
        decreases assets.len() - i,
    {
        assert(assets@.take(i + 1).drop_last() =~= assets@.take(i as int));
        let skipped = match except {
            Some(k) => i == k,
            None => false,
        };
        if !skipped {
            let mut line = "  ".to_owned();
            line.append(prefix);
            line.append(" ");
            line.append(assets[i].id.as_str());
            line.append(" ");
            line.append(assets[i].original_path.as_str());
            line.append("\n");
            out.append(line.as_str());
        }
        i += 1;
    }
    assert(assets@.take(i as int) =~= assets@);
    out
}

/// `  PREFIX GPS ID → (LAT, LNG)`.
pub open spec fn gps_line(
    prefix: Seq<char>,
    id: Seq<char>,
    latitude: Degrees,
    longitude: Degrees,
) -> Seq<char> {
    "  "@ + prefix + " GPS "@ + id + " → ("@ + latitude.six_decimals@ + ", "@
        + longitude.six_decimals@ + ")\n"@
}

fn write_gps_line(prefix: &str, id: &str, latitude: &Degrees, longitude: &Degrees) -> (r: String)
    ensures
        r@ == gps_line(prefix@, id@, *latitude, *longitude),
{
    let mut line = "  ".to_owned();
    line.append(prefix);
    line.append(" GPS ");
    line.append(id);
    line.append(" → (");
    line.append(latitude.six_decimals.as_str());
    line.append(", ");
    line.append(longitude.six_decimals.as_str());
    line.append(")\n");
    line
}

/// `FAIL backfill GPS for ID (group G) — WHY`, where the change failed.
pub open spec fn backfill_failure(
    id: Seq<char>,
    group: Seq<char>,
    reply: Result<(), Error>,
) -> Seq<char> {
    match reply {
        Ok(_) => Seq::empty(),
        Err(e) => "FAIL backfill GPS for "@ + id + " (group "@ + group + ") — "@ + e.full_text()
            + "\n"@,
    }
}

fn write_backfill_failure(id: &str, group: &str, reply: &Result<(), Error>) -> (r: String)
    ensures
        r@ == backfill_failure(id@, group@, *reply),
{
    match reply {
        Ok(_) => {
            let out = String::new();
            assert(out@ =~= Seq::<char>::empty());
            out
        },
        Err(e) => {
            let mut line = "FAIL backfill GPS for ".to_owned();
            line.append(id);
            line.append(" (group ");
            line.append(group);
            line.append(") — ");
            line.append(e.full_message().as_str());
            line.append("\n");
            line
        },
    }
}

/// `HEAD G — WHY`, where the change failed.
pub open spec fn failure_line(
    head: Seq<char>,
    group: Seq<char>,
    reply: Result<(), Error>,
) -> Seq<char> {
    match reply {
        Ok(_) => Seq::empty(),
        Err(e) => head + group + " — "@ + e.full_text() + "\n"@,
    }
}

fn write_failure_line(head: &str, group: &str, reply: &Result<(), Error>) -> (r: String)
    ensures
        r@ == failure_line(head@, group@, *reply),
{
    match reply {
        Ok(_) => {
            let out = String::new();
            assert(out@ =~= Seq::<char>::empty());
            out
        },
        Err(e) => {
            let mut line = head.to_owned();
            line.append(group);
            line.append(" — ");
            line.append(e.full_message().as_str());
            line.append("\n");
            line
        },
    }
}

/// The first line on a group of copies.
pub open spec fn deletion_heading(group: DuplicateGroup, keeper: int, apply: bool) -> Seq<char> {
    deletion_prefix(apply) + " group "@ + group.duplicate_id@ + " ("@ + decimal(
        group.assets@.len(),
    ) + " assets) → keep "@ + group.assets@[keeper].id@ + " "@
        + group.assets@[keeper].original_path@ + " ["@ + (if gps(group.assets@[keeper]) is Some {
        "GPS"@
    } else {
        "no-GPS"@
    }) + "], delete "@ + decimal((group.assets@.len() - 1) as nat) + "\n"@
}

/// The line on the coordinates that the kept member gets.
pub open spec fn deletion_gps_line(
    group: DuplicateGroup,
    keeper: int,
    gps_backfill: Option<(Degrees, Degrees)>,
    apply: bool,
) -> Seq<char> {
    match gps_backfill {
        Some(g) => gps_line(deletion_prefix(apply), group.assets@[keeper].id@, g.0, g.1),
        None => Seq::empty(),
    }
}

/// The lines on the changes that failed.
pub open spec fn deletion_failures(
    group: DuplicateGroup,
    keeper: int,
    gps_backfill: Option<(Degrees, Degrees)>,
    apply: bool,
    replies: Seq<Result<(), Error>>,
) -> Seq<char> {
    if !apply {
        Seq::empty()
    } else {
        (if gps_backfill is Some {
            backfill_failure(group.assets@[keeper].id@, group.duplicate_id@, replies[0])
        } else {
            Seq::empty()
        }) + failure_line("FAIL delete group "@, group.duplicate_id@, replies.last())
    }
}

/// All that is logged of a group of copies.
pub open spec fn deletion_log(
    group: DuplicateGroup,
    keeper: int,
    gps_backfill: Option<(Degrees, Degrees)>,
    apply: bool,
    replies: Seq<Result<(), Error>>,
) -> Seq<char> {
    if group.assets@.len() <= 1 {
        Seq::empty()
    } else {
        deletion_heading(group, keeper, apply) + deletion_gps_line(
            group,
            keeper,
            gps_backfill,
            apply,
        ) + member_lines(deletion_prefix(apply), group.assets@, keeper) + deletion_failures(
            group,
            keeper,
            gps_backfill,
            apply,
            replies,
        )
    }
}

/// What comes of a group of copies when the server has answered.
pub fn report_deletion(
    group: &DuplicateGroup,
    keeper_idx: usize,
    gps_backfill: &Option<(Degrees, Degrees)>,
    apply: bool,
    replies: &Vec<Result<(), Error>>,
) -> (r: (DeleteOutcome, String))
    requires
        keeper_idx < group.assets.len(),
        replies.len() == deletion_writes(
            group.assets@,
            keeper_idx as int,
            *gps_backfill,
            apply,
        ).len(),
    ensures
        r.0 == deletion_outcome(group.assets@.len(), apply, replies@),
        r.1@ == deletion_log(*group, keeper_idx as int, *gps_backfill, apply, replies@),
{
    let n: usize = group.assets.len();
    if n <= 1 {
        let out = String::new();
        assert(out@ =~= Seq::<char>::empty());
        return (DeleteOutcome::Nothing, out);
    }
    let prefix = if apply {
        "AUTO-DELETE"
    } else {
        "DRY-RUN AUTO-DELETE"
    };
    let keeper = &group.assets[keeper_idx];
    let mut out = prefix.to_owned();
    out.append(" group ");
    out.append(group.duplicate_id.as_str());
    out.append(" (");
    out.append(numeral(n as u128).as_str());
    out.append(" assets) → keep ");
    out.append(keeper.id.as_str());
    out.append(" ");
    out.append(keeper.original_path.as_str());
    out.append(" [");
    out.append(
        if asset_gps(keeper).is_some() {
            "GPS"
        } else {
            "no-GPS"
        },
    );
    out.append("], delete ");
    out.append(numeral((n - 1) as u128).as_str());
    out.append("\n");
    assert(out@ == deletion_heading(*group, keeper_idx as int, apply));
    let located = match gps_backfill {
        Some((lat, lng)) => write_gps_line(prefix, keeper.id.as_str(), lat, lng),
        None => String::new(),
    };
    assert(located@ =~= deletion_gps_line(*group, keeper_idx as int, *gps_backfill, apply));
    out.append(located.as_str());
    out.append(write_member_lines(prefix, &group.assets, Some(keeper_idx)).as_str());
    if !apply {
        assert(out@ =~= deletion_log(
            *group,
            keeper_idx as int,
            *gps_backfill,
            apply,
            replies@,
        ));
        return (DeleteOutcome::WouldDelete(n - 1), out);
    }
    let last: usize = replies.len() - 1;
    let mut failures = if gps_backfill.is_some() {
        write_backfill_failure(keeper.id.as_str(), group.duplicate_id.as_str(), &replies[0])
    } else {
        String::new()
    };
    failures.append(
        write_failure_line(
            "FAIL delete group ",
            group.duplicate_id.as_str(),
            &replies[last],
        ).as_str(),
    );
    assert(failures@ =~= deletion_failures(
        *group,
        keeper_idx as int,
        *gps_backfill,
        apply,
        replies@,
    ));
    out.append(failures.as_str());
    let outcome = if replies[last].is_ok() {
        DeleteOutcome::Deleted(n - 1)
    } else {
        DeleteOutcome::Failed
    };
    (outcome, out)
}

// ---- groups that are dismissed ----------------------------------------------

/// What came of a group that is kept as it is.
#[derive(Debug, Clone, Copy, PartialEq, Eq, Structural)]
pub enum KeepOutcome {
    /// Dry run: the group of so many assets would be dismissed.
    WouldKeep(usize),
    Kept(usize),
    Failed,
}

/// The changes for a group that is kept: it is dismissed on the server. A dry
/// run asks for nothing.
pub open spec fn dismissal_writes(group: DuplicateGroup, apply: bool) -> Seq<WriteView> {
    if apply {
        seq![WriteView::Dismiss(group.duplicate_id@)]
    } else {
        Seq::empty()
    }
}

pub fn plan_dismissal(group: &DuplicateGroup, apply: bool) -> (r: Vec<Write>)
    ensures
        write_views(r@) == dismissal_writes(*group, apply),
{
    let mut out: Vec<Write> = Vec::new();
    if apply {
        out.push(Write::Dismiss(group.duplicate_id.clone()));
    }
    assert(write_views(out@) =~= dismissal_writes(*group, apply));
    out
}

pub open spec fn dismissal_outcome(
    n: nat,
    apply: bool,
    replies: Seq<Result<(), Error>>,
) -> KeepOutcome {
    if !apply {
        KeepOutcome::WouldKeep(n as usize)
    } else if replies[0] is Ok {
        KeepOutcome::Kept(n as usize)
    } else {
        KeepOutcome::Failed
    }
}

pub open spec fn dismissal_prefix(apply: bool) -> Seq<char> {
    if apply {
        "KEEP-ALL"@
    } else {
        "DRY-RUN KEEP-ALL"@
    }
}

/// All that is logged of a group that is kept.
pub open spec fn dismissal_log(
    group: DuplicateGroup,
    apply: bool,
    replies: Seq<Result<(), Error>>,
) -> Seq<char> {
    dismissal_prefix(apply) + " group "@ + group.duplicate_id@ + " ("@ + decimal(
        group.assets@.len(),
    ) + " assets) — capture-time spread > 6h, dismissing on server\n"@ + member_lines(
        dismissal_prefix(apply),
        group.assets@,
        -1,
    ) + (if apply {
        failure_line("FAIL keep-all group "@, group.duplicate_id@, replies[0])
    } else {
        Seq::empty()
    })
}

/// What comes of a group that is kept when the server has answered.
pub fn report_dismissal(
    group: &DuplicateGroup,
    apply: bool,
    replies: &Vec<Result<(), Error>>,
) -> (r: (KeepOutcome, String))
    requires
        replies.len() == dismissal_writes(*group, apply).len(),
    ensures
        r.0 == dismissal_outcome(group.assets@.len(), apply, replies@),
        r.1@ == dismissal_log(*group, apply, replies@),
{
    let n: usize = group.assets.len();
    let prefix = if apply {
        "KEEP-ALL"
    } else {
        "DRY-RUN KEEP-ALL"
    };
    let mut out = prefix.to_owned();
    out.append(" group ");
    out.append(group.duplicate_id.as_str());
    out.append(" (");
    out.append(numeral(n as u128).as_str());
    out.append(" assets) — capture-time spread > 6h, dismissing on server\n");
    out.append(write_member_lines(prefix, &group.assets, None).as_str());
    if !apply {
        assert(out@ =~= dismissal_log(*group, apply, replies@));
        return (KeepOutcome::WouldKeep(n), out);
    }
    out.append(
        write_failure_line(
            "FAIL keep-all group ",
            group.duplicate_id.as_str(),
            &replies[0],
        ).as_str(),
    );
    let outcome = if replies[0].is_ok() {
        KeepOutcome::Kept(n)
    } else {
        KeepOutcome::Failed
    };
    (outcome, out)
}

// ---- groups that are stacked ------------------------------------------------

/// What came of a group that a winner was to be picked for.
#[derive(Debug, Clone, Copy, PartialEq, Eq, Structural)]
pub enum WorkOutcome {
    PlanFailed,
    /// Dry run.
    WouldApply,
    Applied,
    /// The stack was made, but not all coordinates could be written.
    AppliedWithWarnings,
    ApplyFailed,
}

/// The changes for a planned group: the coordinates, then the stack. A dry run
/// asks for nothing.
pub open spec fn stacking_writes(plan: ActionPlan, apply: bool) -> Seq<WriteView> {
    if apply {
        copy_views(plan.gps_backfill@).map_values(
            |c: (Seq<char>, Degrees, Degrees)| WriteView::SetLocation(c),
        ).push(WriteView::Stack(texts(plan.stack_order@)))
    } else {
        Seq::empty()
    }
}

/// The assets that a change touches.
pub open spec fn touched(w: WriteView) -> Seq<Seq<char>> {
    match w {
        WriteView::SetLocation(c) => seq![c.0],
        WriteView::Delete(ids) => ids,
        WriteView::Dismiss(_) => Seq::empty(),
        WriteView::Stack(ids) => ids,
    }
}

/// Stacking touches members of the group only, deletes nothing, and makes the
/// stack last.
pub proof fn law_stacking_stays_within_the_group(
    plan: ActionPlan,
    assets: Seq<Asset>,
    winner: int,
    k: int,
)
    requires
        0 <= winner < assets.len(),
        follows(plan, assets, winner),
        0 <= k < stacking_writes(plan, true).len(),
    ensures
        stacking_writes(plan, true)[k] is SetLocation || (k == stacking_writes(plan, true).len() - 1
            && stacking_writes(plan, true)[k] is Stack),
        forall|id: Seq<char>| #[trigger]
            touched(stacking_writes(plan, true)[k]).contains(id) ==> asset_ids(assets).contains(id),
{
    let writes = stacking_writes(plan, true);
    let ids = asset_ids(assets);
    let copies = backfill(assets, winner);
    if k < copies.len() {
        assert(writes[k] == WriteView::SetLocation(copies[k]));
        lemma_copies(assets, gps_source(assets, winner)->0);
        let j = choose|j: int|
            0 <= j < assets.len() && gps(#[trigger] assets[j]) is None && copies[k] == (
                assets[j].id@,
                gps_source(assets, winner)->Some_0.0,
                gps_source(assets, winner)->Some_0.1,
            );
        assert(ids[j] == copies[k].0);
        assert forall|id: Seq<char>| #[trigger] touched(writes[k]).contains(id) implies ids.contains(
            id,
        ) by {
            assert(id == copies[k].0);
        }
    } else {
        let order = winner_first(ids, winner);
        assert(writes[k] == WriteView::Stack(order));
        assert forall|id: Seq<char>| #[trigger] touched(writes[k]).contains(id) implies ids.contains(
            id,
        ) by {
            let n = choose|n: int| 0 <= n < order.len() && order[n] == id;
            let i = if n == 0 {
                winner
            } else if n <= winner {
                n - 1
            } else {
                n
            };
            assert(ids[i] == id);
        }
    }
}

pub fn plan_stacking(plan: &ActionPlan, apply: bool) -> (r: Vec<Write>)
    ensures
        write_views(r@) == stacking_writes(*plan, apply),
{
    let mut out: Vec<Write> = Vec::new();
    if !apply {
        assert(write_views(out@) =~= stacking_writes(*plan, apply));
        return out;
    }
    let ghost wanted = copy_views(plan.gps_backfill@).map_values(
        |c: (Seq<char>, Degrees, Degrees)| WriteView::SetLocation(c),
    );
    let mut i: usize = 0;
    assert(write_views(out@) =~= wanted.take(0));
    while i < plan.gps_backfill.len()
        invariant
            i <= plan.gps_backfill.len(),
            wanted == copy_views(plan.gps_backfill@).map_values(
                |c: (Seq<char>, Degrees, Degrees)| WriteView::SetLocation(c),
            ),
            write_views(out@) == wanted.take(i as int),
        decreases plan.gps_backfill.len() - i,
    {
        let c = &plan.gps_backfill[i];
        let copy = GpsCopy {
            asset_id: c.asset_id.clone(),
            latitude: c.latitude.clone(),
            longitude: c.longitude.clone(),
        };
        let ghost before = out@;
        let ghost w = Write::SetLocation(copy);
        out.push(Write::SetLocation(copy));
        assert(w@ == wanted[i as int]);
        assert(write_views(out@) =~= write_views(before).push(w@));
        assert(wanted.take(i + 1) =~= wanted.take(i as int).push(wanted[i as int]));
        i += 1;
    }
    assert(wanted.take(i as int) =~= wanted);
    let order = copy_strings(&plan.stack_order);
    let ghost before = out@;
    let ghost w = Write::Stack(order);
    out.push(Write::Stack(order));
    assert(write_views(out@) =~= write_views(before).push(w@));
    out
}

pub fn copy_strings(list: &Vec<String>) -> (r: Vec<String>)
    ensures
        r@ == list@,
{
    let mut out: Vec<String> = Vec::new();
    let mut i: usize = 0;
    while i < list.len()
        invariant
            i <= list.len(),
            out@ == list@.take(i as int),
        decreases list.len() - i,
    {
        out.push(list[i].clone());
        i += 1;
    }
    out
}

/// One of the first `n` answers is a failure.
pub open spec fn any_failed(replies: Seq<Result<(), Error>>, n: int) -> bool {
    exists|i: int| 0 <= i < n && (#[trigger] replies[i]) is Err
}

pub open spec fn stacking_outcome(apply: bool, replies: Seq<Result<(), Error>>) -> WorkOutcome {
    if !apply {
        WorkOutcome::WouldApply
    } else if replies.last() is Err {
        WorkOutcome::ApplyFailed
    } else if any_failed(replies, replies.len() - 1) {
        WorkOutcome::AppliedWithWarnings
    } else {
        WorkOutcome::Applied
    }
}

/// `(largest - smallest) / largest` in percent, rounded to the nearest integer
/// and halves to the even one.
pub open spec fn gap_percent(smallest: nat, largest: nat) -> nat {
    if largest == 0 || smallest > largest {
        0
    } else {
        let part = (100 * (largest - smallest)) as nat;
        let whole = part / largest;
        let rest = part % largest;
        if 2 * rest > largest || (2 * rest == largest && whole % 2 == 1) {
            whole + 1
        } else {
            whole
        }
    }
}

fn percent_of_gap(smallest: u64, largest: u64) -> (r: u128)
    ensures
        r == gap_percent(smallest as nat, largest as nat),
{
    if largest == 0 || smallest > largest {
        return 0;
    }
    let part: u128 = 100 * (largest - smallest) as u128;
    let whole: u128 = part / largest as u128;
    let rest: u128 = part % largest as u128;
    if 2 * rest > largest as u128 || (2 * rest == largest as u128 && whole % 2 == 1) {
        assert(whole <= part) by (nonlinear_arith)
            requires
                whole == part / (largest as u128),
                largest > 0,
        ;
        whole + 1
    } else {
        whole
    }
}

pub open spec fn reason_text(reason: PickReason) -> Seq<char> {
    match reason {
        PickReason::LargerFile { smallest, largest } => "size (largest, "@ + decimal(
            gap_percent(smallest as nat, largest as nat),
        ) + "% gap)"@,
        PickReason::VisionModel { rationale } => "vision: "@ + rationale@,
    }
}

fn write_reason(reason: &PickReason) -> (r: String)
    ensures
        r@ == reason_text(*reason),
{
    match reason {
        PickReason::LargerFile { smallest, largest } => {
            let mut out = "size (largest, ".to_owned();
            out.append(numeral(percent_of_gap(*smallest, *largest)).as_str());
            out.append("% gap)");
            out
        },
        PickReason::VisionModel { rationale } => {
            let mut out = "vision: ".to_owned();
            out.append(rationale.as_str());
            out
        },
    }
}

pub open spec fn plan_prefix(apply: bool) -> Seq<char> {
    if apply {
        "PLAN"@
    } else {
        "DRY-RUN"@
    }
}

/// One line for each set of coordinates that is copied.
pub open spec fn copy_lines(
    prefix: Seq<char>,
    copies: Seq<(Seq<char>, Degrees, Degrees)>,
) -> Seq<char>
    decreases copies.len(),
{
    if copies.len() == 0 {
        Seq::empty()
    } else {
        copy_lines(prefix, copies.drop_last()) + gps_line(
            prefix,
            copies.last().0,
            copies.last().1,
            copies.last().2,
        )
    }
}

/// What is logged of a plan before it is carried out.
pub open spec fn plan_log(group: DuplicateGroup, plan: ActionPlan, apply: bool) -> Seq<char> {
    plan_prefix(apply) + " stack group "@ + group.duplicate_id@ + " ("@ + decimal(
        group.assets@.len(),
    ) + " assets) → winner "@ + group.assets@[plan.winner_idx as int].id@ + " "@
        + group.assets@[plan.winner_idx as int].original_path@ + " ["@ + reason_text(
        plan.pick_reason,
    ) + "]\n"@ + copy_lines(plan_prefix(apply), copy_views(plan.gps_backfill@))
}

pub fn log_plan(group: &DuplicateGroup, plan: &ActionPlan, apply: bool) -> (r: String)
    requires
        plan.winner_idx < group.assets.len(),
    ensures
        r@ == plan_log(*group, *plan, apply),
{
    let prefix = if apply {
        "PLAN"
    } else {
        "DRY-RUN"
    };
    let winner = &group.assets[plan.winner_idx];
    let mut out = prefix.to_owned();
    out.append(" stack group ");
    out.append(group.duplicate_id.as_str());
    out.append(" (");
    out.append(numeral(group.assets.len() as u128).as_str());
    out.append(" assets) → winner ");
    out.append(winner.id.as_str());
    out.append(" ");
    out.append(winner.original_path.as_str());
    out.append(" [");
    out.append(write_reason(&plan.pick_reason).as_str());
    out.append("]\n");
    let mut lines = String::new();
    let ghost copies = copy_views(plan.gps_backfill@);
    let mut i: usize = 0;
    assert(lines@ =~= copy_lines(prefix@, copies.take(0)));
    while i < plan.gps_backfill.len()
        invariant
            i <= plan.gps_backfill.len(),
            copies == copy_views(plan.gps_backfill@),
            lines@ == copy_lines(prefix@, copies.take(i as int)),
        decreases plan.gps_backfill.len() - i,
    {
        assert(copies.take(i + 1).drop_last() =~= copies.take(i as int));
        let c = &plan.gps_backfill[i];
        lines.append(
            write_gps_line(prefix, c.asset_id.as_str(), &c.latitude, &c.longitude).as_str(),
        );
        i += 1;
    }
    assert(copies.take(i as int) =~= copies);
    out.append(lines.as_str());
    out
}

/// The lines on the coordinates that could not be written.
pub open spec fn backfill_failures(
    copies: Seq<(Seq<char>, Degrees, Degrees)>,
    group: Seq<char>,
    replies: Seq<Result<(), Error>>,
) -> Seq<char>
    decreases copies.len(),
{
    if copies.len() == 0 {
        Seq::empty()
    } else {
        backfill_failures(copies.drop_last(), group, replies) + backfill_failure(
            copies.last().0,
            group,
            replies[copies.len() - 1],
        )
    }
}

/// What is logged of a planned group in all.
pub open spec fn stacking_log(
    group: DuplicateGroup,
    plan: ActionPlan,
    apply: bool,
    replies: Seq<Result<(), Error>>,
) -> Seq<char> {
    plan_log(group, plan, apply) + (if apply {
        backfill_failures(copy_views(plan.gps_backfill@), group.duplicate_id@, replies)
            + failure_line(
            "FAIL create stack for group "@,
            group.duplicate_id@,
            replies.last(),
        )
    } else {
        Seq::empty()
    })
}

/// What comes of a planned group when the server has answered.
pub fn report_stacking(
    group: &DuplicateGroup,
    plan: &ActionPlan,
    apply: bool,
    replies: &Vec<Result<(), Error>>,
) -> (r: (WorkOutcome, String))
    requires
        plan.winner_idx < group.assets.len(),
        replies.len() == stacking_writes(*plan, apply).len(),
    ensures
        r.0 == stacking_outcome(apply, replies@),
        r.1@ == stacking_log(*group, *plan, apply, replies@),
{
    let mut out = log_plan(group, plan, apply);
    if !apply {
        assert(out@ =~= stacking_log(*group, *plan, apply, replies@));
        return (WorkOutcome::WouldApply, out);
    }
    let n: usize = plan.gps_backfill.len();
    let ghost copies = copy_views(plan.gps_backfill@);
    let mut failed = false;
    let mut failures = String::new();
    let mut i: usize = 0;
    assert(failures@ =~= backfill_failures(copies.take(0), group.duplicate_id@, replies@));
    while i < n
        invariant
            n == plan.gps_backfill.len(),
            replies.len() == n + 1,
            i <= n,
            copies == copy_views(plan.gps_backfill@),
            failed == any_failed(replies@, i as int),
            failures@ == backfill_failures(
                copies.take(i as int),
                group.duplicate_id@,
                replies@,
            ),
        decreases n - i,
    {
        assert(copies.take(i + 1).drop_last() =~= copies.take(i as int));
        failures.append(
            write_backfill_failure(
                plan.gps_backfill[i].asset_id.as_str(),
                group.duplicate_id.as_str(),
                &replies[i],
            ).as_str(),
        );
        if replies[i].is_err() {
            assert(replies@[i as int] is Err);
            failed = true;
        }
        i += 1;
    }
    assert(copies.take(n as int) =~= copies);
    failures.append(
        write_failure_line(
            "FAIL create stack for group ",
            group.duplicate_id.as_str(),
            &replies[n],
        ).as_str(),
    );
    out.append(failures.as_str());
    let outcome = if replies[n].is_err() {
        WorkOutcome::ApplyFailed
    } else if failed {
        WorkOutcome::AppliedWithWarnings
    } else {
        WorkOutcome::Applied
    };
    (outcome, out)
}

} // verus!
