//! Which duplicate groups to leave alone, to thin out, to dismiss or to stack.
use crate::models::{Asset, Degrees, DuplicateGroup};
use crate::moments::{capture_seconds, parse_capture_seconds};
use crate::text::{
    before_last, equal_ignoring_case, from_last, law_case_is_ignored, law_split_at_the_last, lowered,
    same, same_ignoring_case, up_to_last,
};
use crate::ids::IdSet;
use vstd::prelude::*;

verus! {

/// Hard upper bound, in seconds, on the spread of capture times in a group.
/// Beyond it every member is kept, whatever the other rules say.
pub const HARD_MAX_TIME_SPREAD_SECS: i64 = 21600;

/// A fraction `num / den`.
#[derive(Debug, Clone, Copy, PartialEq, Eq)]
pub struct Ratio {
    pub num: u64,
    pub den: u64,
}

/// How far sizes may differ for copies to count as the same file: 0.1%.
pub open spec fn auto_delete_max_size_gap() -> Ratio {
    Ratio { num: 1, den: 1000 }
}

/// Why a group was left alone.
#[derive(Debug, Clone, Copy, PartialEq, Eq, Structural)]
pub enum SkipReason {
    AlreadyStacked,
    TooFewAssets,
    ContainsVideo,
    DifferentFolders,
    TimeGapTooLarge,
    DistanceTooLarge,
    MissingCaptureTime,
}

/// What to do with a group.
#[derive(Debug, Clone, PartialEq, Eq)]
pub enum GroupDecision {
    Skip(SkipReason),
    /// Copies of one file in several folders: keep one member, delete the
    /// others. Where the kept one has no coordinates and another has some,
    /// those are written onto it first.
    AutoDeleteDupes { keeper_idx: usize, gps_backfill: Option<(Degrees, Degrees)> },
    /// The capture times lie too far apart for one event: touch no asset, and
    /// dismiss the group on the server.
    KeepAll,
    /// A winner is still to be picked.
    Consider,
}

// ---- what the rules look at -------------------------------------------------

/// The coordinates of an asset, where it has both.
pub open spec fn gps(a: Asset) -> Option<(Degrees, Degrees)> {
    match a.exif_info {
        Some(e) => match (e.latitude, e.longitude) {
            (Some(lat), Some(lng)) => Some((lat, lng)),
            _ => None,
        },
        None => None,
    }
}

/// The file size of an asset in bytes.
pub open spec fn byte_size(a: Asset) -> Option<u64> {
    match a.exif_info {
        Some(e) => e.file_size_in_byte,
        None => None,
    }
}

pub open spec fn is_video(a: Asset) -> bool {
    same_ignoring_case(a.asset_type@, "VIDEO"@)
}

/// The folder of a path: everything before the last slash.
pub open spec fn folder(path: Seq<char>) -> Seq<char> {
    up_to_last(path, '/')
}

pub open spec fn seconds_in(text: Option<String>) -> Option<i64> {
    match text {
        Some(s) => capture_seconds(s@),
        None => None,
    }
}

/// When an asset was captured: the first of its three times that can be read.
pub open spec fn capture_time(a: Asset) -> Option<i64> {
    let original = match a.exif_info {
        Some(e) => seconds_in(e.date_time_original),
        None => None,
    };
    if original is Some {
        original
    } else if seconds_in(a.local_date_time) is Some {
        seconds_in(a.local_date_time)
    } else {
        seconds_in(a.file_created_at)
    }
}

pub open spec fn capture_times(assets: Seq<Asset>) -> Seq<Option<i64>> {
    assets.map_values(|a: Asset| capture_time(a))
}

pub open spec fn all_known(times: Seq<Option<i64>>) -> bool {
    forall|i: int| 0 <= i < times.len() ==> #[trigger] times[i] is Some
}

/// Two of the times lie more than `gap` seconds apart.
pub open spec fn spread_exceeds(times: Seq<Option<i64>>, gap: int) -> bool {
    exists|i: int, j: int|
        0 <= i < times.len() && 0 <= j < times.len() && (#[trigger] times[i])->0 - (
        #[trigger] times[j])->0 > gap
}

pub open spec fn one_folder(assets: Seq<Asset>) -> bool {
    forall|i: int, j: int|
        0 <= i < assets.len() && 0 <= j < assets.len() ==> folder(
            (#[trigger] assets[i]).original_path@,
        ) == folder((#[trigger] assets[j]).original_path@)
}

pub open spec fn one_name(assets: Seq<Asset>) -> bool {
    forall|i: int, j: int|
        0 <= i < assets.len() && 0 <= j < assets.len() ==> (
        #[trigger] assets[i]).original_file_name@ == (#[trigger] assets[j]).original_file_name@
}

pub open spec fn all_sized(assets: Seq<Asset>) -> bool {
    forall|i: int| 0 <= i < assets.len() ==> byte_size(#[trigger] assets[i]) is Some
}

/// The sizes of assets that all have one.
pub open spec fn byte_sizes(assets: Seq<Asset>) -> Seq<u64> {
    assets.map_values(|a: Asset| byte_size(a)->0)
}

pub open spec fn largest(sizes: Seq<u64>) -> u64
    decreases sizes.len(),
{
    if sizes.len() == 0 {
        0
    } else if sizes.len() == 1 || largest(sizes.drop_last()) <= sizes.last() {
        sizes.last()
    } else {
        largest(sizes.drop_last())
    }
}

pub open spec fn smallest(sizes: Seq<u64>) -> u64
    decreases sizes.len(),
{
    if sizes.len() == 0 {
        0
    } else if sizes.len() == 1 || sizes.last() <= smallest(sizes.drop_last()) {
        sizes.last()
    } else {
        smallest(sizes.drop_last())
    }
}

/// `(largest - smallest) / largest <= max_gap`, which holds of no sizes and of
/// sizes that are all zero.
pub open spec fn within_tolerance(sizes: Seq<u64>, max_gap: Ratio) -> bool {
    (largest(sizes) - smallest(sizes)) * max_gap.den <= max_gap.num * largest(sizes)
}

/// Files of one name and one capture time in more than one folder, all of a
/// known size.
pub open spec fn cross_folder_copies(assets: Seq<Asset>, times: Seq<Option<i64>>) -> bool {
    &&& !one_folder(assets)
    &&& one_name(assets)
    &&& all_known(times)
    &&& !spread_exceeds(times, 0)
    &&& all_sized(assets)
}

/// `k` is the first index at which a largest size stands.
pub open spec fn is_first_largest(sizes: Seq<u64>, k: int) -> bool {
    &&& 0 <= k < sizes.len()
    &&& sizes[k] == largest(sizes)
    &&& forall|j: int| 0 <= j < k ==> #[trigger] sizes[j] != largest(sizes)
}

/// `k` is the first index at which coordinates stand.
pub open spec fn is_first_located(assets: Seq<Asset>, k: int) -> bool {
    &&& 0 <= k < assets.len()
    &&& gps(assets[k]) is Some
    &&& forall|j: int| 0 <= j < k ==> gps(#[trigger] assets[j]) is None
}

/// The first coordinates among the assets.
pub open spec fn first_location(assets: Seq<Asset>) -> Option<(Degrees, Degrees)> {
    if exists|k: int| is_first_located(assets, k) {
        gps(assets[choose|k: int| is_first_located(assets, k)])
    } else {
        None
    }
}

/// The first member with coordinates, or the first member where none has any.
pub open spec fn located_or_first(assets: Seq<Asset>) -> int {
    if exists|k: int| is_first_located(assets, k) {
        choose|k: int| is_first_located(assets, k)
    } else {
        0
    }
}

/// The listed pairs name two different members.
pub open spec fn names_pair(far: Seq<(usize, usize)>, n: int) -> bool {
    exists|k: int| 0 <= k < far.len() && (#[trigger] far[k]).0 < far[k].1 < n
}

/// What to do with a group, given when each member was captured, the ids that
/// are in a stack, and the pairs of members that lie too far apart. The rules
/// apply in this order; the first that fits decides.
pub open spec fn decision(
    assets: Seq<Asset>,
    stacked: Set<Seq<char>>,
    max_time_gap_secs: int,
    far: Seq<(usize, usize)>,
    times: Seq<Option<i64>>,
) -> GroupDecision {
    if assets.len() < 2 {
        GroupDecision::Skip(SkipReason::TooFewAssets)
    } else if exists|i: int| 0 <= i < assets.len() && stacked.contains((#[trigger] assets[i]).id@) {
        GroupDecision::Skip(SkipReason::AlreadyStacked)
    } else if all_known(times) && spread_exceeds(times, HARD_MAX_TIME_SPREAD_SECS as int) {
        GroupDecision::KeepAll
    } else if all_videos(assets) && cross_folder_copies(assets, times) && smallest(
        byte_sizes(assets),
    ) < largest(byte_sizes(assets)) {
        let keeper = choose|k: int| is_first_largest(byte_sizes(assets), k);
        GroupDecision::AutoDeleteDupes {
            keeper_idx: keeper as usize,
            gps_backfill: if gps(assets[keeper]) is Some {
                None
            } else {
                first_location(assets)
            },
        }
    } else if any_video(assets) {
        GroupDecision::Skip(SkipReason::ContainsVideo)
    } else if cross_folder_copies(assets, times) && within_tolerance(
        byte_sizes(assets),
        auto_delete_max_size_gap(),
    ) {
        GroupDecision::AutoDeleteDupes {
            keeper_idx: located_or_first(assets) as usize,
            gps_backfill: None,
        }
    } else if !one_folder(assets) {
        GroupDecision::Skip(SkipReason::DifferentFolders)
    } else if !all_known(times) {
        GroupDecision::Skip(SkipReason::MissingCaptureTime)
    } else if spread_exceeds(times, max_time_gap_secs) {
        GroupDecision::Skip(SkipReason::TimeGapTooLarge)
    } else if all_located(assets) && names_pair(far, assets.len() as int) {
        GroupDecision::Skip(SkipReason::DistanceTooLarge)
    } else {
        GroupDecision::Consider
    }
}

pub open spec fn all_videos(assets: Seq<Asset>) -> bool {
    forall|i: int| 0 <= i < assets.len() ==> is_video(#[trigger] assets[i])
}

pub open spec fn any_video(assets: Seq<Asset>) -> bool {
    exists|i: int| 0 <= i < assets.len() && is_video(#[trigger] assets[i])
}

pub open spec fn all_located(assets: Seq<Asset>) -> bool {
    forall|i: int| 0 <= i < assets.len() ==> gps(#[trigger] assets[i]) is Some
}

// ---- reading an asset -------------------------------------------------------

/// The folder of a path.
pub fn parent_dir(path: &str) -> (r: &str)
    ensures
        r@ == folder(path@),
{
    before_last(path, '/')
}

fn read_seconds(text: &Option<String>) -> (r: Option<i64>)
    ensures
        r == seconds_in(*text),
{
    match text {
        Some(s) => parse_capture_seconds(s.as_str()),
        None => None,
    }
}

/// When an asset was captured, in UTC seconds.
pub fn asset_capture_time_seconds(a: &Asset) -> (r: Option<i64>)
    ensures
        r == capture_time(*a),
{
    if let Some(e) = &a.exif_info {
        let t = read_seconds(&e.date_time_original);
        if t.is_some() {
            return t;
        }
    }
    let t = read_seconds(&a.local_date_time);
    if t.is_some() {
        return t;
    }
    read_seconds(&a.file_created_at)
}

pub fn asset_gps(a: &Asset) -> (r: Option<(Degrees, Degrees)>)
    ensures
        r == gps(*a),
{
    match &a.exif_info {
        Some(e) => match (&e.latitude, &e.longitude) {
            (Some(lat), Some(lng)) => Some((lat.clone(), lng.clone())),
            _ => None,
        },
        None => None,
    }
}

pub fn asset_size(a: &Asset) -> (r: Option<u64>)
    ensures
        r == byte_size(*a),
{
    match &a.exif_info {
        Some(e) => e.file_size_in_byte,
        None => None,
    }
}

fn video(a: &Asset) -> (r: bool)
    ensures
        r == is_video(*a),
{
    equal_ignoring_case(a.asset_type.as_str(), "VIDEO")
}

// ---- reading a group --------------------------------------------------------

/// The sizes of all assets, where every one has a size.
pub fn collect_sizes(assets: &Vec<Asset>) -> (r: Option<Vec<u64>>)
    ensures
        r is Some <==> all_sized(assets@),
        r matches Some(v) ==> v@ == byte_sizes(assets@),
{
    let mut out: Vec<u64> = Vec::new();
    let mut i: usize = 0;
    while i < assets.len()
        invariant
            i <= assets.len(),
            out@ == byte_sizes(assets@).take(i as int),
            forall|j: int| 0 <= j < i ==> byte_size(#[trigger] assets@[j]) is Some,
        decreases assets.len() - i,
    {
        match asset_size(&assets[i]) {
            Some(n) => out.push(n),
            None => {
                assert(byte_size(assets@[i as int]) is None);
                return None;
            },
        }
        i += 1;
    }
    assert(byte_sizes(assets@).take(i as int) =~= byte_sizes(assets@));
    Some(out)
}

pub proof fn lemma_largest_bounds(sizes: Seq<u64>)
    ensures
        forall|i: int| 0 <= i < sizes.len() ==> #[trigger] sizes[i] <= largest(sizes),
        sizes.len() > 0 ==> exists|i: int| 0 <= i < sizes.len() && sizes[i] == largest(sizes),
    decreases sizes.len(),
{
    if sizes.len() > 0 {
        let rest = sizes.drop_last();
        lemma_largest_bounds(rest);
        assert forall|i: int| 0 <= i < sizes.len() implies #[trigger] sizes[i] <= largest(sizes) by {
            if i < sizes.len() - 1 {
                assert(rest[i] == sizes[i]);
            }
        }
        if sizes.len() == 1 || largest(rest) <= sizes.last() {
            assert(sizes[sizes.len() - 1] == largest(sizes));
        } else {
            let i = choose|i: int| 0 <= i < rest.len() && rest[i] == largest(rest);
            assert(sizes[i] == largest(sizes));
        }
    }
}

pub(crate) fn max_size(sizes: &Vec<u64>) -> (r: u64)
    ensures
        r == largest(sizes@),
{
    let mut best: u64 = 0;
    let mut i: usize = 0;
    assert(sizes@.take(0) =~= Seq::<u64>::empty());
    while i < sizes.len()
        invariant
            i <= sizes.len(),
            best == largest(sizes@.take(i as int)),
        decreases sizes.len() - i,
    {
        assert(sizes@.take(i + 1).drop_last() =~= sizes@.take(i as int));
        if i == 0 || best <= sizes[i] {
            best = sizes[i];
        }
        i += 1;
    }
    assert(sizes@.take(i as int) =~= sizes@);
    best
}

pub(crate) fn min_size(sizes: &Vec<u64>) -> (r: u64)
    ensures
        r == smallest(sizes@),
{
    let mut best: u64 = 0;
    let mut i: usize = 0;
    assert(sizes@.take(0) =~= Seq::<u64>::empty());
    while i < sizes.len()
        invariant
            i <= sizes.len(),
            best == smallest(sizes@.take(i as int)),
        decreases sizes.len() - i,
    {
        assert(sizes@.take(i + 1).drop_last() =~= sizes@.take(i as int));
        if i == 0 || sizes[i] <= best {
            best = sizes[i];
        }
        i += 1;
    }
    assert(sizes@.take(i as int) =~= sizes@);
    best
}

pub proof fn lemma_smallest_at_most_largest(sizes: Seq<u64>)
    ensures
        smallest(sizes) <= largest(sizes),
    decreases sizes.len(),
{
    if sizes.len() > 1 {
        lemma_smallest_at_most_largest(sizes.drop_last());
    }
}

/// Whether `(largest - smallest) / largest <= max_gap`. No sizes, or only
/// zeros, count as close.
pub fn sizes_within_tolerance(sizes: &Vec<u64>, max_gap: Ratio) -> (r: bool)
    ensures
        r == within_tolerance(sizes@, max_gap),
{
    let max: u64 = max_size(sizes);
    let min: u64 = min_size(sizes);
    proof {
        lemma_smallest_at_most_largest(sizes@);
    }
    gap_at_most(min, max, max_gap)
}

/// Whether `(max - min) / max <= gap`, by cross-multiplication.
pub(crate) fn gap_at_most(min: u64, max: u64, gap: Ratio) -> (r: bool)
    requires
        min <= max,
    ensures
        r == ((max - min) * gap.den <= gap.num * max),
{
    let diff: u64 = max - min;
    assert(diff * gap.den <= 0xffff_ffff_ffff_ffff * 0xffff_ffff_ffff_ffff) by (nonlinear_arith)
        requires
            diff <= 0xffff_ffff_ffff_ffff,
            gap.den <= 0xffff_ffff_ffff_ffff,
    ;
    assert(gap.num * max <= 0xffff_ffff_ffff_ffff * 0xffff_ffff_ffff_ffff) by (nonlinear_arith)
        requires
            max <= 0xffff_ffff_ffff_ffff,
            gap.num <= 0xffff_ffff_ffff_ffff,
    ;
    diff as u128 * gap.den as u128 <= gap.num as u128 * max as u128
}

/// The earliest and the latest of the times, where all are known.
fn time_bounds(times: &Vec<Option<i64>>) -> (r: Option<(i64, i64)>)
    requires
        times.len() > 0,
    ensures
        r is Some <==> all_known(times@),
        r matches Some(b) ==> b.0 <= b.1 && forall|gap: int| #[trigger]
            spread_exceeds(times@, gap) == (b.1 - b.0 > gap),
{
    let mut lo: i64 = 0;
    let mut hi: i64 = 0;
    let ghost mut at_lo: int = 0;
    let ghost mut at_hi: int = 0;
    let mut i: usize = 0;
    while i < times.len()
        invariant
            i <= times.len(),
            forall|j: int| 0 <= j < i ==> (#[trigger] times@[j]) is Some,
            i > 0 ==> 0 <= at_lo < i && times@[at_lo] == Some(lo),
            i > 0 ==> 0 <= at_hi < i && times@[at_hi] == Some(hi),
            forall|j: int| 0 <= j < i ==> lo <= (#[trigger] times@[j])->0 <= hi,
        decreases times.len() - i,
    {
        match times[i] {
            Some(t) => {
                if i == 0 || t < lo {
                    lo = t;
                    proof {
                        at_lo = i as int;
                    }
                }
                if i == 0 || hi < t {
                    hi = t;
                    proof {
                        at_hi = i as int;
                    }
                }
            },
            None => {
                assert(times@[i as int] is None);
                return None;
            },
        }
        i += 1;
    }
    proof {
        assert forall|gap: int| #[trigger] spread_exceeds(times@, gap) == (hi - lo > gap) by {
            if hi - lo > gap {
                assert(times@[at_hi]->0 - times@[at_lo]->0 > gap);
            }
        }
        assert(times@[at_hi]->0 >= lo);
    }
    Some((lo, hi))
}

fn further_apart(bounds: (i64, i64), gap: i64) -> (r: bool)
    ensures
        r == (bounds.1 - bounds.0 > gap),
{
    bounds.1 as i128 - bounds.0 as i128 > gap as i128
}

fn in_one_folder(assets: &Vec<Asset>) -> (r: bool)
    ensures
        r == one_folder(assets@),
{
    let mut i: usize = 1;
    while i < assets.len()
        invariant
            1 <= i,
            assets.len() > 0 ==> i <= assets.len(),
            forall|j: int|
                0 <= j < i && j < assets.len() ==> folder((#[trigger] assets@[j]).original_path@)
                    == folder(assets@[0].original_path@),
        decreases assets.len() - i,
    {
        if !same(
            parent_dir(assets[i].original_path.as_str()),
            parent_dir(assets[0].original_path.as_str()),
        ) {
            assert(folder(assets@[i as int].original_path@) != folder(assets@[0].original_path@));
            return false;
        }
        i += 1;
    }
    true
}

fn under_one_name(assets: &Vec<Asset>) -> (r: bool)
    ensures
        r == one_name(assets@),
{
    let mut i: usize = 1;
    while i < assets.len()
        invariant
            1 <= i,
            assets.len() > 0 ==> i <= assets.len(),
            forall|j: int|
                0 <= j < i && j < assets.len() ==> (#[trigger] assets@[j]).original_file_name@
                    == assets@[0].original_file_name@,
        decreases assets.len() - i,
    {
        if !same(assets[i].original_file_name.as_str(), assets[0].original_file_name.as_str()) {
            assert(assets@[i as int].original_file_name@ != assets@[0].original_file_name@);
            return false;
        }
        i += 1;
    }
    true
}

/// Whether there is a video among the assets, and whether all are videos.
fn videos_among(assets: &Vec<Asset>) -> (r: (bool, bool))
    ensures
        r.0 == any_video(assets@),
        r.1 == all_videos(assets@),
{
    let mut any = false;
    let mut all = true;
    let mut i: usize = 0;
    while i < assets.len()
        invariant
            i <= assets.len(),
            any == exists|j: int| 0 <= j < i && is_video(#[trigger] assets@[j]),
            all == forall|j: int| 0 <= j < i ==> is_video(#[trigger] assets@[j]),
        decreases assets.len() - i,
    {
        if video(&assets[i]) {
            assert(is_video(assets@[i as int]));
            any = true;
        } else {
            assert(!is_video(assets@[i as int]));
            all = false;
        }
        i += 1;
    }
    (any, all)
}

fn any_stacked(assets: &Vec<Asset>, stacked: &IdSet) -> (r: bool)
    ensures
        r == exists|i: int| 0 <= i < assets.len() && stacked@.contains((#[trigger] assets@[i]).id@),
{
    let mut i: usize = 0;
    while i < assets.len()
        invariant
            i <= assets.len(),
            forall|j: int| 0 <= j < i ==> !stacked@.contains((#[trigger] assets@[j]).id@),
        decreases assets.len() - i,
    {
        if stacked.contains(assets[i].id.as_str()) {
            assert(stacked@.contains(assets@[i as int].id@));
            return true;
        }
        i += 1;
    }
    false
}

/// The first member with coordinates.
fn first_located(assets: &Vec<Asset>) -> (r: Option<usize>)
    ensures
        match r {
            Some(k) => is_first_located(assets@, k as int),
            None => forall|i: int| 0 <= i < assets.len() ==> gps(#[trigger] assets@[i]) is None,
        },
{
    let mut i: usize = 0;
    while i < assets.len()
        invariant
            i <= assets.len(),
            forall|j: int| 0 <= j < i ==> gps(#[trigger] assets@[j]) is None,
        decreases assets.len() - i,
    {
        if asset_gps(&assets[i]).is_some() {
            return Some(i);
        }
        i += 1;
    }
    None
}

fn every_located(assets: &Vec<Asset>) -> (r: bool)
    ensures
        r == all_located(assets@),
{
    let mut i: usize = 0;
    while i < assets.len()
        invariant
            i <= assets.len(),
            forall|j: int| 0 <= j < i ==> gps(#[trigger] assets@[j]) is Some,
        decreases assets.len() - i,
    {
        if asset_gps(&assets[i]).is_none() {
            assert(gps(assets@[i as int]) is None);
            return false;
        }
        i += 1;
    }
    true
}

pub(crate) fn first_of_size(sizes: &Vec<u64>, size: u64) -> (r: usize)
    requires
        size == largest(sizes@),
        sizes.len() > 0,
    ensures
        is_first_largest(sizes@, r as int),
{
    let mut i: usize = 0;
    proof {
        lemma_largest_bounds(sizes@);
    }
    while sizes[i] != size
        invariant
            size == largest(sizes@),
            i < sizes.len(),
            exists|k: int| i <= k < sizes.len() && sizes@[k] == size,
            forall|j: int| 0 <= j < i ==> #[trigger] sizes@[j] != size,
        decreases sizes.len() - i,
    {
        i += 1;
    }
    i
}

fn pair_named(far: &Vec<(usize, usize)>, n: usize) -> (r: bool)
    ensures
        r == names_pair(far@, n as int),
{
    let mut k: usize = 0;
    while k < far.len()
        invariant
            k <= far.len(),
            forall|j: int| 0 <= j < k ==> !((#[trigger] far@[j]).0 < far@[j].1 < n),
        decreases far.len() - k,
    {
        if far[k].0 < far[k].1 && far[k].1 < n {
            assert(far@[k as int].0 < far@[k as int].1 < n);
            return true;
        }
        k += 1;
    }
    false
}

// ---- the rules --------------------------------------------------------------

/// Applies the rules to a group whose capture times have been read.
pub fn classify_with_times(
    group: &DuplicateGroup,
    stacked: &IdSet,
    max_time_gap_secs: i64,
    far_apart: &Vec<(usize, usize)>,
    times: &Vec<Option<i64>>,
) -> (r: GroupDecision)
    requires
        times.len() == group.assets.len(),
    ensures
        r == decision(
            group.assets@,
            stacked@,
            max_time_gap_secs as int,
            far_apart@,
            times@,
        ),
{
    let assets = &group.assets;
    if assets.len() < 2 {
        return GroupDecision::Skip(SkipReason::TooFewAssets);
    }
    if any_stacked(assets, stacked) {
        return GroupDecision::Skip(SkipReason::AlreadyStacked);
    }
    let bounds = time_bounds(times);
    if let Some(b) = bounds {
        if further_apart(b, HARD_MAX_TIME_SPREAD_SECS) {
            return GroupDecision::KeepAll;
        }
    }
    let single_folder = in_one_folder(assets);
    let sizes = collect_sizes(assets);
    let (some_video, only_videos) = videos_among(assets);
    let copies = !single_folder && under_one_name(assets) && sizes.is_some() && match bounds {
        Some(b) => b.0 == b.1,
        None => false,
    };
    assert(copies == cross_folder_copies(assets@, times@));
    if copies {
        if let Some(sizes) = &sizes {
            if only_videos {
                let max: u64 = max_size(sizes);
                if min_size(sizes) < max {
                    let keeper: usize = first_of_size(sizes, max);
                    assert(keeper == choose|k: int| is_first_largest(byte_sizes(assets@), k)) by {
                        lemma_first_largest_unique(sizes@, keeper as int);
                    }
                    let gps_backfill = if asset_gps(&assets[keeper]).is_some() {
                        None
                    } else {
                        find_location(assets)
                    };
                    return GroupDecision::AutoDeleteDupes { keeper_idx: keeper, gps_backfill };
                }
            }
        }
    }
    if some_video {
        return GroupDecision::Skip(SkipReason::ContainsVideo);
    }
    if copies {
        if let Some(sizes) = &sizes {
            if sizes_within_tolerance(sizes, Ratio { num: 1, den: 1000 }) {
                let found = first_located(assets);
                proof {
                    if let Some(k) = found {
                        lemma_first_located_unique(assets@, k as int);
                    }
                }
                let keeper_idx: usize = match found {
                    Some(k) => k,
                    None => 0,
                };
                return GroupDecision::AutoDeleteDupes { keeper_idx, gps_backfill: None };
            }
        }
    }
    if !single_folder {
        return GroupDecision::Skip(SkipReason::DifferentFolders);
    }
    match bounds {
        None => {
            return GroupDecision::Skip(SkipReason::MissingCaptureTime);
        },
        Some(b) => {
            if further_apart(b, max_time_gap_secs) {
                return GroupDecision::Skip(SkipReason::TimeGapTooLarge);
            }
        },
    }
    if every_located(assets) && pair_named(far_apart, assets.len()) {
        return GroupDecision::Skip(SkipReason::DistanceTooLarge);
    }
    GroupDecision::Consider
}

pub proof fn lemma_first_largest_unique(sizes: Seq<u64>, k: int)
    requires
        is_first_largest(sizes, k),
    ensures
        k == choose|j: int| is_first_largest(sizes, j),
{
    let c = choose|j: int| is_first_largest(sizes, j);
    assert(is_first_largest(sizes, c));
    if c < k {
        assert(sizes[c] != largest(sizes));
    } else if k < c {
        assert(sizes[k] != largest(sizes));
    }
}

proof fn lemma_first_located_unique(assets: Seq<Asset>, k: int)
    requires
        is_first_located(assets, k),
    ensures
        k == choose|j: int| is_first_located(assets, j),
{
    let c = choose|j: int| is_first_located(assets, j);
    assert(is_first_located(assets, c));
    if c < k {
        assert(gps(assets[c]) is None);
    } else if k < c {
        assert(gps(assets[k]) is None);
    }
}

pub(crate) fn find_location(assets: &Vec<Asset>) -> (r: Option<(Degrees, Degrees)>)
    ensures
        r == first_location(assets@),
{
    match first_located(assets) {
        Some(k) => {
            proof {
                lemma_first_located_unique(assets@, k as int);
            }
            asset_gps(&assets[k])
        },
        None => None,
    }
}

/// Reads when each member was captured and applies the rules. `far_apart`
/// lists the pairs of members whose coordinates lie too far from each other.
pub fn classify_group(
    group: &DuplicateGroup,
    stacked: &IdSet,
    max_time_gap_secs: i64,
    far_apart: &Vec<(usize, usize)>,
) -> (r: GroupDecision)
    ensures
        r == decision(
            group.assets@,
            stacked@,
            max_time_gap_secs as int,
            far_apart@,
            capture_times(group.assets@),
        ),
{
    let mut times: Vec<Option<i64>> = Vec::new();
    let mut i: usize = 0;
    while i < group.assets.len()
        invariant
            i <= group.assets.len(),
            times@ == capture_times(group.assets@).take(i as int),
        decreases group.assets.len() - i,
    {
        times.push(asset_capture_time_seconds(&group.assets[i]));
        i += 1;
    }
    assert(times@ =~= capture_times(group.assets@));
    classify_with_times(group, stacked, max_time_gap_secs, far_apart, &times)
}

// ---- what the rules guarantee -----------------------------------------------

/// The hard guard on capture times: where all times are known and two lie more
/// than six hours apart, no asset of the group is ever deleted or stacked,
/// however wide the allowed time gap is.
pub proof fn law_wide_spread_touches_nothing(
    group: DuplicateGroup,
    stacked: Set<Seq<char>>,
    max_time_gap_secs: int,
    far: Seq<(usize, usize)>,
    times: Seq<Option<i64>>,
)
    requires
        all_known(times),
        spread_exceeds(times, HARD_MAX_TIME_SPREAD_SECS as int),
    ensures
        ({
            let d = decision(group.assets@, stacked, max_time_gap_secs, far, times);
            d is KeepAll || d is Skip
        }),
{
}

/// A wider time gap only lets more groups through: it changes the decision on no
/// group but one that was skipped for its time gap, and a group that was
/// considered stays so.
pub proof fn law_wider_gap_lets_more_through(
    group: DuplicateGroup,
    stacked: Set<Seq<char>>,
    narrow: int,
    wide: int,
    far: Seq<(usize, usize)>,
    times: Seq<Option<i64>>,
)
    requires
        narrow <= wide,
    ensures
        ({
            let before = decision(group.assets@, stacked, narrow, far, times);
            let after = decision(group.assets@, stacked, wide, far, times);
            &&& before is Consider ==> after is Consider
            &&& before == after || before == GroupDecision::Skip(SkipReason::TimeGapTooLarge)
        }),
{
    if spread_exceeds(times, wide) {
        let (i, j) = choose|i: int, j: int|
            0 <= i < times.len() && 0 <= j < times.len() && (#[trigger] times[i])->0 - (
            #[trigger] times[j])->0 > wide;
        assert(times[i]->0 - times[j]->0 > narrow);
    }
}

/// A group with a member that is in a stack already is left alone.
pub proof fn law_stacked_groups_are_skipped(
    group: DuplicateGroup,
    stacked: Set<Seq<char>>,
    max_time_gap_secs: int,
    far: Seq<(usize, usize)>,
    times: Seq<Option<i64>>,
    i: int,
)
    requires
        0 <= i < group.assets@.len(),
        stacked.contains(group.assets@[i].id@),
    ensures
        decision(group.assets@, stacked, max_time_gap_secs, far, times) is Skip,
{
}

/// A group with a video is never stacked.
pub proof fn law_videos_are_never_stacked(
    group: DuplicateGroup,
    stacked: Set<Seq<char>>,
    max_time_gap_secs: int,
    far: Seq<(usize, usize)>,
    times: Seq<Option<i64>>,
)
    requires
        any_video(group.assets@),
    ensures
        decision(group.assets@, stacked, max_time_gap_secs, far, times) !is Consider,
{
}

/// Only copies lose members: assets are deleted only where all members have
/// one file name, one capture time and known sizes, in more than one folder.
/// One of the members is kept.
pub proof fn law_only_copies_are_deleted(
    group: DuplicateGroup,
    stacked: Set<Seq<char>>,
    max_time_gap_secs: int,
    far: Seq<(usize, usize)>,
    times: Seq<Option<i64>>,
)
    ensures
        decision(group.assets@, stacked, max_time_gap_secs, far, times)
            matches GroupDecision::AutoDeleteDupes { keeper_idx, gps_backfill } ==> {
            &&& keeper_idx < group.assets@.len()
            &&& group.assets@.len() >= 2
            &&& cross_folder_copies(group.assets@, times)
            &&& all_videos(group.assets@) || !any_video(group.assets@)
        },
{
    let assets = group.assets@;
    let sizes = byte_sizes(assets);
    lemma_largest_bounds(sizes);
    if assets.len() >= 2 {
        lemma_first_largest_exists(sizes);
        if exists|k: int| is_first_located(assets, k) {
            let k = choose|k: int| is_first_located(assets, k);
            assert(0 <= k < assets.len());
        }
    }
}

pub proof fn lemma_first_largest_exists(sizes: Seq<u64>)
    requires
        sizes.len() > 0,
    ensures
        exists|k: int| is_first_largest(sizes, k),
{
    lemma_largest_bounds(sizes);
    let top = choose|i: int| 0 <= i < sizes.len() && sizes[i] == largest(sizes);
    lemma_first_at(sizes, top);
}

proof fn lemma_first_at(sizes: Seq<u64>, at: int)
    requires
        0 <= at < sizes.len(),
        sizes[at] == largest(sizes),
    ensures
        exists|k: int| is_first_largest(sizes, k),
    decreases at,
{
    if exists|j: int| 0 <= j < at && sizes[j] == largest(sizes) {
        let j = choose|j: int| 0 <= j < at && sizes[j] == largest(sizes);
        lemma_first_at(sizes, j);
    } else {
        assert(is_first_largest(sizes, at));
    }
}

pub proof fn lemma_first_located_exists(assets: Seq<Asset>, at: int)
    requires
        0 <= at < assets.len(),
        gps(assets[at]) is Some,
    ensures
        exists|k: int| is_first_located(assets, k),
    decreases at,
{
    if exists|j: int| 0 <= j < at && gps(assets[j]) is Some {
        let j = choose|j: int| 0 <= j < at && gps(assets[j]) is Some;
        lemma_first_located_exists(assets, j);
    } else {
        assert(is_first_located(assets, at));
    }
}

/// No location is lost by a deletion: where a member has coordinates, the kept
/// member has some too, or gets those of another member.
pub proof fn law_deletion_keeps_a_location(
    group: DuplicateGroup,
    stacked: Set<Seq<char>>,
    max_time_gap_secs: int,
    far: Seq<(usize, usize)>,
    times: Seq<Option<i64>>,
    i: int,
)
    requires
        0 <= i < group.assets@.len(),
        gps(group.assets@[i]) is Some,
    ensures
        decision(group.assets@, stacked, max_time_gap_secs, far, times)
            matches GroupDecision::AutoDeleteDupes { keeper_idx, gps_backfill } ==> gps(
            group.assets@[keeper_idx as int],
        ) is Some || gps_backfill is Some,
{
    let assets = group.assets@;
    lemma_first_located_exists(assets, i);
    let k = choose|k: int| is_first_located(assets, k);
    assert(gps(assets[k]) is Some && 0 <= k < assets.len());
    lemma_first_largest_exists(byte_sizes(assets));
    let top = choose|k: int| is_first_largest(byte_sizes(assets), k);
    assert(group.assets.len() == assets.len());
    assert((top as usize) as int == top);
    assert((k as usize) as int == k);
    assert(first_location(assets) is Some);
    assert(located_or_first(assets) == k);
}

/// What the rules read of an asset: its coordinates are its latitude and longitude
/// where it has both, its size is that of its file, and it is a video where its type
/// says so in either case.
pub proof fn law_what_is_read_of_an_asset(a: Asset, lat: Degrees, lng: Degrees)
    ensures
        gps(a) == Some((lat, lng)) <==> a.exif_info is Some && a.exif_info->0.latitude == Some(lat)
            && a.exif_info->0.longitude == Some(lng),
        a.exif_info is None ==> gps(a) is None && byte_size(a) is None,
        a.exif_info matches Some(e) ==> byte_size(a) == e.file_size_in_byte && (gps(a) is Some
            <==> e.latitude is Some && e.longitude is Some),
        is_video(a) <==> a.asset_type@.len() == 5 && lowered(a.asset_type@[0]) == 'v' as int
            && lowered(a.asset_type@[1]) == 'i' as int && lowered(a.asset_type@[2]) == 'd' as int
            && lowered(a.asset_type@[3]) == 'e' as int && lowered(a.asset_type@[4]) == 'o' as int,
{
    let kind = a.asset_type@;
    reveal_strlit("VIDEO");
    law_case_is_ignored(kind, "VIDEO"@);
    let x = kind.map_values(|c: char| lowered(c));
    let y = "VIDEO"@.map_values(|c: char| lowered(c));
    assert(y.len() == 5);
    if is_video(a) {
        assert(x[0] == y[0] && x[1] == y[1] && x[2] == y[2] && x[3] == y[3] && x[4] == y[4]);
    } else if kind.len() == 5 && lowered(kind[0]) == 'v' as int && lowered(kind[1]) == 'i' as int
        && lowered(kind[2]) == 'd' as int && lowered(kind[3]) == 'e' as int && lowered(kind[4])
        == 'o' as int {
        assert(x =~= y);
    }
}

/// The time in the EXIF data comes first; the local time, and then the time of the
/// file, count only where those before cannot be read.
pub proof fn law_capture_time_prefers_exif(a: Asset, t: i64)
    ensures
        a.exif_info is Some && a.exif_info->0.date_time_original is Some && capture_seconds(
            a.exif_info->0.date_time_original->0@,
        ) == Some(t) ==> capture_time(a) == Some(t),
        (a.exif_info is Some && a.exif_info->0.date_time_original is Some ==> capture_seconds(
            a.exif_info->0.date_time_original->0@,
        ) is None) && a.local_date_time is Some && capture_seconds(a.local_date_time->0@) == Some(
            t,
        ) ==> capture_time(a) == Some(t),
        (a.exif_info is Some && a.exif_info->0.date_time_original is Some ==> capture_seconds(
            a.exif_info->0.date_time_original->0@,
        ) is None) && (a.local_date_time is Some ==> capture_seconds(a.local_date_time->0@)
            is None) ==> capture_time(a) == (if a.file_created_at is Some {
            capture_seconds(a.file_created_at->0@)
        } else {
            None
        }),
{
}

/// The file of a path lies in the folder before the last slash.
pub proof fn law_folder_and_name_make_the_path(path: Seq<char>, dir: Seq<char>, name: Seq<char>)
    requires
        !name.contains('/'),
        path == dir + "/"@ + name,
    ensures
        folder(path) == dir,
{
    reveal_strlit("/");
    law_split_at_the_last(path, '/');
    assert(path[dir.len() as int] == '/');
    let head = folder(path);
    let tail = from_last(path, '/');
    assert(path == head.push('/') + tail);
    if head.len() < dir.len() {
        assert(path[dir.len() as int] == tail[dir.len() - head.len() - 1]);
        assert(tail.contains('/'));
    } else if head.len() > dir.len() {
        assert(path[head.len() as int] == '/');
        assert(path[head.len() as int] == name[head.len() - dir.len() - 1]);
        assert(name.contains('/'));
    }
    assert(head =~= dir) by {
        assert(head =~= path.take(head.len() as int));
        assert(dir =~= path.take(dir.len() as int));
    }
}

/// The bytes of member `i`, where its size is known.
pub open spec fn bytes_of(assets: Seq<Asset>, i: int) -> u64 {
    assets[i].exif_info->0.file_size_in_byte->0
}

/// Of copies the right one is kept. Among videos it is the first of the largest: no
/// deleted member is larger, and every earlier one is smaller. It gets the coordinates
/// of the first member that has some where it has none itself.
pub proof fn law_largest_video_is_kept(
    group: DuplicateGroup,
    stacked: Set<Seq<char>>,
    max_time_gap_secs: int,
    far: Seq<(usize, usize)>,
    times: Seq<Option<i64>>,
)
    requires
        any_video(group.assets@),
    ensures
        decision(group.assets@, stacked, max_time_gap_secs, far, times)
            matches GroupDecision::AutoDeleteDupes { keeper_idx, gps_backfill } ==> {
            let assets = group.assets@;
            &&& keeper_idx < assets.len()
            &&& forall|i: int|
                0 <= i < assets.len() ==> (#[trigger] assets[i]).exif_info is Some
                    && assets[i].exif_info->0.file_size_in_byte is Some && bytes_of(assets, i)
                    <= bytes_of(assets, keeper_idx as int)
            &&& forall|i: int|
                0 <= i < keeper_idx ==> bytes_of(assets, i) < bytes_of(assets, keeper_idx as int)
                    && (#[trigger] assets[i]).exif_info is Some
            &&& exists|i: int|
                0 <= i < assets.len() && #[trigger] bytes_of(assets, i) < bytes_of(
                    assets,
                    keeper_idx as int,
                )
            &&& gps(assets[keeper_idx as int]) is Some ==> gps_backfill is None
            &&& gps(assets[keeper_idx as int]) is None ==> ({
                ||| gps_backfill is None && forall|i: int|
                    0 <= i < assets.len() ==> gps(#[trigger] assets[i]) is None
                ||| exists|i: int|
                    0 <= i < assets.len() && gps(#[trigger] assets[i]) is Some && gps(assets[i])
                        == gps_backfill && forall|j: int|
                        0 <= j < i ==> gps(#[trigger] assets[j]) is None
            })
        },
{
    let assets = group.assets@;
    let d = decision(assets, stacked, max_time_gap_secs, far, times);
    if d is AutoDeleteDupes {
        let sizes = byte_sizes(assets);
        lemma_first_largest_exists(sizes);
        lemma_largest_bounds(sizes);
        lemma_smallest_is_there(sizes);
        let top = choose|k: int| is_first_largest(sizes, k);
        assert(is_first_largest(sizes, top));
        assert(group.assets.len() == assets.len());
        assert((top as usize) as int == top);
        assert(sizes[top] == bytes_of(assets, top));
        assert forall|i: int| 0 <= i < assets.len() implies (#[trigger] assets[i]).exif_info is Some
            && assets[i].exif_info->0.file_size_in_byte is Some && bytes_of(assets, i) <= bytes_of(
            assets,
            top,
        ) by {
            assert(byte_size(assets[i]) is Some);
            assert(sizes[i] <= largest(sizes));
        }
        assert forall|i: int| 0 <= i < top implies bytes_of(assets, i) < bytes_of(assets, top)
            && (#[trigger] assets[i]).exif_info is Some by {
            assert(byte_size(assets[i]) is Some);
            assert(sizes[i] <= largest(sizes));
            assert(sizes[i] != largest(sizes));
        }
        let low = choose|i: int| 0 <= i < sizes.len() && sizes[i] == smallest(sizes);
        assert(bytes_of(assets, low) == sizes[low]);
        assert(bytes_of(assets, low) < bytes_of(assets, top));
        if gps(assets[top]) is None {
            if exists|i: int| 0 <= i < assets.len() && gps(#[trigger] assets[i]) is Some {
                let i = choose|i: int| 0 <= i < assets.len() && gps(#[trigger] assets[i]) is Some;
                lemma_first_located_exists(assets, i);
                let k = choose|k: int| is_first_located(assets, k);
                assert(is_first_located(assets, k));
                assert(gps(assets[k]) == first_location(assets));
            } else {
                if exists|k: int| is_first_located(assets, k) {
                    let k = choose|k: int| is_first_located(assets, k);
                    assert(is_first_located(assets, k));
                }
            }
        }
    }
}

pub proof fn lemma_smallest_is_there(sizes: Seq<u64>)
    ensures
        forall|i: int| 0 <= i < sizes.len() ==> smallest(sizes) <= #[trigger] sizes[i],
        sizes.len() > 0 ==> exists|i: int| 0 <= i < sizes.len() && sizes[i] == smallest(sizes),
    decreases sizes.len(),
{
    if sizes.len() > 0 {
        let rest = sizes.drop_last();
        lemma_smallest_is_there(rest);
        assert forall|i: int| 0 <= i < sizes.len() implies smallest(sizes) <= #[trigger] sizes[i] by {
            if i < sizes.len() - 1 {
                assert(rest[i] == sizes[i]);
            }
        }
        if sizes.len() == 1 || sizes.last() <= smallest(rest) {
            assert(sizes[sizes.len() - 1] == smallest(sizes));
        } else {
            let i = choose|i: int| 0 <= i < rest.len() && rest[i] == smallest(rest);
            assert(sizes[i] == smallest(sizes));
        }
    }
}

/// Of copied photos the first with coordinates is kept, or the first of all where none
/// has any, and nothing is written onto it. Their sizes differ by a thousandth of the
/// largest at most.
pub proof fn law_located_photo_is_kept(
    group: DuplicateGroup,
    stacked: Set<Seq<char>>,
    max_time_gap_secs: int,
    far: Seq<(usize, usize)>,
    times: Seq<Option<i64>>,
)
    requires
        !any_video(group.assets@),
    ensures
        decision(group.assets@, stacked, max_time_gap_secs, far, times)
            matches GroupDecision::AutoDeleteDupes { keeper_idx, gps_backfill } ==> {
            let assets = group.assets@;
            &&& keeper_idx < assets.len()
            &&& gps_backfill is None
            &&& forall|j: int| 0 <= j < keeper_idx ==> gps(#[trigger] assets[j]) is None
            &&& gps(assets[keeper_idx as int]) is Some || keeper_idx == 0 && forall|j: int|
                0 <= j < assets.len() ==> gps(#[trigger] assets[j]) is None
            &&& forall|i: int, j: int|
                #![trigger bytes_of(assets, i), bytes_of(assets, j)]
                0 <= i < assets.len() && 0 <= j < assets.len() && (forall|k: int|
                    0 <= k < assets.len() ==> #[trigger] bytes_of(assets, k) <= bytes_of(assets, i))
                    ==> (bytes_of(assets, i) - bytes_of(assets, j)) * 1000 <= bytes_of(assets, i)
        },
{
    let assets = group.assets@;
    let d = decision(assets, stacked, max_time_gap_secs, far, times);
    if d is AutoDeleteDupes {
        let sizes = byte_sizes(assets);
        lemma_largest_bounds(sizes);
        lemma_smallest_is_there(sizes);
        assert(group.assets.len() == assets.len());
        if exists|i: int| 0 <= i < assets.len() && gps(#[trigger] assets[i]) is Some {
            let i = choose|i: int| 0 <= i < assets.len() && gps(#[trigger] assets[i]) is Some;
            lemma_first_located_exists(assets, i);
            let k = choose|k: int| is_first_located(assets, k);
            assert(is_first_located(assets, k));
            assert((k as usize) as int == k);
        } else {
            if exists|k: int| is_first_located(assets, k) {
                let k = choose|k: int| is_first_located(assets, k);
                assert(is_first_located(assets, k));
            }
        }
        if !all_videos(assets) {
            assert forall|i: int, j: int|
                #![trigger bytes_of(assets, i), bytes_of(assets, j)]
                0 <= i < assets.len() && 0 <= j < assets.len() && (forall|k: int|
                    0 <= k < assets.len() ==> #[trigger] bytes_of(assets, k) <= bytes_of(
                        assets,
                        i,
                    )) implies (bytes_of(assets, i) - bytes_of(assets, j)) * 1000 <= bytes_of(
                assets,
                i,
            ) by {
                let t = choose|t: int| 0 <= t < sizes.len() && sizes[t] == largest(sizes);
                assert(sizes[t] == bytes_of(assets, t));
                assert(sizes[i] == bytes_of(assets, i));
                assert(sizes[j] == bytes_of(assets, j));
                assert(bytes_of(assets, t) <= bytes_of(assets, i));
                assert(sizes[i] <= largest(sizes));
                assert(smallest(sizes) <= sizes[j]);
            }
        } else {
            assert(is_video(assets[0]));
        }
    }
}

/// Copies of one file are owed their deletion: two members or more, none of them in a
/// stack, one file name, one known capture time, known sizes, and two folders at least.
/// Videos are thinned out exactly where two sizes differ, and photos exactly where no two
/// differ by more than a thousandth.
pub proof fn law_copies_are_thinned_out(
    group: DuplicateGroup,
    stacked: Set<Seq<char>>,
    max_time_gap_secs: int,
    far: Seq<(usize, usize)>,
    times: Seq<Option<i64>>,
    a: int,
    b: int,
    t: i64,
)
    requires
        times.len() == group.assets@.len(),
        0 <= a < group.assets@.len(),
        0 <= b < group.assets@.len(),
        folder(group.assets@[a].original_path@) != folder(group.assets@[b].original_path@),
        forall|i: int|
            0 <= i < group.assets@.len() ==> !stacked.contains((#[trigger] group.assets@[i]).id@)
                && group.assets@[i].original_file_name@ == group.assets@[a].original_file_name@
                && group.assets@[i].exif_info is Some
                && group.assets@[i].exif_info->0.file_size_in_byte is Some,
        forall|i: int| 0 <= i < times.len() ==> #[trigger] times[i] == Some(t),
    ensures
        ({
            let assets = group.assets@;
            let d = decision(assets, stacked, max_time_gap_secs, far, times);
            &&& all_videos(assets) ==> (d is AutoDeleteDupes <==> exists|i: int, j: int|
                0 <= i < assets.len() && 0 <= j < assets.len() && #[trigger] bytes_of(assets, i)
                    != #[trigger] bytes_of(assets, j))
            &&& !any_video(assets) ==> (d is AutoDeleteDupes <==> forall|i: int, j: int|
                0 <= i < assets.len() && 0 <= j < assets.len() ==> (#[trigger] bytes_of(assets, i)
                    - #[trigger] bytes_of(assets, j)) * 1000 <= bytes_of(assets, i))
            &&& any_video(assets) && !(d is AutoDeleteDupes) ==> d == GroupDecision::Skip(
                SkipReason::ContainsVideo,
            )
            &&& !any_video(assets) && !(d is AutoDeleteDupes) ==> d == GroupDecision::Skip(
                SkipReason::DifferentFolders,
            )
        }),
{
    let assets = group.assets@;
    let sizes = byte_sizes(assets);
    let d = decision(assets, stacked, max_time_gap_secs, far, times);
    lemma_largest_bounds(sizes);
    lemma_smallest_is_there(sizes);
    assert(a != b);
    assert(assets.len() >= 2);
    assert(!one_folder(assets));
    assert(all_known(times));
    assert(!spread_exceeds(times, 0));
    assert(!spread_exceeds(times, HARD_MAX_TIME_SPREAD_SECS as int));
    assert(all_sized(assets));
    assert(cross_folder_copies(assets, times));
    assert forall|i: int| 0 <= i < assets.len() implies sizes[i] == #[trigger] bytes_of(
        assets,
        i,
    ) && smallest(sizes) <= sizes[i] <= largest(sizes) by {
        assert(sizes[i] <= largest(sizes));
    }
    let hi = choose|i: int| 0 <= i < sizes.len() && sizes[i] == largest(sizes);
    let lo = choose|i: int| 0 <= i < sizes.len() && sizes[i] == smallest(sizes);
    assert(bytes_of(assets, hi) == largest(sizes));
    assert(bytes_of(assets, lo) == smallest(sizes));
    if all_videos(assets) {
        assert(is_video(assets[0]));
        if exists|i: int, j: int|
            0 <= i < assets.len() && 0 <= j < assets.len() && #[trigger] bytes_of(assets, i)
                != #[trigger] bytes_of(assets, j) {
            let (i, j) = choose|i: int, j: int|
                0 <= i < assets.len() && 0 <= j < assets.len() && #[trigger] bytes_of(assets, i)
                    != #[trigger] bytes_of(assets, j);
            assert(smallest(sizes) < largest(sizes));
        }
    }
    if !any_video(assets) {
        assert(!all_videos(assets)) by {
            if all_videos(assets) {
                assert(is_video(assets[0]));
            }
        }
        let close = forall|i: int, j: int|
            0 <= i < assets.len() && 0 <= j < assets.len() ==> (#[trigger] bytes_of(assets, i)
                - #[trigger] bytes_of(assets, j)) * 1000 <= bytes_of(assets, i);
        if close {
            assert((bytes_of(assets, hi) - bytes_of(assets, lo)) * 1000 <= bytes_of(assets, hi));
        }
        if within_tolerance(sizes, auto_delete_max_size_gap()) {
            assert forall|i: int, j: int| 0 <= i < assets.len() && 0 <= j < assets.len() implies (
            #[trigger] bytes_of(assets, i) - #[trigger] bytes_of(assets, j)) * 1000 <= bytes_of(
                assets,
                i,
            ) by {
                assert(sizes[i] <= largest(sizes) && smallest(sizes) <= sizes[j]);
            }
        }
    }
}

/// A group is deleted from only where it is one of copies: no member is in a stack, all
/// have one file name, one known capture time and known sizes, in two folders at least.
pub proof fn law_what_a_deletion_takes(
    group: DuplicateGroup,
    stacked: Set<Seq<char>>,
    max_time_gap_secs: int,
    far: Seq<(usize, usize)>,
    times: Seq<Option<i64>>,
)
    requires
        times.len() == group.assets@.len(),
    ensures
        decision(group.assets@, stacked, max_time_gap_secs, far, times) is AutoDeleteDupes ==> {
            let assets = group.assets@;
            &&& forall|i: int|
                0 <= i < assets.len() ==> !stacked.contains((#[trigger] assets[i]).id@)
                    && assets[i].original_file_name@ == assets[0].original_file_name@
                    && assets[i].exif_info is Some && assets[i].exif_info->0.file_size_in_byte
                    is Some
            &&& forall|i: int|
                0 <= i < times.len() ==> (#[trigger] times[i]) is Some && times[i] == times[0]
            &&& exists|i: int, j: int|
                0 <= i < assets.len() && 0 <= j < assets.len() && folder(
                    (#[trigger] assets[i]).original_path@,
                ) != folder((#[trigger] assets[j]).original_path@)
        },
{
    let assets = group.assets@;
    if decision(assets, stacked, max_time_gap_secs, far, times) is AutoDeleteDupes {
        assert forall|i: int| 0 <= i < times.len() implies (#[trigger] times[i]) is Some && times[i]
            == times[0] by {
            assert(times[0] is Some);
            if times[i]->0 > times[0]->0 {
                assert(times[i]->0 - times[0]->0 > 0);
            }
            if times[i]->0 < times[0]->0 {
                assert(times[0]->0 - times[i]->0 > 0);
            }
        }
        assert forall|i: int| 0 <= i < assets.len() implies !stacked.contains(
            (#[trigger] assets[i]).id@,
        ) && assets[i].original_file_name@ == assets[0].original_file_name@ && assets[i].exif_info
            is Some && assets[i].exif_info->0.file_size_in_byte is Some by {
            assert(byte_size(assets[i]) is Some);
            assert(assets[0].original_file_name@ == assets[i].original_file_name@);
        }
    }
}

/// Every group that is left alone is so for the reason that is told of it, and a group
/// that is dismissed has two capture times more than six hours apart.
pub proof fn law_reasons_are_true(
    group: DuplicateGroup,
    stacked: Set<Seq<char>>,
    max_time_gap_secs: int,
    far: Seq<(usize, usize)>,
    times: Seq<Option<i64>>,
)
    requires
        times.len() == group.assets@.len(),
    ensures
        ({
            let assets = group.assets@;
            let d = decision(assets, stacked, max_time_gap_secs, far, times);
            &&& d == GroupDecision::Skip(SkipReason::TooFewAssets) <==> assets.len() < 2
            &&& d == GroupDecision::Skip(SkipReason::AlreadyStacked) <==> assets.len() >= 2
                && exists|i: int|
                0 <= i < assets.len() && stacked.contains((#[trigger] assets[i]).id@)
            &&& d == GroupDecision::Skip(SkipReason::ContainsVideo) ==> exists|i: int|
                0 <= i < assets.len() && is_video(#[trigger] assets[i])
            &&& d == GroupDecision::Skip(SkipReason::DifferentFolders) ==> exists|i: int, j: int|
                0 <= i < assets.len() && 0 <= j < assets.len() && folder(
                    (#[trigger] assets[i]).original_path@,
                ) != folder((#[trigger] assets[j]).original_path@)
            &&& d == GroupDecision::Skip(SkipReason::MissingCaptureTime) ==> exists|i: int|
                0 <= i < times.len() && (#[trigger] times[i]) is None
            &&& d == GroupDecision::Skip(SkipReason::TimeGapTooLarge) ==> exists|i: int, j: int|
                0 <= i < times.len() && 0 <= j < times.len() && (#[trigger] times[i])->0 - (
                #[trigger] times[j])->0 > max_time_gap_secs
            &&& d == GroupDecision::Skip(SkipReason::DistanceTooLarge) ==> (exists|k: int|
                0 <= k < far.len() && (#[trigger] far[k]).0 < far[k].1 < assets.len()) && forall|
                i: int,
            | 0 <= i < assets.len() ==> gps(#[trigger] assets[i]) is Some
            &&& d is KeepAll <==> assets.len() >= 2 && (forall|i: int|
                0 <= i < assets.len() ==> !stacked.contains((#[trigger] assets[i]).id@)) && (
            forall|i: int| 0 <= i < times.len() ==> (#[trigger] times[i]) is Some) && exists|
                i: int,
                j: int,
            |
                0 <= i < times.len() && 0 <= j < times.len() && (#[trigger] times[i])->0 - (
                #[trigger] times[j])->0 > 21600
        }),
{
}

/// A winner is picked exactly of those photos that lie in one folder, in no stack, were
/// captured at known times within the gap and within six hours, and are not known to lie
/// too far apart.
pub proof fn law_which_groups_are_considered(
    group: DuplicateGroup,
    stacked: Set<Seq<char>>,
    max_time_gap_secs: int,
    far: Seq<(usize, usize)>,
    times: Seq<Option<i64>>,
)
    requires
        times.len() == group.assets@.len(),
    ensures
        ({
            let assets = group.assets@;
            decision(assets, stacked, max_time_gap_secs, far, times) is Consider <==> {
                &&& assets.len() >= 2
                &&& forall|i: int|
                    0 <= i < assets.len() ==> !stacked.contains((#[trigger] assets[i]).id@)
                        && !is_video(assets[i])
                &&& forall|i: int, j: int|
                    0 <= i < assets.len() && 0 <= j < assets.len() ==> folder(
                        (#[trigger] assets[i]).original_path@,
                    ) == folder((#[trigger] assets[j]).original_path@)
                &&& forall|i: int| 0 <= i < times.len() ==> (#[trigger] times[i]) is Some
                &&& forall|i: int, j: int|
                    0 <= i < times.len() && 0 <= j < times.len() ==> (#[trigger] times[i])->0 - (
                    #[trigger] times[j])->0 <= max_time_gap_secs && times[i]->0 - times[j]->0
                        <= 21600
                &&& (exists|i: int| 0 <= i < assets.len() && gps(#[trigger] assets[i]) is None)
                    || forall|k: int|
                    0 <= k < far.len() ==> !((#[trigger] far[k]).0 < far[k].1 < assets.len())
            }
        }),
{
    let assets = group.assets@;
    if assets.len() >= 2 {
        assert(any_video(assets) || !all_videos(assets)) by {
            if all_videos(assets) {
                assert(is_video(assets[0]));
            }
        }
    }
}

/// Each member counts with its own capture time.
pub proof fn law_each_member_has_its_own_time(assets: Seq<Asset>, i: int)
    requires
        0 <= i < assets.len(),
    ensures
        capture_times(assets).len() == assets.len(),
        capture_times(assets)[i] == capture_time(assets[i]),
{
}

/// The reasons apply in their order: a video is told of only where none of the rules before
/// it fits, folders only where there is no video, and so on.
pub proof fn law_first_reason_counts(
    group: DuplicateGroup,
    stacked: Set<Seq<char>>,
    max_time_gap_secs: int,
    far: Seq<(usize, usize)>,
    times: Seq<Option<i64>>,
)
    requires
        times.len() == group.assets@.len(),
    ensures
        ({
            let assets = group.assets@;
            let d = decision(assets, stacked, max_time_gap_secs, far, times);
            let before = d == GroupDecision::Skip(SkipReason::TooFewAssets) || d
                == GroupDecision::Skip(SkipReason::AlreadyStacked) || d is KeepAll || d
                is AutoDeleteDupes;
            let video = exists|i: int| 0 <= i < assets.len() && is_video(#[trigger] assets[i]);
            let apart = exists|i: int, j: int|
                0 <= i < assets.len() && 0 <= j < assets.len() && folder(
                    (#[trigger] assets[i]).original_path@,
                ) != folder((#[trigger] assets[j]).original_path@);
            let unknown = exists|i: int| 0 <= i < times.len() && (#[trigger] times[i]) is None;
            let wide = exists|i: int, j: int|
                0 <= i < times.len() && 0 <= j < times.len() && (#[trigger] times[i])->0 - (
                #[trigger] times[j])->0 > max_time_gap_secs;
            &&& d == GroupDecision::Skip(SkipReason::ContainsVideo) <==> !before && video
            &&& d == GroupDecision::Skip(SkipReason::DifferentFolders) <==> !before && !video
                && apart
            &&& d == GroupDecision::Skip(SkipReason::MissingCaptureTime) <==> !before && !video
                && !apart && unknown
            &&& d == GroupDecision::Skip(SkipReason::TimeGapTooLarge) <==> !before && !video
                && !apart && !unknown && wide
            &&& d == GroupDecision::Skip(SkipReason::DistanceTooLarge) || d is Consider <==> !before
                && !video && !apart && !unknown && !wide
        }),
{
    let assets = group.assets@;
    let d = decision(assets, stacked, max_time_gap_secs, far, times);
    assert(one_folder(assets) <==> !(exists|i: int, j: int|
        0 <= i < assets.len() && 0 <= j < assets.len() && folder(
            (#[trigger] assets[i]).original_path@,
        ) != folder((#[trigger] assets[j]).original_path@)));
    assert(all_known(times) <==> !(exists|i: int|
        0 <= i < times.len() && (#[trigger] times[i]) is None));
}

} // verus!
