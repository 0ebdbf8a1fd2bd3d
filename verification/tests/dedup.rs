use immich_cli::client::{CaptionBackend, DedupWriteBackend};
use immich_cli::commands::dedup::classify::{collect_sizes, parent_dir};
use immich_cli::commands::dedup::plan::{
    build_pick_user_prompt, build_stack_order, compute_gps_backfill, parse_pick_response,
    pick_winner_by_size, plan_group,
};
use immich_cli::commands::dedup::run::WorkCounts;
use immich_cli::commands::dedup::{
    begin, classify_group, finish, parse_capture_seconds, run_with, sizes_within_tolerance,
    DedupArgs, Fraction, GroupDecision, PickReason, Ratio, SkipReason,
};
use immich_cli::error::Error;
use immich_cli::ids::IdSet;
use immich_cli::llm::MultiImageVisionLlm;
use immich_cli::models::{Asset, Degrees, DuplicateGroup, ExifInfo, Stack, StackMember};
use std::collections::HashMap;
use std::sync::Mutex;

const HALF: Ratio = Ratio { num: 1, den: 2 };

fn degrees(v: f64) -> Degrees {
    Degrees {
        number: format!("{v:?}"),
        six_decimals: format!("{v:.6}"),
    }
}

fn value(d: &Degrees) -> f64 {
    d.number.parse().unwrap()
}

/// The distance in metres on a sphere.
fn haversine(lat1: f64, lng1: f64, lat2: f64, lng2: f64) -> f64 {
    let (p1, p2) = (lat1.to_radians(), lat2.to_radians());
    let dp = (lat2 - lat1).to_radians();
    let dl = (lng2 - lng1).to_radians();
    let a = (dp / 2.0).sin().powi(2) + p1.cos() * p2.cos() * (dl / 2.0).sin().powi(2);
    6_371_000.0 * 2.0 * a.sqrt().atan2((1.0 - a).sqrt())
}

fn far_pairs(g: &DuplicateGroup, max_m: f64) -> Vec<(usize, usize)> {
    let at = |a: &Asset| {
        let e = a.exif_info.as_ref()?;
        Some((value(e.latitude.as_ref()?), value(e.longitude.as_ref()?)))
    };
    let mut out = Vec::new();
    for i in 0..g.assets.len() {
        for j in i + 1..g.assets.len() {
            if let (Some(p), Some(q)) = (at(&g.assets[i]), at(&g.assets[j])) {
                if haversine(p.0, p.1, q.0, q.1) > max_m {
                    out.push((i, j));
                }
            }
        }
    }
    out
}

fn classify(g: &DuplicateGroup, stacked: &IdSet, gap: i64, max_m: f64) -> GroupDecision {
    classify_group(g, stacked, gap, &far_pairs(g, max_m))
}

fn asset(id: &str, path: &str) -> Asset {
    Asset {
        id: id.into(),
        original_path: path.into(),
        original_file_name: path.rsplit('/').next().unwrap_or(path).into(),
        asset_type: "IMAGE".into(),
        file_created_at: None,
        local_date_time: Some("2024-03-12T17:08:42".into()),
        checksum: String::new(),
        exif_info: Some(ExifInfo {
            city: None,
            state: None,
            country: None,
            latitude: None,
            longitude: None,
            description: None,
            date_time_original: Some("2024-03-12T17:08:42".into()),
            file_size_in_byte: None,
        }),
    }
}

fn video(id: &str, path: &str) -> Asset {
    let mut a = asset(id, path);
    a.asset_type = "VIDEO".into();
    a
}

fn with_time(mut a: Asset, t: &str) -> Asset {
    if let Some(e) = a.exif_info.as_mut() {
        e.date_time_original = Some(t.into());
    }
    a.local_date_time = Some(t.into());
    a
}

fn with_size(mut a: Asset, sz: u64) -> Asset {
    if let Some(e) = a.exif_info.as_mut() {
        e.file_size_in_byte = Some(sz);
    }
    a
}

fn with_gps(mut a: Asset, lat: f64, lng: f64) -> Asset {
    if let Some(e) = a.exif_info.as_mut() {
        e.latitude = Some(degrees(lat));
        e.longitude = Some(degrees(lng));
    }
    a
}

fn group(id: &str, assets: Vec<Asset>) -> DuplicateGroup {
    DuplicateGroup {
        duplicate_id: id.into(),
        assets,
    }
}

#[test]
fn parent_dir_strips_filename() {
    assert_eq!(parent_dir("/a/b/c.jpg"), "/a/b");
    assert_eq!(parent_dir("/a/b/"), "/a/b");
    assert_eq!(parent_dir("foo.jpg"), "");
}

#[test]
fn parse_capture_seconds_accepts_both_with_and_without_millis() {
    let a = parse_capture_seconds("2024-03-12T17:08:42").unwrap();
    let b = parse_capture_seconds("2024-03-12T17:08:42.000").unwrap();
    assert_eq!(a, b);
}

#[test]
fn parse_capture_seconds_accepts_rfc3339_zulu_and_offset() {
    // Z and +08:00 must both parse to the same absolute instant.
    let zulu = parse_capture_seconds("2024-03-12T09:08:42.000Z").unwrap();
    let plus8 = parse_capture_seconds("2024-03-12T17:08:42.000+08:00").unwrap();
    assert_eq!(zulu, plus8, "Z and +08:00 should denote the same instant");
    // And without sub-second.
    let zulu_nofrac = parse_capture_seconds("2024-03-12T09:08:42Z").unwrap();
    assert_eq!(zulu_nofrac, zulu);
}

#[test]
fn classify_skip_video() {
    let mut v = asset("v", "/p/a.mp4");
    v.asset_type = "VIDEO".into();
    let g = group("g", vec![asset("a", "/p/a.jpg"), v]);
    let dec = classify(&g, &IdSet::new(), 600, 500.0);
    assert_eq!(dec, GroupDecision::Skip(SkipReason::ContainsVideo));
}

#[test]
fn classify_skip_different_folders() {
    let g = group(
        "g",
        vec![asset("a", "/p/a.jpg"), asset("b", "/q/b.jpg")],
    );
    let dec = classify(&g, &IdSet::new(), 600, 500.0);
    assert_eq!(dec, GroupDecision::Skip(SkipReason::DifferentFolders));
}

#[test]
fn classify_skip_time_gap() {
    let g = group(
        "g",
        vec![
            with_time(asset("a", "/p/a.jpg"), "2024-03-12T17:08:42"),
            with_time(asset("b", "/p/b.jpg"), "2024-03-12T17:30:00"),
        ],
    );
    let dec = classify(&g, &IdSet::new(), 600, 500.0);
    assert_eq!(dec, GroupDecision::Skip(SkipReason::TimeGapTooLarge));
}

#[test]
fn classify_keep_all_when_time_spread_exceeds_six_hours() {
    // > 6h spread: KeepAll so the runner detaches duplicateId on
    // the server, regardless of an over-permissive --max-time-gap-secs.
    let g = group(
        "g",
        vec![
            with_time(asset("a", "/p/a.jpg"), "2024-03-12T10:00:00"),
            with_time(asset("b", "/p/b.jpg"), "2024-03-12T16:00:01"),
        ],
    );
    let dec = classify(&g, &IdSet::new(), i64::MAX, 500.0);
    assert_eq!(dec, GroupDecision::KeepAll);
}

#[test]
fn classify_six_hour_guard_blocks_auto_delete() {
    // Cross-folder same-name+same-size would normally auto-delete,
    // but with a > 6h capture-time spread we KeepAll instead.
    let g = group(
        "g",
        vec![
            with_time(
                with_size(asset("a", "/x/IMG_1.jpg"), 2_000_000),
                "2024-03-12T10:00:00",
            ),
            with_time(
                with_size(asset("b", "/y/IMG_1.jpg"), 2_000_000),
                "2024-03-12T17:00:00",
            ),
        ],
    );
    let dec = classify(&g, &IdSet::new(), 600, 500.0);
    assert_eq!(dec, GroupDecision::KeepAll);
}

#[test]
fn classify_skip_distance() {
    let g = group(
        "g",
        vec![
            with_gps(asset("a", "/p/a.jpg"), 31.0, 121.0),
            with_gps(asset("b", "/p/b.jpg"), 31.02, 121.0), // ~2.2km
        ],
    );
    let dec = classify(&g, &IdSet::new(), 600, 500.0);
    assert_eq!(dec, GroupDecision::Skip(SkipReason::DistanceTooLarge));
}

#[test]
fn classify_skip_already_stacked() {
    let g = group(
        "g",
        vec![asset("a", "/p/a.jpg"), asset("b", "/p/b.jpg")],
    );
    let mut stacked = IdSet::new();
    stacked.insert("b");
    let dec = classify(&g, &stacked, 600, 500.0);
    assert_eq!(dec, GroupDecision::Skip(SkipReason::AlreadyStacked));
}

#[test]
fn classify_keeps_group_when_partial_gps() {
    // One GPS, one missing — should NOT skip on distance.
    let g = group(
        "g",
        vec![
            with_gps(asset("a", "/p/a.jpg"), 31.0, 121.0),
            asset("b", "/p/b.jpg"),
        ],
    );
    let dec = classify(&g, &IdSet::new(), 600, 500.0);
    assert_eq!(dec, GroupDecision::Consider);
}

#[test]
fn classify_keeps_well_formed_group() {
    let g = group(
        "g",
        vec![
            with_gps(asset("a", "/p/a.jpg"), 31.0, 121.0),
            with_gps(asset("b", "/p/b.jpg"), 31.0001, 121.0001),
        ],
    );
    let dec = classify(&g, &IdSet::new(), 600, 500.0);
    assert_eq!(dec, GroupDecision::Consider);
}

#[test]
fn classify_auto_deletes_same_name_same_time_same_size_diff_folder_prefers_gps() {
    // Same basename, same capture time, same byte size, two folders.
    // Only b has GPS, so b must be the keeper even though a comes
    // first.
    let g = group(
        "g",
        vec![
            with_size(asset("a", "/x/IMG_001.jpg"), 2_000_000),
            with_size(with_gps(asset("b", "/y/IMG_001.jpg"), 31.0, 121.0), 2_000_000),
        ],
    );
    let dec = classify(&g, &IdSet::new(), 600, 500.0);
    assert_eq!(dec, GroupDecision::AutoDeleteDupes { keeper_idx: 1, gps_backfill: None });
}

#[test]
fn classify_auto_deletes_all_with_gps_picks_first() {
    // All three have GPS → "随便选一张" → the first (index 0).
    let g = group(
        "g",
        vec![
            with_size(with_gps(asset("a", "/x/IMG_1.jpg"), 31.0, 121.0), 2_000_000),
            with_size(with_gps(asset("b", "/y/IMG_1.jpg"), 31.0, 121.0), 2_000_000),
            with_size(with_gps(asset("c", "/z/IMG_1.jpg"), 31.0, 121.0), 2_000_000),
        ],
    );
    let dec = classify(&g, &IdSet::new(), 600, 500.0);
    assert_eq!(dec, GroupDecision::AutoDeleteDupes { keeper_idx: 0, gps_backfill: None });
}

#[test]
fn classify_auto_deletes_none_with_gps_picks_first() {
    // None have GPS — still safe to dedupe by hand, keep the first.
    let g = group(
        "g",
        vec![
            with_size(asset("a", "/x/IMG_1.jpg"), 2_000_000),
            with_size(asset("b", "/y/IMG_1.jpg"), 2_000_000),
        ],
    );
    let dec = classify(&g, &IdSet::new(), 600, 500.0);
    assert_eq!(dec, GroupDecision::AutoDeleteDupes { keeper_idx: 0, gps_backfill: None });
}

#[test]
fn classify_does_not_auto_delete_when_sizes_differ() {
    // Same name + same time + different folder but DIFFERENT sizes
    // — the classic /raw/ vs /retouched/ pair. Must fall through
    // to the normal folder skip, not auto-delete.
    let g = group(
        "g",
        vec![
            with_size(asset("a", "/raw/IMG_1.jpg"), 5_000_000),
            with_size(asset("b", "/retouched/IMG_1.jpg"), 3_000_000),
        ],
    );
    let dec = classify(&g, &IdSet::new(), 600, 500.0);
    assert_eq!(dec, GroupDecision::Skip(SkipReason::DifferentFolders));
}

#[test]
fn classify_auto_deletes_when_sizes_differ_within_tolerance() {
    // 2_000_000 vs 2_001_000 → 0.05% gap, under the 0.1% ceiling.
    // EXIF-rewrite shouldn't block the rule.
    let g = group(
        "g",
        vec![
            with_size(asset("a", "/x/IMG_1.jpg"), 2_000_000),
            with_size(asset("b", "/y/IMG_1.jpg"), 2_001_000),
        ],
    );
    let dec = classify(&g, &IdSet::new(), 600, 500.0);
    assert_eq!(dec, GroupDecision::AutoDeleteDupes { keeper_idx: 0, gps_backfill: None });
}

#[test]
fn classify_does_not_auto_delete_when_sizes_just_outside_tolerance() {
    // 2_000_000 vs 2_010_000 → 0.5% gap, over the 0.1% ceiling.
    let g = group(
        "g",
        vec![
            with_size(asset("a", "/x/IMG_1.jpg"), 2_000_000),
            with_size(asset("b", "/y/IMG_1.jpg"), 2_010_000),
        ],
    );
    let dec = classify(&g, &IdSet::new(), 600, 500.0);
    assert_eq!(dec, GroupDecision::Skip(SkipReason::DifferentFolders));
}

#[test]
fn classify_does_not_auto_delete_when_any_size_missing() {
    // Without a size we can't prove byte-equality, so be safe.
    let g = group(
        "g",
        vec![
            with_size(asset("a", "/x/IMG_1.jpg"), 2_000_000),
            asset("b", "/y/IMG_1.jpg"),
        ],
    );
    let dec = classify(&g, &IdSet::new(), 600, 500.0);
    assert_eq!(dec, GroupDecision::Skip(SkipReason::DifferentFolders));
}

#[test]
fn classify_auto_deletes_video_keeps_largest_no_backfill_needed() {
    // Two videos, same name + same time, different folders, sizes
    // differ. Keeper = larger (b). Both have GPS → no backfill.
    let g = group(
        "g",
        vec![
            with_size(with_gps(video("a", "/x/VID.mp4"), 31.0, 121.0), 5_000_000),
            with_size(with_gps(video("b", "/y/VID.mp4"), 31.0, 121.0), 9_000_000),
        ],
    );
    let dec = classify(&g, &IdSet::new(), 600, 500.0);
    assert_eq!(
        dec,
        GroupDecision::AutoDeleteDupes { keeper_idx: 1, gps_backfill: None }
    );
}

#[test]
fn classify_auto_deletes_video_backfills_gps_to_keeper() {
    // Keeper (larger) has no GPS; sibling does → must plan a
    // backfill onto the keeper before deletion.
    let g = group(
        "g",
        vec![
            with_size(with_gps(video("a", "/x/VID.mp4"), 31.5, 121.5), 5_000_000),
            with_size(video("b", "/y/VID.mp4"), 9_000_000),
        ],
    );
    let dec = classify(&g, &IdSet::new(), 600, 500.0);
    assert_eq!(
        dec,
        GroupDecision::AutoDeleteDupes {
            keeper_idx: 1,
            gps_backfill: Some((degrees(31.5), degrees(121.5))),
        }
    );
}

#[test]
fn classify_does_not_auto_delete_videos_when_sizes_equal() {
    // Equal-size videos: user explicitly wanted size-DIFFERS as the
    // trigger, so this falls through to the ContainsVideo skip.
    let g = group(
        "g",
        vec![
            with_size(video("a", "/x/VID.mp4"), 5_000_000),
            with_size(video("b", "/y/VID.mp4"), 5_000_000),
        ],
    );
    let dec = classify(&g, &IdSet::new(), 600, 500.0);
    assert_eq!(dec, GroupDecision::Skip(SkipReason::ContainsVideo));
}

#[test]
fn classify_does_not_auto_delete_videos_when_names_differ() {
    let g = group(
        "g",
        vec![
            with_size(video("a", "/x/VID_1.mp4"), 5_000_000),
            with_size(video("b", "/y/VID_2.mp4"), 9_000_000),
        ],
    );
    let dec = classify(&g, &IdSet::new(), 600, 500.0);
    assert_eq!(dec, GroupDecision::Skip(SkipReason::ContainsVideo));
}

#[test]
fn classify_does_not_auto_delete_mixed_image_video_group() {
    // One image + one video → not all-videos → falls through to
    // ContainsVideo skip even with matching name/time.
    let g = group(
        "g",
        vec![
            with_size(asset("a", "/x/foo.jpg"), 5_000_000),
            with_size(video("b", "/y/foo.jpg"), 9_000_000),
        ],
    );
    let dec = classify(&g, &IdSet::new(), 600, 500.0);
    assert_eq!(dec, GroupDecision::Skip(SkipReason::ContainsVideo));
}

#[test]
fn classify_does_not_auto_delete_when_filenames_differ() {
    // Same folder pair, different filenames → fall through to the
    // usual DifferentFolders skip.
    let g = group(
        "g",
        vec![
            asset("a", "/x/IMG_1.jpg"),
            asset("b", "/y/IMG_2.jpg"),
        ],
    );
    let dec = classify(&g, &IdSet::new(), 600, 500.0);
    assert_eq!(dec, GroupDecision::Skip(SkipReason::DifferentFolders));
}

#[test]
fn classify_does_not_auto_delete_when_capture_times_differ() {
    let g = group(
        "g",
        vec![
            with_time(asset("a", "/x/IMG_1.jpg"), "2024-03-12T17:08:42"),
            with_time(asset("b", "/y/IMG_1.jpg"), "2024-03-12T17:08:43"),
        ],
    );
    let dec = classify(&g, &IdSet::new(), 600, 500.0);
    // Same filename, but times differ by 1s → not an exact dup.
    // Two folders, two times in the same gap → falls into
    // DifferentFolders skip.
    assert_eq!(dec, GroupDecision::Skip(SkipReason::DifferentFolders));
}

#[test]
fn size_pick_short_circuits_when_one_much_larger() {
    let g = group(
        "g",
        vec![
            with_size(asset("a", "/p/a.jpg"), 1_000_000),
            with_size(asset("b", "/p/b.jpg"), 3_000_000),
            with_size(asset("c", "/p/c.jpg"), 1_500_000),
        ],
    );
    // 1 - 1/3 = 0.666... > 0.5 → pick index 1
    assert_eq!(pick_winner_by_size(&g, HALF), Some(1));
}

#[test]
fn size_pick_returns_none_when_close() {
    let g = group(
        "g",
        vec![
            with_size(asset("a", "/p/a.jpg"), 1_000_000),
            with_size(asset("b", "/p/b.jpg"), 1_200_000),
        ],
    );
    assert_eq!(pick_winner_by_size(&g, HALF), None);
}

#[test]
fn size_pick_returns_none_when_any_size_missing() {
    let g = group(
        "g",
        vec![
            with_size(asset("a", "/p/a.jpg"), 1_000_000),
            asset("b", "/p/b.jpg"),
        ],
    );
    assert_eq!(pick_winner_by_size(&g, HALF), None);
}

#[test]
fn parse_pick_response_extracts_index_and_reason() {
    let raw = r#"{"winner_index": 1, "reason": "构图更稳"}"#;
    let (idx, reason) = parse_pick_response(raw, 3).unwrap();
    assert_eq!(idx, 1);
    assert_eq!(reason, "构图更稳");
}

#[test]
fn parse_pick_response_tolerates_markdown_fence() {
    let raw = "```json\n{\"winner_index\": 0, \"reason\": \"x\"}\n```";
    let (idx, _) = parse_pick_response(raw, 2).unwrap();
    assert_eq!(idx, 0);
}

#[test]
fn parse_pick_response_rejects_out_of_range() {
    let raw = r#"{"winner_index": 5, "reason": "x"}"#;
    assert!(parse_pick_response(raw, 2).is_err());
}

#[test]
fn gps_backfill_when_some_missing() {
    let g = group(
        "g",
        vec![
            with_gps(asset("a", "/p/a.jpg"), 31.0, 121.0),
            asset("b", "/p/b.jpg"),
            asset("c", "/p/c.jpg"),
        ],
    );
    // winner is index 0 (which has GPS)
    let backfill = compute_gps_backfill(&g, 0);
    assert_eq!(backfill.len(), 2);
    assert_eq!(backfill[0].asset_id, "b");
    assert_eq!(backfill[0].latitude, degrees(31.0));
    assert_eq!(backfill[1].asset_id, "c");
}

#[test]
fn gps_backfill_uses_sibling_when_winner_missing() {
    let g = group(
        "g",
        vec![
            asset("a", "/p/a.jpg"),
            with_gps(asset("b", "/p/b.jpg"), 30.0, 120.0),
        ],
    );
    // winner is index 0 (no GPS); should still backfill onto 'a'
    // using b's coords. With "any with GPS" as source, we expect:
    //   - a gets backfilled from b
    let backfill = compute_gps_backfill(&g, 0);
    assert_eq!(backfill.len(), 1);
    assert_eq!(backfill[0].asset_id, "a");
    assert_eq!(backfill[0].latitude, degrees(30.0));
}

#[test]
fn gps_backfill_empty_when_none_have_gps() {
    let g = group("g", vec![asset("a", "/p/a.jpg"), asset("b", "/p/b.jpg")]);
    assert!(compute_gps_backfill(&g, 0).is_empty());
}

#[test]
fn gps_backfill_empty_when_all_have_gps() {
    let g = group(
        "g",
        vec![
            with_gps(asset("a", "/p/a.jpg"), 31.0, 121.0),
            with_gps(asset("b", "/p/b.jpg"), 31.0001, 121.0001),
        ],
    );
    assert!(compute_gps_backfill(&g, 0).is_empty());
}

#[test]
fn stack_order_puts_winner_first() {
    let g = group(
        "g",
        vec![
            asset("a", "/p/a.jpg"),
            asset("b", "/p/b.jpg"),
            asset("c", "/p/c.jpg"),
        ],
    );
    let order = build_stack_order(&g, 1);
    assert_eq!(order, vec!["b", "a", "c"]);
}

// ---- end-to-end via run_with --------------------------------------

/// The log of a run, with pairs further apart than 500 m named.
fn run(
    dups: &FakeDuplicates,
    stacks: &FakeStacks,
    caption: &FakeCaption,
    write: &FakeWrite,
    vision: &FakeVision,
    args: DedupArgs,
) -> Result<String, Error> {
    let far: Vec<Vec<(usize, usize)>> = dups.groups.iter().map(|g| far_pairs(g, 500.0)).collect();
    run_with(
        &dups.groups,
        &stacks.stacks,
        &far,
        caption,
        write,
        vision,
        &args,
    )
    .map(|report| report.log)
}

struct FakeDuplicates {
    groups: Vec<DuplicateGroup>,
}
struct FakeStacks {
    stacks: Vec<Stack>,
}
struct FakeCaption;
impl CaptionBackend for FakeCaption {
    fn thumbnail(&self, _id: &str) -> Result<Vec<u8>, Error> {
        Ok(vec![0u8; 16])
    }
    fn update_description(&self, _id: &str, _description: &str) -> Result<(), Error> {
        Ok(())
    }
}

#[derive(Default)]
struct FakeWrite {
    locations: Mutex<Vec<(String, f64, f64)>>,
    stacks: Mutex<Vec<Vec<String>>>,
    deletes: Mutex<Vec<Vec<String>>>,
    dismissed_groups: Mutex<Vec<String>>,
}
impl DedupWriteBackend for FakeWrite {
    fn update_asset_location(
        &self,
        id: &str,
        latitude: &Degrees,
        longitude: &Degrees,
    ) -> Result<(), Error> {
        self.locations
            .lock()
            .unwrap()
            .push((id.into(), value(latitude), value(longitude)));
        Ok(())
    }
    fn create_stack(&self, asset_ids: &Vec<String>) -> Result<Stack, Error> {
        self.stacks.lock().unwrap().push(asset_ids.to_vec());
        Ok(Stack {
            primary_asset_id: asset_ids[0].clone(),
            assets: asset_ids
                .iter()
                .map(|id| StackMember { id: id.clone() })
                .collect(),
        })
    }
    fn delete_assets(&self, ids: &Vec<String>) -> Result<(), Error> {
        self.deletes.lock().unwrap().push(ids.to_vec());
        Ok(())
    }
    fn dismiss_duplicate_group(&self, duplicate_id: &str) -> Result<(), Error> {
        self.dismissed_groups
            .lock()
            .unwrap()
            .push(duplicate_id.into());
        Ok(())
    }
}

/// Vision fake: returns a winner_index per duplicate_id (or a default).
struct FakeVision {
    replies: HashMap<String, usize>,
    default_idx: usize,
    calls: Mutex<u32>,
}
impl MultiImageVisionLlm for FakeVision {
    fn pick_best(
        &self,
        _system_prompt: &str,
        user_prompt: &str,
        images: &Vec<(Vec<u8>, String)>,
        _max_tokens: u32,
    ) -> Result<String, Error> {
        *self.calls.lock().unwrap() += 1;
        // The fake doesn't know which group it is; index by call count.
        let _ = user_prompt;
        let _ = images;
        let idx = self
            .replies
            .values()
            .next()
            .copied()
            .unwrap_or(self.default_idx);
        Ok(format!(r#"{{"winner_index": {idx}, "reason": "fake"}}"#))
    }
    fn rank_images(
        &self,
        _system_prompt: &str,
        _user_prompt: &str,
        _items: &Vec<(String, Vec<u8>, String)>,
        _max_tokens: u32,
    ) -> Result<String, Error> {
        unreachable!("dedup never calls rank_images")
    }
}

fn args(apply: bool) -> DedupArgs {
    DedupArgs {
        apply,
        max_time_gap_secs: 600,
        max_distance_m: Fraction { num: 500, den: 1 },
        size_ratio: Fraction { num: 1, den: 2 },
        limit: 0,
        parallel: 1,
        verbose: true,
    }
}

#[test]
fn run_with_dry_run_does_not_write() {
    let dups = FakeDuplicates {
        groups: vec![group(
            "g1",
            vec![
                with_size(asset("a", "/p/a.jpg"), 3_000_000),
                with_size(asset("b", "/p/b.jpg"), 1_000_000),
            ],
        )],
    };
    let stacks = FakeStacks { stacks: vec![] };
    let caption = FakeCaption;
    let write = FakeWrite::default();
    let vision = FakeVision {
        replies: HashMap::new(),
        default_idx: 0,
        calls: Mutex::new(0),
    };
    let s = run(&dups, &stacks, &caption, &write, &vision, args(false)).unwrap();
    assert!(write.locations.lock().unwrap().is_empty());
    assert!(write.stacks.lock().unwrap().is_empty());
    assert!(s.contains("DRY-RUN"), "{s}");
    // Size short-circuit fired → vision NOT called.
    assert_eq!(*vision.calls.lock().unwrap(), 0);
}

#[test]
fn run_with_apply_creates_stack_winner_first() {
    let dups = FakeDuplicates {
        groups: vec![group(
            "g1",
            vec![
                with_size(asset("small", "/p/a.jpg"), 1_000_000),
                with_size(asset("big", "/p/b.jpg"), 3_000_000),
            ],
        )],
    };
    let stacks = FakeStacks { stacks: vec![] };
    let caption = FakeCaption;
    let write = FakeWrite::default();
    let vision = FakeVision {
        replies: HashMap::new(),
        default_idx: 0,
        calls: Mutex::new(0),
    };
    run(&dups, &stacks, &caption, &write, &vision, args(true)).unwrap();
    let posts = write.stacks.lock().unwrap().clone();
    assert_eq!(posts.len(), 1);
    assert_eq!(posts[0][0], "big", "winner must be first (cover)");
    assert_eq!(posts[0].len(), 2);
}

#[test]
fn run_with_apply_backfills_gps_then_stacks() {
    let dups = FakeDuplicates {
        groups: vec![group(
            "g1",
            vec![
                with_size(with_gps(asset("withgps", "/p/a.jpg"), 31.0, 121.0), 3_000_000),
                with_size(asset("nogps", "/p/b.jpg"), 1_000_000),
            ],
        )],
    };
    let stacks = FakeStacks { stacks: vec![] };
    let caption = FakeCaption;
    let write = FakeWrite::default();
    let vision = FakeVision {
        replies: HashMap::new(),
        default_idx: 0,
        calls: Mutex::new(0),
    };
    run(&dups, &stacks, &caption, &write, &vision, args(true)).unwrap();
    let locs = write.locations.lock().unwrap().clone();
    assert_eq!(locs.len(), 1);
    assert_eq!(locs[0].0, "nogps");
    assert_eq!(locs[0].1, 31.0);
    assert_eq!(locs[0].2, 121.0);
}

#[test]
fn run_with_skips_video_group_without_calling_vision() {
    let mut vid = asset("v", "/p/a.mp4");
    vid.asset_type = "VIDEO".into();
    let dups = FakeDuplicates {
        groups: vec![group("g1", vec![asset("a", "/p/a.jpg"), vid])],
    };
    let stacks = FakeStacks { stacks: vec![] };
    let caption = FakeCaption;
    let write = FakeWrite::default();
    let vision = FakeVision {
        replies: HashMap::new(),
        default_idx: 0,
        calls: Mutex::new(0),
    };
    let s = run(&dups, &stacks, &caption, &write, &vision, args(true)).unwrap();
    assert!(write.stacks.lock().unwrap().is_empty());
    assert_eq!(*vision.calls.lock().unwrap(), 0);
    assert!(s.contains("ContainsVideo"), "{s}");
}

#[test]
fn run_with_skips_already_stacked_groups() {
    let dups = FakeDuplicates {
        groups: vec![group(
            "g1",
            vec![
                with_size(asset("x", "/p/a.jpg"), 3_000_000),
                with_size(asset("y", "/p/b.jpg"), 1_000_000),
            ],
        )],
    };
    let stacks = FakeStacks {
        stacks: vec![Stack {
            primary_asset_id: "x".into(),
            assets: vec![StackMember { id: "x".into() }, StackMember { id: "z".into() }],
        }],
    };
    let caption = FakeCaption;
    let write = FakeWrite::default();
    let vision = FakeVision {
        replies: HashMap::new(),
        default_idx: 0,
        calls: Mutex::new(0),
    };
    run(&dups, &stacks, &caption, &write, &vision, args(true)).unwrap();
    assert!(write.stacks.lock().unwrap().is_empty());
}

#[test]
fn run_with_vision_picks_when_sizes_close() {
    let dups = FakeDuplicates {
        groups: vec![group(
            "g1",
            vec![
                with_size(asset("a", "/p/a.jpg"), 2_000_000),
                with_size(asset("b", "/p/b.jpg"), 2_100_000),
            ],
        )],
    };
    let stacks = FakeStacks { stacks: vec![] };
    let caption = FakeCaption;
    let write = FakeWrite::default();
    let vision = FakeVision {
        replies: HashMap::new(),
        default_idx: 1, // winner = b
        calls: Mutex::new(0),
    };
    run(&dups, &stacks, &caption, &write, &vision, args(true)).unwrap();
    assert_eq!(*vision.calls.lock().unwrap(), 1);
    let posts = write.stacks.lock().unwrap().clone();
    assert_eq!(posts[0][0], "b");
}

#[test]
fn run_with_parallel_handles_many_groups() {
    // 8 size-decidable groups, 4 workers. Verifies the parallel
    // path doesn't lose work and that the totals add up.
    let mut groups = Vec::new();
    for i in 0..8 {
        groups.push(group(
            &format!("g{i}"),
            vec![
                with_size(asset(&format!("a{i}"), &format!("/p/a{i}.jpg")), 3_000_000),
                with_size(asset(&format!("b{i}"), &format!("/p/b{i}.jpg")), 1_000_000),
            ],
        ));
    }
    let dups = FakeDuplicates { groups };
    let stacks = FakeStacks { stacks: vec![] };
    let caption = FakeCaption;
    let write = FakeWrite::default();
    let vision = FakeVision {
        replies: HashMap::new(),
        default_idx: 0,
        calls: Mutex::new(0),
    };
    let mut a = args(true);
    a.parallel = 4;
    run(&dups, &stacks, &caption, &write, &vision, a).unwrap();
    // Size short-circuits → no vision calls.
    assert_eq!(*vision.calls.lock().unwrap(), 0);
    // Every group produced exactly one stack, winner first.
    let posts = write.stacks.lock().unwrap().clone();
    assert_eq!(posts.len(), 8);
    for ids in &posts {
        assert_eq!(ids.len(), 2);
        assert!(ids[0].starts_with('a'), "winner must be the larger 'a' asset, got {:?}", ids);
    }
}

#[test]
fn run_with_apply_auto_deletes_cross_folder_dupes_and_keeps_gps() {
    // Same basename + same time + same size, two folders, one has
    // GPS — auto delete must fire, the GPS asset stays, no stack
    // is created, no vision call is made.
    let dups = FakeDuplicates {
        groups: vec![group(
            "g1",
            vec![
                with_size(asset("plain", "/x/IMG_001.jpg"), 2_000_000),
                with_size(with_gps(asset("withgps", "/y/IMG_001.jpg"), 31.0, 121.0), 2_000_000),
            ],
        )],
    };
    let stacks = FakeStacks { stacks: vec![] };
    let caption = FakeCaption;
    let write = FakeWrite::default();
    let vision = FakeVision {
        replies: HashMap::new(),
        default_idx: 0,
        calls: Mutex::new(0),
    };
    let s = run(&dups, &stacks, &caption, &write, &vision, args(true)).unwrap();

    let deletes = write.deletes.lock().unwrap().clone();
    assert_eq!(deletes, vec![vec!["plain".to_string()]]);
    assert!(write.stacks.lock().unwrap().is_empty());
    assert_eq!(*vision.calls.lock().unwrap(), 0);
    assert!(s.contains("AUTO-DELETE"), "{s}");
}

#[test]
fn run_with_apply_video_auto_delete_backfills_gps_then_deletes() {
    // Two videos, same name+time+folders differ, sizes differ.
    // Keeper is the larger one (b). a has GPS, b doesn't → must
    // PUT a's coords onto b BEFORE deleting a. No stack, no
    // vision call.
    let dups = FakeDuplicates {
        groups: vec![group(
            "g1",
            vec![
                with_size(with_gps(video("a", "/x/VID.mp4"), 31.5, 121.5), 5_000_000),
                with_size(video("b", "/y/VID.mp4"), 9_000_000),
            ],
        )],
    };
    let stacks = FakeStacks { stacks: vec![] };
    let caption = FakeCaption;
    let write = FakeWrite::default();
    let vision = FakeVision {
        replies: HashMap::new(),
        default_idx: 0,
        calls: Mutex::new(0),
    };
    run(&dups, &stacks, &caption, &write, &vision, args(true)).unwrap();

    let locs = write.locations.lock().unwrap().clone();
    assert_eq!(locs, vec![("b".to_string(), 31.5, 121.5)]);
    let deletes = write.deletes.lock().unwrap().clone();
    assert_eq!(deletes, vec![vec!["a".to_string()]]);
    assert!(write.stacks.lock().unwrap().is_empty());
    assert_eq!(*vision.calls.lock().unwrap(), 0);
}

#[test]
fn run_with_dry_run_does_not_delete_cross_folder_dupes() {
    let dups = FakeDuplicates {
        groups: vec![group(
            "g1",
            vec![
                with_size(asset("a", "/x/IMG.jpg"), 2_000_000),
                with_size(asset("b", "/y/IMG.jpg"), 2_000_000),
            ],
        )],
    };
    let stacks = FakeStacks { stacks: vec![] };
    let caption = FakeCaption;
    let write = FakeWrite::default();
    let vision = FakeVision {
        replies: HashMap::new(),
        default_idx: 0,
        calls: Mutex::new(0),
    };
    let s = run(&dups, &stacks, &caption, &write, &vision, args(false)).unwrap();
    assert!(write.deletes.lock().unwrap().is_empty());
    assert!(s.contains("DRY-RUN AUTO-DELETE"), "{s}");
}

#[test]
fn run_with_apply_dismisses_duplicate_group_for_keep_all() {
    // > 6h spread → KeepAll. In --apply mode we must DELETE
    // /api/duplicates/{group_id}; no asset delete, no stack, no
    // vision call.
    let dups = FakeDuplicates {
        groups: vec![group(
            "g1",
            vec![
                with_time(asset("a", "/p/a.jpg"), "2024-03-12T10:00:00"),
                with_time(asset("b", "/p/b.jpg"), "2024-03-12T17:00:00"),
            ],
        )],
    };
    let stacks = FakeStacks { stacks: vec![] };
    let caption = FakeCaption;
    let write = FakeWrite::default();
    let vision = FakeVision {
        replies: HashMap::new(),
        default_idx: 0,
        calls: Mutex::new(0),
    };
    let s = run(&dups, &stacks, &caption, &write, &vision, args(true)).unwrap();

    let dismissed = write.dismissed_groups.lock().unwrap().clone();
    assert_eq!(dismissed, vec!["g1".to_string()]);
    assert!(write.deletes.lock().unwrap().is_empty());
    assert!(write.stacks.lock().unwrap().is_empty());
    assert_eq!(*vision.calls.lock().unwrap(), 0);
    assert!(s.contains("KEEP-ALL"), "{s}");
}

#[test]
fn run_with_dry_run_does_not_dismiss_duplicate_group_for_keep_all() {
    let dups = FakeDuplicates {
        groups: vec![group(
            "g1",
            vec![
                with_time(asset("a", "/p/a.jpg"), "2024-03-12T10:00:00"),
                with_time(asset("b", "/p/b.jpg"), "2024-03-12T17:00:00"),
            ],
        )],
    };
    let stacks = FakeStacks { stacks: vec![] };
    let caption = FakeCaption;
    let write = FakeWrite::default();
    let vision = FakeVision {
        replies: HashMap::new(),
        default_idx: 0,
        calls: Mutex::new(0),
    };
    let s = run(&dups, &stacks, &caption, &write, &vision, args(false)).unwrap();
    assert!(write.dismissed_groups.lock().unwrap().is_empty());
    assert!(s.contains("DRY-RUN KEEP-ALL"), "{s}");
}

#[test]
fn run_with_parallel_rejects_zero() {
    let dups = FakeDuplicates { groups: vec![] };
    let stacks = FakeStacks { stacks: vec![] };
    let caption = FakeCaption;
    let write = FakeWrite::default();
    let vision = FakeVision {
        replies: HashMap::new(),
        default_idx: 0,
        calls: Mutex::new(0),
    };
    let mut a = args(false);
    a.parallel = 0;
    let err = run(&dups, &stacks, &caption, &write, &vision, a)
        .unwrap_err()
        .message();
    assert!(err.contains("--parallel"), "got: {err}");
}

// ---- further cases --------------------------------------------------

#[test]
fn capture_times_are_seconds_since_the_epoch() {
    assert_eq!(parse_capture_seconds("1970-01-01T00:00:00Z"), Some(0));
    assert_eq!(parse_capture_seconds("1970-01-02T00:00:01"), Some(86401));
    assert_eq!(parse_capture_seconds("yesterday"), None);
}

#[test]
fn a_group_of_one_is_too_small() {
    let g = group("g", vec![asset("a", "/p/a.jpg")]);
    assert_eq!(
        classify(&g, &IdSet::new(), 600, 500.0),
        GroupDecision::Skip(SkipReason::TooFewAssets)
    );
}

#[test]
fn a_group_without_capture_times_is_skipped() {
    let mut a = asset("a", "/p/a.jpg");
    a.local_date_time = None;
    a.exif_info = None;
    let g = group("g", vec![a, asset("b", "/p/b.jpg")]);
    assert_eq!(
        classify(&g, &IdSet::new(), 600, 500.0),
        GroupDecision::Skip(SkipReason::MissingCaptureTime)
    );
}

#[test]
fn six_hours_are_not_yet_too_much() {
    let g = group(
        "g",
        vec![
            with_time(asset("a", "/p/a.jpg"), "2024-03-12T10:00:00"),
            with_time(asset("b", "/p/b.jpg"), "2024-03-12T16:00:00"),
        ],
    );
    assert_eq!(
        classify(&g, &IdSet::new(), i64::MAX, 500.0),
        GroupDecision::Consider
    );
    assert_eq!(
        classify(&g, &IdSet::new(), 21599, 500.0),
        GroupDecision::Skip(SkipReason::TimeGapTooLarge)
    );
}

#[test]
fn sizes_are_compared_to_the_largest() {
    let tenth = Ratio { num: 1, den: 10 };
    assert!(sizes_within_tolerance(&vec![90, 100], tenth));
    assert!(!sizes_within_tolerance(&vec![89, 100], tenth));
    assert!(sizes_within_tolerance(&vec![7], tenth));
    let g = group("g", vec![with_size(asset("a", "/p/a.jpg"), 5)]);
    assert_eq!(collect_sizes(&g.assets), Some(vec![5]));
    let g = group("g", vec![asset("a", "/p/a.jpg")]);
    assert_eq!(collect_sizes(&g.assets), None);
}

#[test]
fn a_gap_of_exactly_the_ratio_is_not_enough() {
    let g = group(
        "g",
        vec![
            with_size(asset("a", "/p/a.jpg"), 1_000),
            with_size(asset("b", "/p/b.jpg"), 2_000),
        ],
    );
    assert_eq!(pick_winner_by_size(&g, HALF), None);
    assert_eq!(pick_winner_by_size(&g, Ratio { num: 49, den: 100 }), Some(1));
}

#[test]
fn pick_replies_that_are_wrong_say_why() {
    let err = parse_pick_response("nothing", 2).unwrap_err();
    assert!(matches!(err, Error::PickReplyNotJson { .. }));
    assert_eq!(
        err.full_message(),
        "vision pick reply was not valid JSON: nothing: expected ident at line 1 column 2"
    );
    let err = parse_pick_response("{}", 2).unwrap_err();
    assert!(matches!(err, Error::PickReplyNotJson { cause: None, .. }));
    let err = parse_pick_response(r#"{"winner_index": 2}"#, 2).unwrap_err();
    assert_eq!(
        err.message(),
        "vision pick returned winner_index=2 but group only has 2 assets"
    );
    assert_eq!(
        parse_pick_response(r#"{"winner_index": 1}"#, 2).unwrap(),
        (1, String::new())
    );
    assert!(parse_pick_response(r#"{"winner_index": -1}"#, 2).is_err());
}

#[test]
fn the_prompt_tells_the_indices() {
    let prompt = build_pick_user_prompt(3);
    assert!(prompt.ends_with("\n\n本组共 3 张候选，索引 0 到 2。"));
}

fn vision(default_idx: usize) -> FakeVision {
    FakeVision {
        replies: HashMap::new(),
        default_idx,
        calls: Mutex::new(0),
    }
}

#[test]
fn plans_say_how_the_winner_was_picked() {
    let g = group(
        "g",
        vec![
            with_size(asset("a", "/p/a.jpg"), 1_000),
            with_size(asset("b", "/p/b.jpg"), 4_000),
        ],
    );
    let plan = plan_group(&FakeCaption, &vision(0), &g, HALF).unwrap();
    assert_eq!(plan.winner_idx, 1);
    assert_eq!(
        plan.pick_reason,
        PickReason::LargerFile {
            smallest: 1_000,
            largest: 4_000
        }
    );
    assert_eq!(plan.stack_order, vec!["b", "a"]);
    let g = group("g", vec![asset("a", "/p/a.jpg"), asset("b", "/p/b.jpg")]);
    let plan = plan_group(&FakeCaption, &vision(0), &g, HALF).unwrap();
    assert_eq!(
        plan.pick_reason,
        PickReason::VisionModel {
            rationale: "fake".into()
        }
    );
}

#[test]
fn refused_arguments_of_dedup_say_why() {
    let mut a = args(false);
    assert!(a.validate().is_ok());
    a.size_ratio = Fraction { num: 3, den: 2 };
    assert!(matches!(a.validate(), Err(Error::SizeRatioOutOfRange)));
    a.max_distance_m = Fraction { num: -1, den: 1 };
    assert!(matches!(a.validate(), Err(Error::DistanceNegative)));
    a.max_time_gap_secs = -1;
    assert!(matches!(a.validate(), Err(Error::TimeGapNegative)));
    a.parallel = 0;
    assert!(matches!(a.validate(), Err(Error::ParallelZero)));
    assert_eq!(Error::ParallelZero.message(), "--parallel must be > 0");
}

/// Refuses every change.
struct Refusing;
impl DedupWriteBackend for Refusing {
    fn update_asset_location(
        &self,
        _id: &str,
        _latitude: &Degrees,
        _longitude: &Degrees,
    ) -> Result<(), Error> {
        Err(Error::Backend("403".into()))
    }
    fn create_stack(&self, _asset_ids: &Vec<String>) -> Result<Stack, Error> {
        Err(Error::Backend("403".into()))
    }
    fn delete_assets(&self, _ids: &Vec<String>) -> Result<(), Error> {
        Err(Error::Backend("403".into()))
    }
    fn dismiss_duplicate_group(&self, _duplicate_id: &str) -> Result<(), Error> {
        Err(Error::Backend("403".into()))
    }
}

#[test]
fn failures_are_counted_and_told() {
    let groups = vec![
        group(
            "g1",
            vec![
                with_size(asset("a", "/p/a.jpg"), 3_000_000),
                with_size(asset("b", "/p/b.jpg"), 1_000_000),
            ],
        ),
        group(
            "g2",
            vec![
                with_size(asset("c", "/x/IMG.jpg"), 2_000_000),
                with_size(asset("d", "/y/IMG.jpg"), 2_000_000),
            ],
        ),
        group(
            "g3",
            vec![
                with_time(asset("e", "/p/e.jpg"), "2024-03-12T10:00:00"),
                with_time(asset("f", "/p/f.jpg"), "2024-03-12T17:00:00"),
            ],
        ),
    ];
    let far = vec![vec![], vec![], vec![]];
    let report = run_with(
        &groups,
        &vec![],
        &far,
        &FakeCaption,
        &Refusing,
        &vision(0),
        &args(true),
    )
    .unwrap();
    assert_eq!(report.counts.work.apply_failed, 1);
    assert_eq!(report.counts.auto_delete.delete_failed, 1);
    assert_eq!(report.counts.keep_all.keep_failed, 1);
    assert!(report.log.contains("FAIL create stack for group g1 — 403\n"));
    assert!(report.log.contains("FAIL delete group g2 — 403\n"));
    assert!(report.log.contains("FAIL keep-all group g3 — 403\n"));
    assert!(report.log.ends_with(
        "skipped: already_stacked=0 too_few=0 video=0 folders=0 time_gap=0 distance=0 no_time=0\n\
         auto-deleted: 0 group(s), 0 asset(s); 1 failed\n\
         kept-all (>6h spread): 0 group(s), 0 asset(s); 1 failed\n\
         applied: 0 ok, 0 ok-with-warnings, 1 stack failed, 0 plan failed\n"
    ));
}

#[test]
fn a_dry_run_sums_up_what_would_be_done() {
    let groups = vec![
        group(
            "g1",
            vec![
                with_size(asset("a", "/p/a.jpg"), 3_000_000),
                with_size(asset("b", "/p/b.jpg"), 1_000_000),
            ],
        ),
        group("g2", vec![asset("c", "/p/c.jpg")]),
    ];
    let far = vec![vec![], vec![]];
    let report = run_with(
        &groups,
        &vec![],
        &far,
        &FakeCaption,
        &Refusing,
        &vision(0),
        &args(false),
    )
    .unwrap();
    assert!(report
        .log
        .contains("DRY-RUN stack group g1 (2 assets) → winner a /p/a.jpg [size (largest, 67% gap)]\n"));
    assert!(report.log.ends_with(
        "skipped: already_stacked=0 too_few=1 video=0 folders=0 time_gap=0 distance=0 no_time=0\n\
         would auto-delete: 0 group(s), 0 asset(s)\n\
         would keep-all (>6h spread): 0 group(s), 0 asset(s)\n\
         would apply: 1 group(s); 0 plan failed\n"
    ));
}

#[test]
fn the_limit_caps_the_groups_that_get_a_winner() {
    let mut groups = Vec::new();
    for i in 0..3 {
        groups.push(group(
            &format!("g{i}"),
            vec![
                with_size(asset(&format!("a{i}"), "/p/a.jpg"), 3_000_000),
                with_size(asset(&format!("b{i}"), "/p/b.jpg"), 1_000_000),
            ],
        ));
    }
    let far = vec![vec![], vec![], vec![]];
    let write = FakeWrite::default();
    let mut a = args(true);
    a.limit = 2;
    let report =
        run_with(&groups, &vec![], &far, &FakeCaption, &write, &vision(0), &a).unwrap();
    assert_eq!(report.counts.work.applied, 2);
    assert_eq!(write.stacks.lock().unwrap().len(), 2);
}

#[test]
fn a_wider_time_gap_lets_the_group_through() {
    let g = group(
        "g",
        vec![
            with_time(asset("a", "/p/a.jpg"), "2024-03-12T17:08:42"),
            with_time(asset("b", "/p/b.jpg"), "2024-03-12T17:30:00"),
        ],
    );
    let decide = |gap: i64| classify(&g, &IdSet::new(), gap, 500.0);
    assert_eq!(
        decide(1277),
        GroupDecision::Skip(SkipReason::TimeGapTooLarge)
    );
    assert_eq!(decide(1278), GroupDecision::Consider);
    assert_eq!(decide(9000), GroupDecision::Consider);
}

#[test]
fn a_run_can_be_taken_up_between_its_phases() {
    let groups = vec![
        group(
            "apart",
            vec![
                with_time(asset("a", "/p/a.jpg"), "2024-03-12T10:00:00"),
                with_time(asset("b", "/p/b.jpg"), "2024-03-12T17:00:00"),
            ],
        ),
        group(
            "close",
            vec![
                with_size(asset("c", "/p/c.jpg"), 3_000_000),
                with_size(asset("d", "/p/d.jpg"), 1_000_000),
            ],
        ),
        group("alone", vec![asset("e", "/p/e.jpg")]),
    ];
    let far = vec![vec![], vec![], vec![]];
    let write = FakeWrite::default();
    let underway = begin(&groups, &vec![], &far, &write, &args(true)).unwrap();
    assert_eq!(underway.to_process, vec![1]);
    assert_eq!(underway.size_ratio, HALF);
    assert_eq!(*write.dismissed_groups.lock().unwrap(), vec!["apart"]);
    assert!(write.stacks.lock().unwrap().is_empty());
    let head = underway.log.clone();

    let work = WorkCounts {
        plan_failed: 0,
        would_apply: 0,
        applied: 1,
        applied_with_warnings: 0,
        apply_failed: 0,
    };
    let report = finish(underway, work, "done\n", true);
    assert_eq!(report.counts.work.applied, 1);
    let summary = report.counts.write_summary(true);
    assert_eq!(report.log, format!("{head}done\n{summary}"));
}

#[test]
fn beginning_a_run_refuses_bad_arguments() {
    let write = FakeWrite::default();
    let mut bad = args(true);
    bad.parallel = 0;
    assert!(begin(&vec![], &vec![], &vec![], &write, &bad).is_err());
}
