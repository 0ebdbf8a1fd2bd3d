use immich_cli::client::{InfoBackend, SearchBackend};
use immich_cli::commands::info::lookup::{file_name, find_asset_id, pick_match, resolve_local_path};
use immich_cli::commands::info::text::list_scores;
use immich_cli::commands::info::{report, run_with, OutputFormat, Report};
use immich_cli::config::PathMapEntry;
use immich_cli::error::Error;
use immich_cli::json::{read_json, Json};
use immich_cli::models::{Asset, AssetsBucket, SearchRequest, SearchResponse};
use immich_cli::moments::humanize_naive_iso;
use immich_cli::sizes::human_size;
use serde_json::Value;
use std::cell::RefCell;

struct FakeSearch {
    responses: RefCell<Vec<SearchResponse>>,
    calls: RefCell<Vec<SearchRequest>>,
}
impl FakeSearch {
    fn new(responses: Vec<SearchResponse>) -> Self {
        Self {
            responses: RefCell::new(responses),
            calls: RefCell::new(vec![]),
        }
    }
}
impl SearchBackend for FakeSearch {
    fn search(&self, req: &SearchRequest) -> Result<SearchResponse, Error> {
        self.calls.borrow_mut().push(req.clone());
        Ok(self.responses.borrow_mut().remove(0))
    }
}

struct FakeInfo {
    asset: String,
    albums: String,
    ocr: String,
}
impl Default for FakeInfo {
    fn default() -> Self {
        Self {
            asset: "null".into(),
            albums: "[]".into(),
            ocr: "[]".into(),
        }
    }
}
impl InfoBackend for FakeInfo {
    fn get_asset(&self, _id: &str) -> Result<Json, Error> {
        Ok(read_json(&self.asset).unwrap())
    }
    fn albums_for_asset(&self, _id: &str) -> Result<Json, Error> {
        Ok(read_json(&self.albums).unwrap())
    }
    fn ocr_for_asset(&self, _id: &str) -> Result<Json, Error> {
        Ok(read_json(&self.ocr).unwrap())
    }
}

fn path_map() -> Vec<PathMapEntry> {
    vec![PathMapEntry {
        server: "/mnt/qnap".into(),
        local: "/home/u/Photos".into(),
    }]
}

fn search_hit(id: &str, server_path: &str) -> SearchResponse {
    SearchResponse {
        assets: AssetsBucket {
            total: 1,
            count: 1,
            items: vec![Asset {
                id: id.into(),
                original_path: server_path.into(),
                original_file_name: server_path.rsplit('/').next().unwrap().into(),
                asset_type: "IMAGE".into(),
                file_created_at: None,
                local_date_time: None,
                checksum: String::new(),
                exif_info: None,
            }],
            next_page: None,
        },
    }
}

fn search_multi(items: Vec<(&str, &str)>) -> SearchResponse {
    let assets = items
        .into_iter()
        .map(|(id, path)| Asset {
            id: id.into(),
            original_path: path.into(),
            original_file_name: path.rsplit('/').next().unwrap().into(),
            asset_type: "IMAGE".into(),
            file_created_at: None,
            local_date_time: None,
            checksum: String::new(),
            exif_info: None,
        })
        .collect::<Vec<_>>();
    let n = assets.len() as u32;
    SearchResponse {
        assets: AssetsBucket {
            total: n,
            count: n,
            items: assets,
            next_page: None,
        },
    }
}

// ---- find_asset_id edge cases ----

#[test]
fn find_returns_id_when_single_match() {
    let s = FakeSearch::new(vec![search_hit("the-id", "/mnt/qnap/PYL/x.jpg")]);
    let id = find_asset_id(&s, "/mnt/qnap/PYL/x.jpg").unwrap();
    assert_eq!(id, "the-id");
    // filename used for the search filter:
    assert_eq!(
        s.calls.borrow()[0].original_file_name.as_deref(),
        Some("x.jpg")
    );
}

#[test]
fn find_disambiguates_filename_collision_by_path() {
    let s = FakeSearch::new(vec![search_multi(vec![
        ("wrong-id", "/mnt/qnap/OTHER/x.jpg"),
        ("right-id", "/mnt/qnap/PYL/x.jpg"),
    ])]);
    let id = find_asset_id(&s, "/mnt/qnap/PYL/x.jpg").unwrap();
    assert_eq!(id, "right-id");
}

#[test]
fn find_errors_when_no_match() {
    let s = FakeSearch::new(vec![search_multi(vec![])]);
    let err = find_asset_id(&s, "/mnt/qnap/PYL/x.jpg")
        .unwrap_err()
        .message();
    assert!(err.contains("no Immich asset"), "got: {err}");
    assert!(err.contains("/mnt/qnap/PYL/x.jpg"), "got: {err}");
}

#[test]
fn find_errors_when_duplicate_paths() {
    // Two distinct assets with the exact same server path is a server
    // misindex; report it loudly rather than silently picking one.
    let s = FakeSearch::new(vec![search_multi(vec![
        ("a", "/mnt/qnap/PYL/x.jpg"),
        ("b", "/mnt/qnap/PYL/x.jpg"),
    ])]);
    let err = find_asset_id(&s, "/mnt/qnap/PYL/x.jpg")
        .unwrap_err()
        .message();
    assert!(err.contains("share originalPath"), "got: {err}");
}

// ---- resolve_local_path ----

#[test]
fn resolve_keeps_absolute_paths_unchanged() {
    let got = resolve_local_path("/home/u/Photos/x.jpg", None, Err("gone")).unwrap();
    assert_eq!(got, "/home/u/Photos/x.jpg");
}

#[test]
fn resolve_expands_leading_tilde() {
    let home = "/home/u";
    let got = resolve_local_path("~/QNAP-Photos/x.jpg", Some(home), Err("gone")).unwrap();
    assert_eq!(got, format!("{home}/QNAP-Photos/x.jpg"));
}

// ---- end-to-end run_with: full text output ----

fn sample_asset() -> String {
    r#"{
        "id": "asset-1",
        "originalPath": "/mnt/qnap/PYL/2018/IMG_20180908_185429.jpg",
        "originalFileName": "IMG_20180908_185429.jpg",
        "originalMimeType": "image/jpeg",
        "type": "IMAGE",
        "createdAt": "2026-05-21T14:48:59.239Z",
        "updatedAt": "2026-05-22T15:34:26.312Z",
        "fileCreatedAt": "2018-09-08T10:54:29.000Z",
        "fileModifiedAt": "2024-02-22T13:33:17.000Z",
        "localDateTime": "2018-09-08T18:54:29.000Z",
        "isFavorite": false, "isArchived": false, "isTrashed": false,
        "isOffline": false, "isEdited": false, "hasMetadata": true,
        "visibility": "timeline",
        "checksum": "abc123==",
        "thumbhash": "th",
        "width": 4032, "height": 3024,
        "duration": "0:00:00.00000",
        "libraryId": "lib-1",
        "owner": {"name": "mingfei", "email": "m@x.com"},
        "exifInfo": {
            "make": "HONOR", "model": "FNE-AN00", "lensModel": null,
            "fNumber": 4, "focalLength": 5.52, "iso": 452,
            "exposureTime": "1/33", "orientation": null,
            "fileSizeInByte": 2741923,
            "dateTimeOriginal": "2018-09-08T10:54:29.000+00:00",
            "modifyDate": "2018-09-08T10:54:29+00:00",
            "timeZone": "Asia/Shanghai",
            "latitude": 31.1269, "longitude": 121.5718,
            "city": "Kangqiao", "state": "Shanghai",
            "country": "People's Republic of China",
            "description": "", "rating": null,
            "exifImageWidth": 4032, "exifImageHeight": 3024,
            "projectionType": null
        },
        "tags": [{"value": "sunset"}, {"value": "beach"}],
        "people": [
            {"id": "p-1", "name": "张三", "birthDate": null,
             "isFavorite": false, "isHidden": false,
             "faces": [{"id": "f1"}, {"id": "f2"}]},
            {"id": "p-2", "name": "", "birthDate": null,
             "isFavorite": false, "isHidden": false,
             "faces": [{"id": "f3"}]}
        ],
        "unassignedFaces": [{"id": "uf"}],
        "stack": null,
        "duplicateId": null,
        "livePhotoVideoId": null
    }"#
    .to_string()
}

fn report_with_ocr(asset: String, ocr: String, format: OutputFormat) -> Report {
    let local_path = "/home/u/Photos/PYL/2018/IMG_20180908_185429.jpg";
    let search = FakeSearch::new(vec![search_hit(
        "asset-1",
        "/mnt/qnap/PYL/2018/IMG_20180908_185429.jpg",
    )]);
    let info = FakeInfo {
        asset,
        ocr,
        ..Default::default()
    };
    let bundle = run_with(&path_map(), &search, &info, local_path).unwrap();
    let percents = list_scores(&bundle.ocr)
        .iter()
        .map(|s| {
            let score: f64 = s.as_ref()?.parse().ok()?;
            Some(format!("{:.0}", (score * 100.0).round()))
        })
        .collect();
    report(&bundle, format, &percents)
}

fn text_with_ocr(asset: String, ocr: String) -> String {
    match report_with_ocr(asset, ocr, OutputFormat::Text) {
        Report::Text(text) => text,
        Report::Document(_) => panic!("text was asked for"),
    }
}

fn text(asset: String) -> String {
    text_with_ocr(asset, "[]".into())
}

fn json_with_ocr(asset: String, ocr: String) -> Value {
    match report_with_ocr(asset, ocr, OutputFormat::Json) {
        Report::Document(doc) => value(&doc),
        Report::Text(_) => panic!("JSON was asked for"),
    }
}

fn json(asset: String) -> Value {
    json_with_ocr(asset, "[]".into())
}

fn value(doc: &Json) -> Value {
    match doc {
        Json::Null => Value::Null,
        Json::Bool(b) => Value::Bool(*b),
        Json::Number(n) => serde_json::from_str(&n.text).unwrap(),
        Json::Text(text) => Value::String(text.clone()),
        Json::List(items) => Value::Array(items.iter().map(value).collect()),
        Json::Fields(fields) => {
            Value::Object(fields.iter().map(|(k, v)| (k.clone(), value(v))).collect())
        }
    }
}

#[test]
fn text_output_contains_all_sections() {
    let out = text(sample_asset());
    for heading in [
        "File",
        "Time",
        "Location",
        "Camera",
        "People (2)",
        "Tags (2)",
        "OCR (0 regions)",
        "Albums (0)",
    ] {
        assert!(
            out.contains(heading),
            "missing heading `{heading}` in:\n{out}"
        );
    }
    // Bookkeeping has no section.
    assert!(
        !out.contains("\nImmich\n"),
        "no Immich section is expected:\n{out}"
    );
}

fn sample_ocr() -> String {
    r#"[
        {
            "id": "o1", "assetId": "asset-1",
            "x1": 0.1, "y1": 0.1, "x2": 0.3, "y2": 0.1,
            "x3": 0.3, "y3": 0.2, "x4": 0.1, "y4": 0.2,
            "boxScore": 0.88, "textScore": 0.99,
            "text": "DELL", "isVisible": true
        },
        {
            "id": "o2", "assetId": "asset-1",
            "x1": 0.1, "y1": 0.3, "x2": 0.8, "y2": 0.3,
            "x3": 0.8, "y3": 0.4, "x4": 0.1, "y4": 0.4,
            "boxScore": 0.7, "textScore": 0.85,
            "text": "浙江大学 电气工程学院", "isVisible": true
        },
        {
            "id": "o3", "assetId": "asset-1",
            "x1": 0.0, "y1": 0.0, "x2": 0.1, "y2": 0.0,
            "x3": 0.1, "y3": 0.1, "x4": 0.0, "y4": 0.1,
            "boxScore": 0.5, "textScore": 0.41,
            "text": "low-conf", "isVisible": false
        }
    ]"#
    .to_string()
}

#[test]
fn text_output_renders_ocr_with_confidence_and_hidden_flag() {
    let out = text_with_ocr(sample_asset(), sample_ocr());
    assert!(
        out.contains("OCR (3 regions)"),
        "missing OCR heading in:\n{out}"
    );
    // Confidence is rendered as `[NN%]` prefix; helps grep / skim.
    assert!(
        out.contains("[ 99%] DELL"),
        "missing high-confidence OCR entry in:\n{out}"
    );
    assert!(
        out.contains("[ 85%] 浙江大学 电气工程学院"),
        "missing unicode OCR text in:\n{out}"
    );
    // Hidden (filtered) text is marked so callers can spot moderated data.
    assert!(
        out.contains("[ 41%] low-conf (hidden)"),
        "missing hidden marker in:\n{out}"
    );
}

#[test]
fn json_output_includes_ocr_array_verbatim() {
    let parsed = json_with_ocr(sample_asset(), sample_ocr());
    let entries = parsed["ocr"].as_array().expect("ocr must be an array");
    assert_eq!(entries.len(), 3);
    assert_eq!(entries[0]["text"], "DELL");
    assert_eq!(entries[1]["text"], "浙江大学 电气工程学院");
    // Bounding-box coords round-trip untouched — automation may want
    // them, and we never pretend to interpret them.
    assert_eq!(entries[0]["x1"], 0.1);
    assert_eq!(entries[2]["isVisible"], false);
}

#[test]
fn text_output_shows_human_size_and_dimensions() {
    let out = text(sample_asset());
    assert!(out.contains("4032x3024"), "missing dimensions in:\n{out}");
    assert!(out.contains("2.61 MB"), "missing human size in:\n{out}");
    assert!(
        out.contains("2741923 bytes"),
        "missing raw byte count in:\n{out}"
    );
}

#[test]
fn text_output_drops_redundant_path_filename_owner_fields() {
    // Path/filename are redundant with the input the user just typed,
    // and owner/library/IDs are bookkeeping — none of these should
    // appear in the trimmed text output.
    let out = text(sample_asset());
    for unwanted in [
        "Local path",
        "Server path",
        "Filename",
        "Type:",
        "Owner",
        "Asset ID",
        "Library",
        "Checksum",
        "Thumbhash",
        "Visibility",
    ] {
        assert!(
            !out.contains(unwanted),
            "unexpected field `{unwanted}` in trimmed output:\n{out}"
        );
    }
}

#[test]
fn text_output_handles_people_with_and_without_names() {
    let out = text(sample_asset());
    assert!(out.contains("张三"), "missing person name in:\n{out}");
    assert!(
        out.contains("(unnamed)"),
        "missing unnamed-person placeholder in:\n{out}"
    );
    assert!(out.contains("faces=2"), "missing face count in:\n{out}");
    assert!(
        out.contains("Unassigned faces:"),
        "missing unassigned-faces line in:\n{out}"
    );
}

#[test]
fn time_section_has_single_local_line_with_tz_in_parens() {
    // Only one time is shown — File created — in the photo's local
    // wall-clock time, followed by the EXIF time zone in parens so
    // the reader knows which zone "local" means.
    let out = text(sample_asset());
    let time_block: Vec<&str> = out
        .lines()
        .skip_while(|l| *l != "Time")
        .skip(1)
        .take_while(|l| !l.is_empty())
        .collect();
    assert_eq!(time_block.len(), 1, "got: {time_block:?}");
    let line = time_block[0];
    assert!(line.contains("File created"), "got: {line}");
    assert!(
        line.contains("2018-09-08 18:54:29 (Asia/Shanghai)"),
        "got: {line}"
    );
}

#[test]
fn time_section_omits_tz_parens_when_absent() {
    let asset = sample_asset().replace("\"Asia/Shanghai\"", "null");
    let out = text(asset);
    let line = out
        .lines()
        .find(|l| l.contains("File created"))
        .expect("missing File created line");
    assert!(line.contains("2018-09-08 18:54:29"), "got: {line}");
    assert!(
        !line.contains('('),
        "no parens should be shown when TZ is unknown: {line}"
    );
}

#[test]
fn json_output_keeps_meaningful_fields() {
    let parsed = json(sample_asset());
    assert_eq!(
        parsed["localPath"],
        "/home/u/Photos/PYL/2018/IMG_20180908_185429.jpg"
    );
    assert!(parsed["albums"].is_array());
    assert_eq!(parsed["originalMimeType"], "image/jpeg");
    assert_eq!(parsed["width"], 4032);
    assert_eq!(parsed["height"], 3024);
    assert_eq!(parsed["localDateTime"], "2018-09-08T18:54:29.000Z");
    // EXIF whitelist: location + camera kept, raw EXIF bookkeeping gone.
    let exif = &parsed["exifInfo"];
    assert_eq!(exif["latitude"], 31.1269);
    assert_eq!(exif["country"], "People's Republic of China");
    assert_eq!(exif["make"], "HONOR");
    assert_eq!(exif["fNumber"], 4);
    assert_eq!(exif["timeZone"], "Asia/Shanghai");
    assert_eq!(exif["fileSizeInByte"], 2_741_923);
    // People/tags arrays untouched.
    assert!(parsed["people"].is_array());
    assert!(parsed["tags"].is_array());
}

#[test]
fn json_output_drops_bookkeeping_top_level_fields() {
    let parsed = json(sample_asset());
    for k in [
        "id",
        "originalPath",
        "originalFileName",
        "type",
        "owner",
        "ownerId",
        "libraryId",
        "deviceId",
        "deviceAssetId",
        "visibility",
        "isFavorite",
        "isArchived",
        "isTrashed",
        "isOffline",
        "isEdited",
        "hasMetadata",
        "thumbhash",
        "checksum",
        "createdAt",
        "updatedAt",
        "fileCreatedAt",
        "fileModifiedAt",
        "duplicateId",
        "stack",
        "livePhotoVideoId",
    ] {
        assert!(parsed.get(k).is_none(), "expected `{k}` to be pruned");
    }
}

#[test]
fn json_output_drops_bookkeeping_exif_fields() {
    let parsed = json(sample_asset());
    let exif = parsed["exifInfo"].as_object().unwrap();
    for k in [
        "dateTimeOriginal",
        "modifyDate",
        "description",
        "rating",
        "exifImageWidth",
        "exifImageHeight",
    ] {
        assert!(exif.get(k).is_none(), "expected exif.{k} to be pruned");
    }
}

#[test]
fn unmapped_local_path_errors_with_actionable_message() {
    let asset = sample_asset();
    let search = FakeSearch::new(vec![]);
    let info = FakeInfo {
        asset,
        ..Default::default()
    };
    let err = run_with(&path_map(), &search, &info, "/somewhere/else/x.jpg")
        .unwrap_err()
        .message();
    assert!(err.contains("no path mapping"), "got: {err}");
    assert!(err.contains("/somewhere/else/x.jpg"), "got: {err}");
}

// ---- pure helpers ----

#[test]
fn human_size_picks_unit() {
    assert_eq!(human_size(500), "500 B");
    assert_eq!(human_size(1536), "1.50 KB");
    assert_eq!(human_size(2_741_923), "2.61 MB");
    assert_eq!(human_size(5_000_000_000), "4.66 GB");
}

#[test]
fn humanize_naive_strips_zone_marker() {
    // Inputs Immich ships as Z-suffixed but semantically local must
    // come out without UTC / offset.
    assert_eq!(
        humanize_naive_iso("2018-09-08T18:54:29.000Z"),
        "2018-09-08 18:54:29"
    );
    assert_eq!(
        humanize_naive_iso("2018-09-08T18:54:29+08:00"),
        "2018-09-08 18:54:29"
    );
}

#[test]
fn humanize_naive_keeps_unparseable_input() {
    assert_eq!(humanize_naive_iso("not-a-date"), "not-a-date");
}

// ---- further cases ----

#[test]
fn relative_paths_start_at_the_working_directory() {
    assert_eq!(
        resolve_local_path("a/x.jpg", None, Ok("/home/u")).unwrap(),
        "/home/u/a/x.jpg"
    );
    assert_eq!(
        resolve_local_path("~", Some("/home/u"), Err("gone")).unwrap(),
        "/home/u"
    );
    let err = resolve_local_path("a", None, Err("gone")).unwrap_err();
    assert!(matches!(err, Error::NoWorkingDirectory { .. }));
    assert_eq!(
        err.full_message(),
        "cannot resolve current working directory: gone"
    );
    let err = resolve_local_path("~/a", None, Err("gone")).unwrap_err();
    assert!(matches!(err, Error::NoHomeForTilde));
    let err = resolve_local_path("~", None, Err("gone")).unwrap_err();
    assert!(matches!(err, Error::NoHome));
}

#[test]
fn file_names_are_the_last_component() {
    assert_eq!(file_name("/a/b.jpg"), Some("b.jpg"));
    assert_eq!(file_name("/a/b/"), Some("b"));
    assert_eq!(file_name("/"), None);
    assert_eq!(file_name("/a/.."), None);
}

#[test]
fn a_path_without_a_file_name_cannot_be_looked_up() {
    let s = FakeSearch::new(vec![]);
    let err = find_asset_id(&s, "/").unwrap_err();
    assert_eq!(err.message(), "could not extract filename from `/`");
}

#[test]
fn shared_paths_are_counted() {
    let page = search_multi(vec![("a", "/m/x"), ("b", "/m/x"), ("c", "/m/y")]);
    let err = pick_match(&page.assets.items, "/m/x", "x").unwrap_err();
    assert!(matches!(err, Error::PathShared { count: 2, .. }));
    assert_eq!(pick_match(&page.assets.items, "/m/y", "y").unwrap(), "c");
    let err = pick_match(&page.assets.items, "/m/z", "z").unwrap_err();
    assert!(matches!(err, Error::AssetNotFound { .. }));
}

struct HalfInfo;
impl InfoBackend for HalfInfo {
    fn get_asset(&self, id: &str) -> Result<Json, Error> {
        Ok(read_json(&format!("{{\"id\":\"{id}\",\"width\":3,\"height\":2}}")).unwrap())
    }
    fn albums_for_asset(&self, _id: &str) -> Result<Json, Error> {
        Err(Error::Backend("no albums".into()))
    }
    fn ocr_for_asset(&self, _id: &str) -> Result<Json, Error> {
        Err(Error::Backend("no ocr".into()))
    }
}

#[test]
fn albums_and_texts_may_be_missing() {
    let search = FakeSearch::new(vec![search_hit("i", "/mnt/qnap/x.jpg")]);
    let bundle = run_with(&path_map(), &search, &HalfInfo, "/home/u/Photos/x.jpg").unwrap();
    assert_eq!(value(&bundle.albums), Value::Array(vec![]));
    assert_eq!(value(&bundle.ocr), Value::Array(vec![]));
    assert_eq!(
        value(&bundle.asset)["localPath"],
        "/home/u/Photos/x.jpg"
    );
    match report(&bundle, OutputFormat::Text, &vec![]) {
        Report::Text(text) => assert!(text.contains("3x2"), "{text}"),
        Report::Document(_) => panic!("text was asked for"),
    }
}

#[test]
fn the_document_shows_what_the_text_shows() {
    let full = text(sample_asset());
    let pruned = match report_with_ocr(sample_asset(), "[]".into(), OutputFormat::Json) {
        Report::Document(doc) => value(&doc).to_string(),
        Report::Text(_) => panic!("JSON was asked for"),
    };
    assert_eq!(text(pruned), full);
}

#[test]
fn sizes_change_units_at_powers_of_1024() {
    assert_eq!(human_size(0), "0 B");
    assert_eq!(human_size(1023), "1023 B");
    assert_eq!(human_size(1024), "1.00 KB");
    assert_eq!(human_size(1048575), "1024.00 KB");
    assert_eq!(human_size(1048576), "1.00 MB");
    assert_eq!(human_size(1099511627776), "1.00 TB");
    assert_eq!(human_size(u64::MAX), "16777216.00 TB");
}

#[test]
fn sizes_round_to_the_nearest_hundredth() {
    // 1029.12 / 1024 is 1.005 and stays below it in binary.
    assert_eq!(human_size(1029), "1.00 KB");
    assert_eq!(human_size(1030), "1.01 KB");
    // Exactly 1.125: the even neighbour is taken.
    assert_eq!(human_size(1152), "1.12 KB");
    assert_eq!(human_size(1664), "1.62 KB");
    assert_eq!(human_size(1408), "1.38 KB");
}
