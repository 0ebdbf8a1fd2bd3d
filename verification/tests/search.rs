use immich_cli::client::{
    search_endpoint, CaptionBackend, InfoBackend, PlacesBackend, SearchBackend, StacksBackend,
};
use immich_cli::commands::search::args::{cleaned, normalize_date, read_bound};
use immich_cli::commands::search::candidates::{label_people, CandidatePool};
use immich_cli::commands::search::emit::local_paths;
use immich_cli::commands::search::fetch::fetch_assets_inner;
use immich_cli::commands::search::stacks::{hidden_for, hidden_stacked_ids, StackFilteredBackend};
use immich_cli::commands::search::{
    emit_to_writer, fetch_assets, normalize_date_end, normalize_date_start, perform_search,
    AssetTypeArg, Backends, FetchResult, OutputFormat, SearchArgs,
};
use immich_cli::config::{Config, PathMapEntry, People};
use immich_cli::error::Error;
use immich_cli::ids::IdSet;
use immich_cli::json::{read_json, Json};
use immich_cli::listing::Emission;
use immich_cli::llm::{ChatBackend, Message, MultiImageVisionLlm};
use immich_cli::models::{
    Asset, AssetsBucket, Degrees, ExifInfo, SearchRequest, SearchResponse, Stack, StackMember,
};
use immich_cli::places::{Admin2Lookup, CityVocabEntry, PlaceMatch};
use std::cell::RefCell;
use std::sync::Mutex;

fn degrees(number: &str, six_decimals: &str) -> Degrees {
    Degrees {
        number: number.into(),
        six_decimals: six_decimals.into(),
    }
}

fn make_asset(id: &str, path: &str, asset_type: &str, taken: &str) -> Asset {
    Asset {
        id: id.into(),
        original_path: path.into(),
        original_file_name: path.rsplit('/').next().unwrap_or(path).into(),
        asset_type: asset_type.into(),
        file_created_at: Some(taken.into()),
        local_date_time: Some(taken.into()),
        checksum: String::new(),
        exif_info: Some(ExifInfo {
            city: Some("Shanghai".into()),
            state: Some("Shanghai".into()),
            country: Some("China".into()),
            latitude: Some(degrees("31.0", "31.000000")),
            longitude: Some(degrees("121.0", "121.000000")),
            description: None,
            date_time_original: None,
            file_size_in_byte: None,
        }),
    }
}

fn default_args() -> SearchArgs {
    SearchArgs {
        query: None,
        description_only: false,
        taken_after: None,
        taken_before: None,
        place: None,
        ocr: None,
        asset_type: None,
        limit: None,
        format: OutputFormat::Paths,
        verify: false,
        include_missing: false,
        include_unmapped: false,
        include_archived: false,
        include_stacked: false,
        verbose: false,
    }
}

fn cfg() -> Config {
    Config {
        server_url: "http://x".into(),
        api_key: "k".into(),
        path_map: pmap(),
        timeout_secs: 60,
        llm: None,
        people: People::new(),
    }
}

fn no_place() -> PlaceMatch {
    PlaceMatch::default()
}

fn fr(assets: Vec<Asset>) -> FetchResult {
    FetchResult {
        assets,
        truncated: false,
    }
}

fn fr_truncated(assets: Vec<Asset>) -> FetchResult {
    FetchResult {
        assets,
        truncated: true,
    }
}

/// Records each call and replays canned responses in order.
struct FakeBackend {
    responses: Mutex<Vec<SearchResponse>>,
    calls: Mutex<Vec<SearchRequest>>,
    vocab: Vec<CityVocabEntry>,
}

impl FakeBackend {
    fn new(responses: Vec<SearchResponse>) -> Self {
        Self {
            responses: Mutex::new(responses),
            calls: Mutex::new(Vec::new()),
            vocab: vec![],
        }
    }
    fn with_vocab(mut self, vocab: Vec<CityVocabEntry>) -> Self {
        self.vocab = vocab;
        self
    }
    fn calls(&self) -> Vec<SearchRequest> {
        self.calls.lock().unwrap().clone()
    }
}

impl SearchBackend for FakeBackend {
    fn search(&self, req: &SearchRequest) -> Result<SearchResponse, Error> {
        self.calls.lock().unwrap().push(req.clone());
        let mut q = self.responses.lock().unwrap();
        if q.is_empty() {
            return Err(Error::Backend(
                "FakeBackend ran out of canned responses".into(),
            ));
        }
        Ok(q.remove(0))
    }
}

impl PlacesBackend for FakeBackend {
    fn cities_vocabulary(&self) -> Result<Vec<CityVocabEntry>, Error> {
        Ok(self.vocab.clone())
    }
}

impl InfoBackend for FakeBackend {
    fn get_asset(&self, _id: &str) -> Result<Json, Error> {
        Ok(read_json(r#"{"people": [{ "name": "测试人物甲" }, { "name": "未配置测试人物" }]}"#).unwrap())
    }

    fn albums_for_asset(&self, _id: &str) -> Result<Json, Error> {
        Ok(Json::List(vec![]))
    }

    fn ocr_for_asset(&self, _id: &str) -> Result<Json, Error> {
        Ok(Json::List(vec![]))
    }
}

impl CaptionBackend for FakeBackend {
    fn thumbnail(&self, id: &str) -> Result<Vec<u8>, Error> {
        // Tiny deterministic blob so tests can verify presence by id.
        Ok(id.as_bytes().to_vec())
    }
    fn update_description(&self, _id: &str, _description: &str) -> Result<(), Error> {
        Ok(())
    }
}

/// Test-only sugar: wrap a single FakeBackend (which implements every
/// backend trait needed by `search`) plus an optional FakeLlm into a
/// `Backends`. Avoids ten-line struct literals at every call site.
fn fb<'a>(
    b: &'a FakeBackend,
    llm: Option<&'a FakeLlm>,
) -> Backends<'a, FakeBackend, FakeBackend, FakeBackend, FakeBackend, FakeLlm> {
    Backends {
        search: b,
        places: b,
        info: b,
        thumbs: b,
        llm,
    }
}

fn resp(items: Vec<Asset>, next: Option<&str>) -> SearchResponse {
    let total = items.len() as u32;
    SearchResponse {
        assets: AssetsBucket {
            total,
            count: total,
            items,
            next_page: next.map(|s| Json::Text(s.into())),
        },
    }
}

// ---- Args validation -----------------------------------------------

#[test]
fn validate_rejects_empty_filter() {
    let args = default_args();
    let err = args.validate().unwrap_err().message();
    assert!(err.contains("at least one filter"), "got: {err}");
}

#[test]
fn validate_accepts_query_only() {
    let mut args = default_args();
    args.query = Some("x".into());
    assert!(args.validate().is_ok());
}

#[test]
fn validate_accepts_time_only() {
    let mut args = default_args();
    args.taken_after = Some("2025-01-01".into());
    assert!(args.validate().is_ok());
}

#[test]
fn validate_accepts_type_only() {
    let mut args = default_args();
    args.asset_type = Some(AssetTypeArg::Video);
    assert!(args.validate().is_ok());
}

#[test]
fn validate_accepts_ocr_only() {
    let mut args = default_args();
    args.ocr = Some("hello".into());
    assert!(args.validate().is_ok());
}

#[test]
fn validate_rejects_zero_limit() {
    let mut args = default_args();
    args.query = Some("x".into());
    args.limit = Some(0);
    assert!(args.validate().is_err());
}

#[test]
fn effective_limit_depends_on_query_mode() {
    let mut args = default_args();
    args.taken_after = Some("2025-01-01".into());
    assert_eq!(args.effective_limit(), 1000);

    args.query = Some("x".into());
    assert_eq!(args.effective_limit(), 24);

    args.limit = Some(48);
    assert!(args.validate().is_ok());

    args.limit = Some(49);
    let err = args.validate().unwrap_err().message();
    assert!(err.contains("cannot exceed 48"), "got: {err}");

    args.query = None;
    args.limit = Some(5000);
    assert!(args.validate().is_ok());
    assert_eq!(args.effective_limit(), 5000);
}

#[test]
fn validate_rejects_empty_string_query() {
    // -q "" must not slip past the "at least one filter" guard.
    let mut args = default_args();
    args.query = Some(String::new());
    let err = args.validate().unwrap_err().message();
    assert!(err.contains("at least one filter"), "got: {err}");
}

#[test]
fn validate_rejects_whitespace_only_place() {
    let mut args = default_args();
    args.place = Some("   ".into());
    let err = args.validate().unwrap_err().message();
    assert!(err.contains("at least one filter"), "got: {err}");
}

#[test]
fn validate_rejects_whitespace_only_date() {
    let mut args = default_args();
    args.taken_after = Some(" ".into());
    let err = args.validate().unwrap_err().message();
    assert!(err.contains("at least one filter"), "got: {err}");
}

#[test]
fn blank_strings_are_not_sent_over_the_wire() {
    // Geo now comes from a resolved PlaceMatch, so verify the other
    // string fields are still stripped of blank values when handed
    // to Immich. The geo override carries any city/state/country.
    let backend = FakeBackend::new(vec![resp(vec![], None)]);
    let mut args = default_args();
    args.taken_after = Some("2025-01-01".into());
    args.query = Some("".into());
    args.ocr = Some("   ".into());
    let place = PlaceMatch {
        country: Some("People's Republic of China".into()),
        ..Default::default()
    };
    fetch_assets(&backend, &args, &place).unwrap();
    let req = &backend.calls()[0];
    assert_eq!(req.country.as_deref(), Some("People's Republic of China"));
    assert!(req.city.is_none());
    assert!(req.query.is_none(), "blank query should be stripped");
    assert!(req.ocr.is_none(), "blank ocr should be stripped");
}

// ---- Date normalization --------------------------------------------

#[test]
fn date_start_expands_to_utc_midnight() {
    let got = normalize_date_start("2025-03-04").unwrap();
    assert_eq!(got, "2025-03-04T00:00:00.000Z");
}

#[test]
fn date_end_expands_to_utc_eod() {
    let got = normalize_date_end("2025-03-04").unwrap();
    assert_eq!(got, "2025-03-04T23:59:59.999Z");
}

#[test]
fn date_iso_passthrough() {
    let got = normalize_date_start("2025-03-04T12:34:56Z").unwrap();
    assert_eq!(got, "2025-03-04T12:34:56Z");
}

#[test]
fn date_invalid_yyyymmdd_rejected() {
    let err = normalize_date_start("2025-13-99").unwrap_err().message();
    assert!(err.contains("invalid date"), "got: {err}");
}

// ---- fetch_assets --------------------------------------------------

#[test]
fn fetch_walks_pages_until_next_is_null() {
    let backend = FakeBackend::new(vec![
        resp(
            vec![
                make_asset("a1", "/mnt/x/a.jpg", "IMAGE", "2025-01-01T00:00:00Z"),
                make_asset("a2", "/mnt/x/b.jpg", "IMAGE", "2025-01-02T00:00:00Z"),
            ],
            Some("2"),
        ),
        resp(
            vec![make_asset(
                "a3",
                "/mnt/x/c.jpg",
                "IMAGE",
                "2025-01-03T00:00:00Z",
            )],
            None,
        ),
    ]);
    let mut args = default_args();
    args.query = Some("anything".into());
    args.limit = Some(10);

    // page_size is hard-coded in fetch_assets, so drive the inner
    // entry point directly to exercise multi-page behavior.
    let got = fetch_assets_inner(&backend, &args, 2, &no_place()).unwrap();
    assert_eq!(got.assets.len(), 3);
    assert!(!got.truncated, "exhausted result must not be truncated");
    let calls = backend.calls();
    assert_eq!(calls.len(), 2);
    assert_eq!(calls[0].page, Some(1));
    assert_eq!(calls[1].page, Some(2));
    // The query is propagated as-is, and with_exif is forced on so the
    // table/json output can show location.
    assert_eq!(calls[0].query.as_deref(), Some("anything"));
    assert_eq!(calls[0].with_exif, Some(true));
}

#[test]
fn fetch_stops_at_limit_even_if_more_available() {
    let backend = FakeBackend::new(vec![resp(
        vec![
            make_asset("a1", "/mnt/x/a.jpg", "IMAGE", "2025-01-01T00:00:00Z"),
            make_asset("a2", "/mnt/x/b.jpg", "IMAGE", "2025-01-02T00:00:00Z"),
            make_asset("a3", "/mnt/x/c.jpg", "IMAGE", "2025-01-03T00:00:00Z"),
        ],
        Some("2"),
    )]);
    let mut args = default_args();
    args.query = Some("x".into());
    args.limit = Some(2);

    let got = fetch_assets_inner(&backend, &args, 10, &no_place()).unwrap();
    assert_eq!(got.assets.len(), 2);
    // Leftover items in the same page mean the server still had more
    // to give us — the marker must be raised.
    assert!(got.truncated);
    // Only the first page should have been requested.
    assert_eq!(backend.calls().len(), 1);
}

#[test]
fn fetch_exact_limit_at_page_boundary_signals_truncated_via_next_page() {
    // limit == items in page 1, but nextPage="2" tells us page 2 exists.
    let backend = FakeBackend::new(vec![resp(
        vec![
            make_asset("a1", "/mnt/x/a.jpg", "IMAGE", "2025-01-01T00:00:00Z"),
            make_asset("a2", "/mnt/x/b.jpg", "IMAGE", "2025-01-02T00:00:00Z"),
        ],
        Some("2"),
    )]);
    let mut args = default_args();
    args.query = Some("x".into());
    args.limit = Some(2);
    let got = fetch_assets_inner(&backend, &args, 2, &no_place()).unwrap();
    assert_eq!(got.assets.len(), 2);
    assert!(got.truncated);
    assert_eq!(backend.calls().len(), 1);
}

#[test]
fn fetch_exact_limit_at_end_of_results_is_not_truncated() {
    // limit == total available, and nextPage=null. Boundary case: must
    // not raise the truncation marker.
    let backend = FakeBackend::new(vec![resp(
        vec![
            make_asset("a1", "/mnt/x/a.jpg", "IMAGE", "2025-01-01T00:00:00Z"),
            make_asset("a2", "/mnt/x/b.jpg", "IMAGE", "2025-01-02T00:00:00Z"),
        ],
        None,
    )]);
    let mut args = default_args();
    args.query = Some("x".into());
    args.limit = Some(2);
    let got = fetch_assets_inner(&backend, &args, 2, &no_place()).unwrap();
    assert_eq!(got.assets.len(), 2);
    assert!(!got.truncated);
}

#[test]
fn fetch_sends_geo_and_type_filters_through() {
    let backend = FakeBackend::new(vec![resp(vec![], None)]);
    let mut args = default_args();
    args.asset_type = Some(AssetTypeArg::Video);
    args.taken_after = Some("2025-01-01".into());
    args.taken_before = Some("2025-12-31".into());
    let place = PlaceMatch {
        country: Some("People's Republic of China".into()),
        state: Some("Shanghai".into()),
        city: Some("Kangqiao".into()),
    };

    fetch_assets(&backend, &args, &place).unwrap();
    let calls = backend.calls();
    assert_eq!(calls[0].city.as_deref(), Some("Kangqiao"));
    assert_eq!(calls[0].state.as_deref(), Some("Shanghai"));
    assert_eq!(
        calls[0].country.as_deref(),
        Some("People's Republic of China")
    );
    assert_eq!(calls[0].asset_type.as_deref(), Some("VIDEO"));
    assert_eq!(
        calls[0].taken_after.as_deref(),
        Some("2025-01-01T00:00:00.000Z")
    );
    assert_eq!(
        calls[0].taken_before.as_deref(),
        Some("2025-12-31T23:59:59.999Z")
    );
}

#[test]
fn fetch_sends_ocr_filter_through_trimmed() {
    let backend = FakeBackend::new(vec![resp(vec![], None)]);
    let mut args = default_args();
    args.ocr = Some("  上海市老年基金会  ".into());
    fetch_assets(&backend, &args, &no_place()).unwrap();
    let calls = backend.calls();
    // Whitespace is stripped just like every other string filter.
    assert_eq!(calls[0].ocr.as_deref(), Some("上海市老年基金会"));
}

struct ErrBackend;
impl SearchBackend for ErrBackend {
    fn search(&self, _req: &SearchRequest) -> Result<SearchResponse, Error> {
        Err(Error::Backend("immich exploded".into()))
    }
}

#[test]
fn fetch_propagates_backend_errors() {
    let mut args = default_args();
    args.query = Some("x".into());
    let err = fetch_assets(&ErrBackend, &args, &no_place())
        .unwrap_err()
        .message();
    assert!(err.contains("immich exploded"), "got: {err}");
}

// ---- stack filtering -----------------------------------------------

fn stack_member(id: &str) -> StackMember {
    StackMember { id: id.into() }
}

#[test]
fn hidden_stacked_ids_keeps_primary_drops_rest() {
    let stacks = vec![
        Stack {
            primary_asset_id: "p1".into(),
            assets: vec![stack_member("p1"), stack_member("c1"), stack_member("c2")],
        },
        Stack {
            primary_asset_id: "p2".into(),
            assets: vec![stack_member("p2"), stack_member("c3")],
        },
    ];
    let hidden = hidden_stacked_ids(&stacks);
    assert_eq!(hidden.len(), 3);
    for child in ["c1", "c2", "c3"] {
        assert!(hidden.contains(child), "expected {child} hidden");
    }
    // Covers — the assets we keep — must never be hidden.
    assert!(!hidden.contains("p1"));
    assert!(!hidden.contains("p2"));
}

#[test]
fn stack_filter_drops_hidden_assets_across_pages() {
    // Page 1: cover p1, stacked child c1, unrelated x. Page 2: stacked
    // child c2, unrelated y. The cover and the non-stacked assets survive;
    // the stacked children are filtered out, and pagination keeps walking
    // so the limit fills with real results.
    let backend = FakeBackend::new(vec![
        resp(
            vec![
                make_asset("p1", "/mnt/x/p1.jpg", "IMAGE", "2025-01-01T00:00:00Z"),
                make_asset("c1", "/mnt/x/c1.jpg", "IMAGE", "2025-01-01T00:00:00Z"),
                make_asset("x", "/mnt/x/x.jpg", "IMAGE", "2025-01-01T00:00:00Z"),
            ],
            Some("2"),
        ),
        resp(
            vec![
                make_asset("c2", "/mnt/x/c2.jpg", "IMAGE", "2025-01-01T00:00:00Z"),
                make_asset("y", "/mnt/x/y.jpg", "IMAGE", "2025-01-01T00:00:00Z"),
            ],
            None,
        ),
    ]);
    let mut hidden = IdSet::new();
    hidden.insert("c1");
    hidden.insert("c2");
    let filtered = StackFilteredBackend::new(&backend, hidden);
    let mut args = default_args();
    args.query = Some("x".into());
    args.limit = Some(10);
    let got = fetch_assets_inner(&filtered, &args, 3, &no_place()).unwrap();
    let ids: Vec<&str> = got.assets.iter().map(|a| a.id.as_str()).collect();
    assert_eq!(ids, vec!["p1", "x", "y"]);
}

#[test]
fn stack_filter_with_empty_set_is_passthrough() {
    let backend = FakeBackend::new(vec![resp(
        vec![make_asset(
            "a1",
            "/mnt/x/a.jpg",
            "IMAGE",
            "2025-01-01T00:00:00Z",
        )],
        None,
    )]);
    let filtered = StackFilteredBackend::new(&backend, IdSet::new());
    let mut args = default_args();
    args.query = Some("x".into());
    let got = fetch_assets(&filtered, &args, &no_place()).unwrap();
    assert_eq!(got.assets.len(), 1);
    assert_eq!(got.assets[0].id, "a1");
}

// ---- emit_to_writer ------------------------------------------------

fn pmap() -> Vec<PathMapEntry> {
    vec![PathMapEntry {
        server: "/mnt/qnap".into(),
        local: "/home/u/Photos".into(),
    }]
}

/// What is printed on a machine that has none of the files.
fn emitted(args: &SearchArgs, result: &FetchResult) -> Emission {
    let present = vec![false; result.assets.len()];
    emit_to_writer(&pmap(), args, result, &present)
}

#[test]
fn emit_paths_default_skips_unmapped_with_warning() {
    let result = fr(vec![
        make_asset("a1", "/mnt/qnap/a.jpg", "IMAGE", "2025-01-01T00:00:00Z"),
        make_asset("a2", "/other/b.jpg", "IMAGE", "2025-01-02T00:00:00Z"),
    ]);
    let mut args = default_args();
    args.query = Some("x".into());
    let out = emitted(&args, &result).out;
    assert_eq!(out.trim(), "/home/u/Photos/a.jpg");
}

#[test]
fn emit_paths_include_unmapped_marks_them() {
    let result = fr(vec![make_asset(
        "a2",
        "/other/b.jpg",
        "IMAGE",
        "2025-01-02T00:00:00Z",
    )]);
    let mut args = default_args();
    args.query = Some("x".into());
    args.include_unmapped = true;
    let out = emitted(&args, &result).out;
    assert_eq!(out.trim(), "UNMAPPED\t/other/b.jpg");
}

#[test]
fn emit_paths_verify_skips_missing_files() {
    let result = fr(vec![make_asset(
        "a1",
        "/mnt/qnap/nope.jpg",
        "IMAGE",
        "2025-01-01T00:00:00Z",
    )]);
    let mut args = default_args();
    args.query = Some("x".into());
    args.verify = true;
    assert!(emitted(&args, &result).out.is_empty());
}

#[test]
fn emit_paths_verify_with_include_missing_emits_marker() {
    let result = fr(vec![make_asset(
        "a1",
        "/mnt/qnap/nope.jpg",
        "IMAGE",
        "2025-01-01T00:00:00Z",
    )]);
    let mut args = default_args();
    args.query = Some("x".into());
    args.verify = true;
    args.include_missing = true;
    let out = emitted(&args, &result).out;
    assert_eq!(out.trim(), "MISSING\t/home/u/Photos/nope.jpg");
}

#[test]
fn emit_json_is_ndjson() {
    let result = fr(vec![
        make_asset("a1", "/mnt/qnap/a.jpg", "IMAGE", "2025-01-01T00:00:00Z"),
        make_asset("a2", "/mnt/qnap/b.jpg", "VIDEO", "2025-01-02T00:00:00Z"),
    ]);
    let mut args = default_args();
    args.query = Some("x".into());
    args.format = OutputFormat::Json;
    let out = emitted(&args, &result).out;
    let lines: Vec<&str> = out.lines().collect();
    assert_eq!(lines.len(), 2);
    let parsed: serde_json::Value = serde_json::from_str(lines[0]).unwrap();
    assert_eq!(parsed["id"], "a1");
    assert_eq!(parsed["type"], "IMAGE");
    assert_eq!(parsed["localPath"], "/home/u/Photos/a.jpg");
    assert_eq!(parsed["country"], "China");
    assert_eq!(parsed["unmapped"], false);
    assert_eq!(parsed["missing"], false);
    let parsed2: serde_json::Value = serde_json::from_str(lines[1]).unwrap();
    assert_eq!(parsed2["type"], "VIDEO");
}

#[test]
fn emit_table_has_header_and_aligned_columns() {
    let result = fr(vec![make_asset(
        "a1",
        "/mnt/qnap/a.jpg",
        "IMAGE",
        "2025-01-01T00:00:00Z",
    )]);
    let mut args = default_args();
    args.query = Some("x".into());
    args.format = OutputFormat::Table;
    let out = emitted(&args, &result).out;
    let lines: Vec<&str> = out.lines().collect();
    assert_eq!(lines.len(), 2);
    assert!(lines[0].starts_with("TYPE"));
    assert!(lines[0].contains("TAKEN"));
    assert!(lines[0].contains("LOCATION"));
    assert!(lines[0].contains("PATH"));
    assert!(lines[1].contains("IMAGE"));
    assert!(lines[1].contains("2025-01-01"));
    assert!(lines[1].contains("Shanghai, Shanghai, China"));
    assert!(lines[1].contains("/home/u/Photos/a.jpg"));
}

// ---- truncation marker --------------------------------------------

#[test]
fn emit_paths_appends_dots_when_truncated() {
    let result = fr_truncated(vec![make_asset(
        "a1",
        "/mnt/qnap/a.jpg",
        "IMAGE",
        "2025-01-01T00:00:00Z",
    )]);
    let mut args = default_args();
    args.query = Some("x".into());
    let out = emitted(&args, &result).out;
    let lines: Vec<&str> = out.lines().collect();
    assert_eq!(lines, vec!["/home/u/Photos/a.jpg", "......"]);
}

#[test]
fn emit_paths_no_marker_when_not_truncated() {
    let result = fr(vec![make_asset(
        "a1",
        "/mnt/qnap/a.jpg",
        "IMAGE",
        "2025-01-01T00:00:00Z",
    )]);
    let mut args = default_args();
    args.query = Some("x".into());
    let out = emitted(&args, &result).out;
    assert!(!out.contains("......"), "got: {out}");
}

#[test]
fn emit_table_appends_dots_when_truncated() {
    let result = fr_truncated(vec![make_asset(
        "a1",
        "/mnt/qnap/a.jpg",
        "IMAGE",
        "2025-01-01T00:00:00Z",
    )]);
    let mut args = default_args();
    args.query = Some("x".into());
    args.format = OutputFormat::Table;
    let out = emitted(&args, &result).out;
    let last_line = out.lines().last().unwrap();
    assert_eq!(last_line, "......");
}

#[test]
fn emit_json_truncation_marker_is_parseable() {
    let result = fr_truncated(vec![make_asset(
        "a1",
        "/mnt/qnap/a.jpg",
        "IMAGE",
        "2025-01-01T00:00:00Z",
    )]);
    let mut args = default_args();
    args.query = Some("x".into());
    args.format = OutputFormat::Json;
    let out = emitted(&args, &result).out;
    let lines: Vec<&str> = out.lines().collect();
    assert_eq!(lines.len(), 2);
    let marker: serde_json::Value = serde_json::from_str(lines[1]).unwrap();
    assert_eq!(marker["truncated"], true);
}

// ---- perform_search: CLIP + description merge logic ------------------

struct FakeLlm {
    replies: RefCell<Vec<String>>,
    messages: RefCell<Vec<Vec<Message>>>,
}
impl FakeLlm {
    fn new(replies: &[&str]) -> Self {
        Self {
            replies: RefCell::new(replies.iter().map(|s| s.to_string()).collect()),
            messages: RefCell::new(Vec::new()),
        }
    }
    fn messages(&self) -> Vec<Vec<Message>> {
        self.messages.borrow().clone()
    }
}
impl ChatBackend for FakeLlm {
    fn chat_json(&self, messages: &Vec<Message>) -> Result<String, Error> {
        self.messages.borrow_mut().push(messages.to_vec());
        Ok(self.replies.borrow_mut().remove(0))
    }
}

impl MultiImageVisionLlm for FakeLlm {
    fn pick_best(
        &self,
        _system_prompt: &str,
        _user_prompt: &str,
        _images: &Vec<(Vec<u8>, String)>,
        _max_tokens: u32,
    ) -> Result<String, Error> {
        Ok(self.replies.borrow_mut().remove(0))
    }
    fn rank_images(
        &self,
        system_prompt: &str,
        user_prompt: &str,
        items: &Vec<(String, Vec<u8>, String)>,
        _max_tokens: u32,
    ) -> Result<String, Error> {
        // Record what the rerank saw as a message: the prompt, then each label.
        let mut content = String::new();
        content.push_str(user_prompt);
        for (label, bytes, _mime) in items {
            content.push('\n');
            content.push_str(label);
            content.push_str(&format!(" [thumbnail {} bytes]", bytes.len()));
        }
        self.messages.borrow_mut().push(vec![
            Message::system(system_prompt),
            Message::user(&content),
        ]);
        Ok(self.replies.borrow_mut().remove(0))
    }
}

fn asset_with_desc(id: &str, path: &str, desc: &str) -> Asset {
    let mut a = make_asset(id, path, "IMAGE", "2025-01-01T00:00:00Z");
    if let Some(e) = a.exif_info.as_mut() {
        e.description = Some(desc.into());
    }
    a
}

fn sample_vocab() -> Vec<CityVocabEntry> {
    vec![
        CityVocabEntry {
            country: "People's Republic of China".into(),
            state: "Shanghai".into(),
            city: "Pudong".into(),
            admin2: None,
        },
        CityVocabEntry {
            country: "People's Republic of China".into(),
            state: "Zhejiang".into(),
            city: "Andong".into(),
            admin2: None,
        },
    ]
}

#[test]
fn perform_search_without_query_does_filter_only_no_llm() {
    let backend = FakeBackend::new(vec![resp(
        vec![asset_with_desc("a", "/mnt/x/a.jpg", "desc-a")],
        None,
    )]);
    let mut args = default_args();
    args.taken_after = Some("2025-01-01".into());
    // LLM provided but should NOT be used (no -q, no --place).
    let llm = FakeLlm::new(&[]);
    let got = perform_search(&cfg(), &fb(&backend, Some(&llm)), &Admin2Lookup::new(), &args)
        .unwrap();
    assert_eq!(got.assets.len(), 1);
    // Only the CLIP/metadata path call, never the description workflow.
    assert_eq!(backend.calls().len(), 1);
}

#[test]
fn perform_search_with_query_no_llm_runs_clip_only() {
    let backend = FakeBackend::new(vec![resp(
        vec![asset_with_desc("a", "/mnt/x/a.jpg", "desc-a")],
        None,
    )]);
    let mut args = default_args();
    args.query = Some("elephants".into());
    let got = perform_search(&cfg(), &fb(&backend, None), &Admin2Lookup::new(), &args).unwrap();
    assert_eq!(got.assets.len(), 1);
    assert_eq!(backend.calls().len(), 1);
    // The single call was to /smart (query is set).
    assert_eq!(backend.calls()[0].query.as_deref(), Some("elephants"));
}

#[test]
fn perform_search_description_only_requires_llm() {
    let backend = FakeBackend::new(vec![]);
    let mut args = default_args();
    args.query = Some("elephants".into());
    args.description_only = true;
    let err = perform_search(&cfg(), &fb(&backend, None), &Admin2Lookup::new(), &args)
        .unwrap_err()
        .message();
    assert!(err.contains("[llm]"), "got: {err}");
}

#[test]
fn perform_search_description_only_skips_clip_path() {
    let backend = FakeBackend::new(vec![
        // Only the per-keyword metadata search; no CLIP call.
        resp(vec![asset_with_desc("a", "/mnt/x/a.jpg", "desc-a")], None),
    ]);
    let mut args = default_args();
    args.query = Some("elephants".into());
    args.description_only = true;
    let llm = FakeLlm::new(&[r#"{"keywords":["大象"]}"#, r#"{"ids":["c001"]}"#]);
    let got = perform_search(&cfg(), &fb(&backend, Some(&llm)), &Admin2Lookup::new(), &args)
        .unwrap();
    assert_eq!(got.assets.len(), 1);
    assert_eq!(got.assets[0].id, "a");
    // Exactly 1 search call: per-keyword. No CLIP call.
    let calls = backend.calls();
    assert_eq!(calls.len(), 1);
    assert_eq!(calls[0].description.as_deref(), Some("大象"));
    assert!(calls[0].query.is_none(), "CLIP query must not be sent");
}

#[test]
fn perform_search_combined_uses_single_llm_rerank_over_deduped_candidates() {
    // CLIP returns: [a, b] (in that rank order)
    // Keyword search returns: [c, b]. Candidate order is a=c001,
    // b=c002, c=c003; b carries both smart + description evidence.
    let backend = FakeBackend::new(vec![
        // First call: CLIP smart search (query is set)
        resp(
            vec![
                asset_with_desc("a", "/mnt/x/a.jpg", "x"),
                asset_with_desc("b", "/mnt/x/b.jpg", "x"),
            ],
            None,
        ),
        // Then one metadata call per keyword (just one keyword here)
        resp(
            vec![
                asset_with_desc("c", "/mnt/x/c.jpg", "desc-c"),
                asset_with_desc("b", "/mnt/x/b.jpg", "desc-b"),
            ],
            None,
        ),
    ]);
    let mut args = default_args();
    args.query = Some("elephants".into());
    let llm = FakeLlm::new(&[r#"{"keywords":["大象"]}"#, r#"{"ids":["c003","c002"]}"#]);
    let got = perform_search(&cfg(), &fb(&backend, Some(&llm)), &Admin2Lookup::new(), &args)
        .unwrap();
    let ids: Vec<&str> = got.assets.iter().map(|a| a.id.as_str()).collect();
    assert_eq!(ids, vec!["c", "b"]);
}

#[test]
fn perform_search_rerank_prompt_includes_metadata_people_and_evidence_without_paths() {
    let backend = FakeBackend::new(vec![
        resp(
            vec![asset_with_desc("a", "/mnt/x/a.jpg", "smart-desc")],
            None,
        ),
        resp(
            vec![asset_with_desc("a", "/mnt/x/a.jpg", "keyword-desc")],
            None,
        ),
    ]);
    let mut cfg = cfg();
    cfg.people
        .insert("测试人物甲".into(), vec!["女儿".into(), "孩子".into()]);
    let lookup = Admin2Lookup::new().insert(
        "China".into(),
        "Shanghai".into(),
        "Shanghai".into(),
        "Shanghai Shi".into(),
    );
    let mut args = default_args();
    args.query = Some("孩子".into());
    let llm = FakeLlm::new(&[r#"{"keywords":["孩子"]}"#, r#"{"ids":["c001"]}"#]);

    let got = perform_search(&cfg, &fb(&backend, Some(&llm)), &lookup, &args).unwrap();
    assert_eq!(got.assets[0].id, "a");

    let messages = llm.messages();
    assert_eq!(messages.len(), 2);
    // messages[0] = keyword expansion (chat_json), messages[1] = vision rerank.
    let rerank_user = &messages[1][1].content;
    // Compact label format: `key=value | key=value`; thumbnails are
    // logged inline so we can still assert the candidate was sent.
    assert!(rerank_user.contains("id=c001"), "{rerank_user}");
    assert!(rerank_user.contains("type=IMAGE"), "{rerank_user}");
    assert!(rerank_user.contains("taken="), "{rerank_user}");
    assert!(
        rerank_user.contains("loc=China/Shanghai/Shanghai Shi/Shanghai"),
        "{rerank_user}"
    );
    assert!(
        rerank_user.contains("people=测试人物甲（女儿/孩子）"),
        "{rerank_user}"
    );
    assert!(
        rerank_user.contains("sources=smart+description"),
        "{rerank_user}"
    );
    assert!(rerank_user.contains("matched=孩子"), "{rerank_user}");
    assert!(rerank_user.contains("[thumbnail "), "{rerank_user}");
    assert!(!rerank_user.contains("/mnt/x/a.jpg"), "{rerank_user}");
    // The vision rerank prompt's text body should NOT contain the raw
    // description excerpt — that's the whole point of switching to the
    // thumbnail.
    assert!(!rerank_user.contains("smart-desc"), "{rerank_user}");
    assert!(!rerank_user.contains("keyword-desc"), "{rerank_user}");
}

#[test]
fn perform_search_hard_filters_apply_to_both_paths() {
    // --place "上海浦东" resolves to a single match; both the CLIP
    // call and the description metadata call must carry the geo.
    let backend = FakeBackend::new(vec![
        resp(vec![asset_with_desc("a", "/mnt/x/a.jpg", "x")], None),
        resp(vec![asset_with_desc("b", "/mnt/x/b.jpg", "desc")], None),
    ])
    .with_vocab(sample_vocab());
    let mut args = default_args();
    args.query = Some("x".into());
    args.place = Some("上海浦东".into());
    let llm = FakeLlm::new(&[
        // 1. place resolution → 1 match
        r#"{"matches":[{"country":"People's Republic of China","state":"Shanghai","city":"Pudong"}]}"#,
        // 2. keyword expansion
        r#"{"keywords":["猫"]}"#,
        // 3. rerank
        r#"{"ids":["c002"]}"#,
    ]);
    perform_search(&cfg(), &fb(&backend, Some(&llm)), &Admin2Lookup::new(), &args).unwrap();
    let calls = backend.calls();
    assert_eq!(calls.len(), 2);
    for c in &calls {
        assert_eq!(c.country.as_deref(), Some("People's Republic of China"));
        assert_eq!(c.state.as_deref(), Some("Shanghai"));
        assert_eq!(c.city.as_deref(), Some("Pudong"));
    }
}

#[test]
fn perform_search_combined_reranks_smart_hits_when_description_empty() {
    let backend = FakeBackend::new(vec![
        // CLIP returns 1 hit
        resp(vec![asset_with_desc("a", "/mnt/x/a.jpg", "x")], None),
        // Description workflow's substring search hits nothing
        resp(vec![], None),
    ]);
    let mut args = default_args();
    args.query = Some("elephants".into());
    let llm = FakeLlm::new(&[r#"{"keywords":["大象"]}"#, r#"{"ids":["c001"]}"#]);
    let got = perform_search(&cfg(), &fb(&backend, Some(&llm)), &Admin2Lookup::new(), &args)
        .unwrap();
    assert_eq!(got.assets.len(), 1);
    assert_eq!(got.assets[0].id, "a");
}

// ---- --place: resolution + multi-match merge -----------------------

#[test]
fn perform_search_place_requires_llm() {
    let backend = FakeBackend::new(vec![]);
    let mut args = default_args();
    args.place = Some("上海".into());
    let err = perform_search(&cfg(), &fb(&backend, None), &Admin2Lookup::new(), &args)
        .unwrap_err()
        .message();
    assert!(err.contains("--place"), "got: {err}");
    assert!(err.contains("[llm]"), "got: {err}");
}

#[test]
fn perform_search_place_with_no_query_uses_resolved_geo() {
    // --place "中国" → country-only match; no -q means filter-only fetch.
    let backend = FakeBackend::new(vec![resp(
        vec![asset_with_desc("a", "/mnt/x/a.jpg", "x")],
        None,
    )])
    .with_vocab(sample_vocab());
    let mut args = default_args();
    args.place = Some("中国".into());
    let llm = FakeLlm::new(&[r#"{"matches":[{"country":"People's Republic of China"}]}"#]);
    let got = perform_search(&cfg(), &fb(&backend, Some(&llm)), &Admin2Lookup::new(), &args)
        .unwrap();
    assert_eq!(got.assets.len(), 1);
    let calls = backend.calls();
    assert_eq!(calls.len(), 1);
    assert_eq!(
        calls[0].country.as_deref(),
        Some("People's Republic of China")
    );
    assert!(calls[0].state.is_none());
    assert!(calls[0].city.is_none());
}

#[test]
fn perform_search_place_with_no_match_bails() {
    let backend = FakeBackend::new(vec![]).with_vocab(sample_vocab());
    let mut args = default_args();
    args.place = Some("Antarctica".into());
    let llm = FakeLlm::new(&[r#"{"matches":[]}"#]);
    let err = perform_search(&cfg(), &fb(&backend, Some(&llm)), &Admin2Lookup::new(), &args)
        .unwrap_err()
        .message();
    assert!(err.contains("no place"), "got: {err}");
}

#[test]
fn perform_search_multi_place_runs_one_fetch_each_and_rrf_merges() {
    // Two matches → two filter-only Immich calls, results merged by RRF.
    let backend = FakeBackend::new(vec![
        resp(
            vec![
                asset_with_desc("a", "/mnt/x/a.jpg", "x"),
                asset_with_desc("b", "/mnt/x/b.jpg", "x"),
            ],
            None,
        ),
        resp(
            vec![
                asset_with_desc("c", "/mnt/x/c.jpg", "x"),
                asset_with_desc("b", "/mnt/x/b.jpg", "x"),
            ],
            None,
        ),
    ])
    .with_vocab(sample_vocab());
    let mut args = default_args();
    args.place = Some("Anping".into());
    // Pretend "Anping" matches two cities in two states.
    let llm = FakeLlm::new(&[r#"{"matches":[
        {"country":"People's Republic of China","state":"Shanghai","city":"Pudong"},
        {"country":"People's Republic of China","state":"Zhejiang","city":"Andong"}
    ]}"#]);
    let got = perform_search(&cfg(), &fb(&backend, Some(&llm)), &Admin2Lookup::new(), &args)
        .unwrap();
    // RRF: b appears in both lists (rank 2 in each) → top.
    let ids: Vec<&str> = got.assets.iter().map(|a| a.id.as_str()).collect();
    assert_eq!(ids[0], "b");
    // Two Immich calls, one per match, each with its own geo.
    let calls = backend.calls();
    assert_eq!(calls.len(), 2);
    assert_eq!(calls[0].city.as_deref(), Some("Pudong"));
    assert_eq!(calls[1].city.as_deref(), Some("Andong"));
}

// ---- further cases ---------------------------------------------------

#[test]
fn endpoints_depend_on_the_query() {
    let mut req = SearchRequest::default();
    assert_eq!(search_endpoint(&req), "/api/search/metadata");
    req.query = Some("beach".into());
    assert_eq!(search_endpoint(&req), "/api/search/smart");
}

#[test]
fn asset_types_have_the_names_of_the_server() {
    assert_eq!(AssetTypeArg::Image.as_api_str(), "IMAGE");
    assert_eq!(AssetTypeArg::Video.as_api_str(), "VIDEO");
    assert_eq!(AssetTypeArg::Audio.as_api_str(), "AUDIO");
    assert_eq!(AssetTypeArg::Other.as_api_str(), "OTHER");
}

#[test]
fn refused_arguments_say_why() {
    let mut args = default_args();
    args.limit = Some(0);
    assert!(matches!(args.validate(), Err(Error::LimitZero)));
    args.limit = None;
    assert!(matches!(args.validate(), Err(Error::NoFilter)));
    assert!(!args.has_filter());
    args.query = Some("x".into());
    assert!(args.has_filter());
    args.limit = Some(49);
    assert!(matches!(args.validate(), Err(Error::QueryLimitTooHigh)));
}

#[test]
fn leap_days_are_in_the_calendar_every_fourth_year() {
    assert_eq!(
        normalize_date_start("2024-02-29").unwrap(),
        "2024-02-29T00:00:00.000Z"
    );
    assert!(normalize_date_start("2023-02-29").is_err());
    assert!(normalize_date_start("2100-02-29").is_err());
    assert_eq!(
        normalize_date_end(" 2000-02-29 ").unwrap(),
        "2000-02-29T23:59:59.999Z"
    );
}

#[test]
fn dates_that_are_blank_or_wrong_are_errors() {
    assert!(matches!(normalize_date("  ", false), Err(Error::DateEmpty)));
    let err = normalize_date("2025-02-30", true).unwrap_err();
    assert_eq!(
        err.message(),
        "invalid date `2025-02-30`, expected YYYY-MM-DD"
    );
    assert_eq!(normalize_date("2025", true).unwrap(), "2025");
}

#[test]
fn blank_date_flags_are_not_sent() {
    assert_eq!(read_bound(&None, false).unwrap(), None);
    assert_eq!(read_bound(&Some(" ".into()), false).unwrap(), None);
    assert_eq!(
        read_bound(&Some(" 2025-01-01 ".into()), true).unwrap(),
        Some("2025-01-01T23:59:59.999Z".to_string())
    );
    assert!(read_bound(&Some("2025-00-01".into()), true).is_err());
    assert_eq!(cleaned(&Some("  x ".into())), Some("x".to_string()));
    assert_eq!(cleaned(&Some("\t".into())), None);
}

#[test]
fn a_wrong_date_stops_the_search() {
    let backend = FakeBackend::new(vec![]);
    let mut args = default_args();
    args.taken_before = Some("2025-13-01".into());
    let err = fetch_assets(&backend, &args, &no_place()).unwrap_err();
    assert!(matches!(err, Error::DateInvalid { .. }));
    assert_eq!(err.cause().as_deref(), Some("input is out of range"));
    assert!(backend.calls().is_empty());
}

struct Stacks(Vec<Stack>);
impl StacksBackend for Stacks {
    fn stacks(&self) -> Result<Vec<Stack>, Error> {
        Ok(self
            .0
            .iter()
            .map(|s| Stack {
                primary_asset_id: s.primary_asset_id.clone(),
                assets: s.assets.iter().map(|m| stack_member(&m.id)).collect(),
            })
            .collect())
    }
}

struct NoStacks;
impl StacksBackend for NoStacks {
    fn stacks(&self) -> Result<Vec<Stack>, Error> {
        Err(Error::Backend("down".into()))
    }
}

#[test]
fn stacks_hide_their_members_unless_asked_not_to() {
    let stacks = Stacks(vec![Stack {
        primary_asset_id: "p".into(),
        assets: vec![stack_member("p"), stack_member("c")],
    }]);
    let mut args = default_args();
    let (hidden, warning) = hidden_for(&stacks, &args);
    assert!(hidden.contains("c") && !hidden.contains("p"));
    assert!(warning.is_none());
    args.include_stacked = true;
    let (hidden, warning) = hidden_for(&stacks, &args);
    assert!(hidden.is_empty());
    assert!(warning.is_none());
}

#[test]
fn without_stacks_nothing_is_hidden_and_the_user_is_warned() {
    let (hidden, warning) = hidden_for(&NoStacks, &default_args());
    assert!(hidden.is_empty());
    assert_eq!(
        warning.unwrap(),
        "warn: could not fetch /api/stacks (down); results may include stacked duplicates"
    );
}

#[test]
fn emitted_warnings_name_the_files() {
    let result = fr(vec![
        make_asset("a1", "/mnt/qnap/nope.jpg", "IMAGE", "2025-01-01T00:00:00Z"),
        make_asset("a2", "/other/b.jpg", "IMAGE", "2025-01-02T00:00:00Z"),
    ]);
    let mut args = default_args();
    args.verify = true;
    let got = emitted(&args, &result);
    assert_eq!(
        got.warnings,
        "warn: local file missing for asset a1: /home/u/Photos/nope.jpg\n\
         warn: no path mapping for /other/b.jpg (asset a2)\n"
    );
}

#[test]
fn emitted_json_has_all_fields_in_order() {
    let result = fr(vec![make_asset(
        "a1",
        "/mnt/qnap/a \"1\".jpg",
        "IMAGE",
        "2025-01-01T00:00:00Z",
    )]);
    let mut args = default_args();
    args.format = OutputFormat::Json;
    assert_eq!(
        emitted(&args, &result).out,
        "{\"city\":\"Shanghai\",\"country\":\"China\",\"id\":\"a1\",\"latitude\":31.0,\
         \"localDateTime\":\"2025-01-01T00:00:00Z\",\
         \"localPath\":\"/home/u/Photos/a \\\"1\\\".jpg\",\"longitude\":121.0,\"missing\":false,\
         \"originalFileName\":\"a \\\"1\\\".jpg\",\"originalPath\":\"/mnt/qnap/a \\\"1\\\".jpg\",\
         \"state\":\"Shanghai\",\"type\":\"IMAGE\",\"unmapped\":false}\n"
    );
}

#[test]
fn emitted_tables_line_up() {
    let mut other = make_asset("a2", "/mnt/qnap/b.mp4", "VIDEO", "2024-12-31T00:00:00Z");
    other.exif_info = None;
    let result = fr(vec![
        make_asset("a1", "/mnt/qnap/a.jpg", "IMAGE", "2025-01-01T00:00:00Z"),
        other,
    ]);
    let mut args = default_args();
    args.format = OutputFormat::Table;
    assert_eq!(
        emitted(&args, &result).out,
        "TYPE   TAKEN       LOCATION                   PATH\n\
         IMAGE  2025-01-01  Shanghai, Shanghai, China  /home/u/Photos/a.jpg\n\
         VIDEO  2024-12-31                             /home/u/Photos/b.mp4\n"
    );
}

#[test]
fn local_paths_follow_the_path_map() {
    let assets = vec![
        make_asset("a1", "/mnt/qnap/a.jpg", "IMAGE", "2025-01-01T00:00:00Z"),
        make_asset("a2", "/other/b.jpg", "IMAGE", "2025-01-02T00:00:00Z"),
    ];
    assert_eq!(
        local_paths(&pmap(), &assets),
        vec![Some("/home/u/Photos/a.jpg".to_string()), None]
    );
}

#[test]
fn a_pool_holds_each_asset_once() {
    let a = make_asset("a", "/mnt/x/a.jpg", "IMAGE", "2025-01-01T00:00:00Z");
    let b = make_asset("b", "/mnt/x/b.jpg", "IMAGE", "2025-01-01T00:00:00Z");
    let mut pool = CandidatePool::new();
    pool.add_smart_candidate(&a);
    pool.add_keyword_candidate(&b, "猫");
    pool.add_keyword_candidate(&a, "猫");
    pool.add_keyword_candidate(&a, "猫");
    pool.add_smart_candidate(&b);
    assert_eq!(pool.items.len(), 2);
    assert_eq!(pool.items[0].asset.id, "a");
    assert!(pool.items[0].smart);
    assert_eq!(pool.items[0].matched_keywords, vec!["猫"]);
    assert!(pool.items[1].smart);
}

#[test]
fn only_configured_people_are_named() {
    let mut people = People::new();
    people.insert("甲".into(), vec!["女儿".into()]);
    let detail =
        read_json(r#"{"people":[{"name":" 甲 "},{"name":"乙"},{"name":""},{"name":"甲"},{}]}"#).unwrap();
    assert_eq!(label_people(&detail, &people), vec!["甲（女儿）"]);
    assert!(label_people(&read_json("[]").unwrap(), &people).is_empty());
}

#[test]
fn a_place_that_is_unknown_is_named_in_the_error() {
    let backend = FakeBackend::new(vec![]).with_vocab(sample_vocab());
    let mut args = default_args();
    args.place = Some(" Antarctica ".into());
    let llm = FakeLlm::new(&[r#"{"matches":[]}"#]);
    let err = perform_search(&cfg(), &fb(&backend, Some(&llm)), &Admin2Lookup::new(), &args)
        .unwrap_err();
    assert_eq!(
        err.message(),
        "no place in the library matches `Antarctica` — try a different wording or check the library's geocoding"
    );
}

#[test]
fn a_rank_reply_names_candidates_by_their_short_ids() {
    let backend = FakeBackend::new(vec![
        resp(
            vec![
                asset_with_desc("a", "/mnt/x/a.jpg", "x"),
                asset_with_desc("b", "/mnt/x/b.jpg", "x"),
            ],
            None,
        ),
        resp(vec![], None),
    ]);
    let mut args = default_args();
    args.query = Some("q".into());
    let llm = FakeLlm::new(&[
        r#"{"keywords":["k"]}"#,
        r#"{"ids":["c002","c009","c002","c001"]}"#,
    ]);
    let got =
        perform_search(&cfg(), &fb(&backend, Some(&llm)), &Admin2Lookup::new(), &args).unwrap();
    let ids: Vec<&str> = got.assets.iter().map(|a| a.id.as_str()).collect();
    assert_eq!(ids, vec!["b", "a"]);
    assert!(!got.truncated);
}

#[test]
fn a_page_that_is_absent_or_null_is_the_last() {
    assert!(resp(vec![], Some("2")).has_more());
    assert!(!resp(vec![], None).has_more());
    let mut page = resp(vec![], None);
    page.assets.next_page = Some(Json::Null);
    assert!(!page.has_more());
}

struct NoDetail;
impl CaptionBackend for NoDetail {
    fn thumbnail(&self, _id: &str) -> Result<Vec<u8>, Error> {
        Err(Error::Backend("gone".into()))
    }
    fn update_description(&self, _id: &str, _description: &str) -> Result<(), Error> {
        Ok(())
    }
}
impl InfoBackend for NoDetail {
    fn get_asset(&self, _id: &str) -> Result<Json, Error> {
        Err(Error::Backend("gone".into()))
    }
    fn albums_for_asset(&self, _id: &str) -> Result<Json, Error> {
        Err(Error::Backend("gone".into()))
    }
    fn ocr_for_asset(&self, _id: &str) -> Result<Json, Error> {
        Err(Error::Backend("gone".into()))
    }
}

fn one_hit() -> FakeBackend {
    FakeBackend::new(vec![
        resp(vec![asset_with_desc("a", "/mnt/x/a.jpg", "x")], None),
        resp(vec![], None),
    ])
}

#[test]
fn a_missing_thumbnail_stops_the_search() {
    let backend = one_hit();
    let llm = FakeLlm::new(&[r#"{"keywords":["k"]}"#]);
    let backends = Backends {
        search: &backend,
        places: &backend,
        info: &backend,
        thumbs: &NoDetail,
        llm: Some(&llm),
    };
    let mut args = default_args();
    args.query = Some("q".into());
    let err = perform_search(&cfg(), &backends, &Admin2Lookup::new(), &args).unwrap_err();
    assert!(matches!(err, Error::During { .. }));
    assert_eq!(
        err.full_message(),
        "failed to fetch thumbnail for a: gone"
    );
}

#[test]
fn a_missing_detail_stops_the_search_where_people_are_configured() {
    let mut cfg = cfg();
    cfg.people.insert("甲".into(), vec![]);
    let backend = one_hit();
    let llm = FakeLlm::new(&[r#"{"keywords":["k"]}"#]);
    let backends = Backends {
        search: &backend,
        places: &backend,
        info: &NoDetail,
        thumbs: &backend,
        llm: Some(&llm),
    };
    let mut args = default_args();
    args.query = Some("q".into());
    let err = perform_search(&cfg, &backends, &Admin2Lookup::new(), &args).unwrap_err();
    assert_eq!(
        err.full_message(),
        "failed to fetch full asset detail for a: gone"
    );
}

#[test]
fn errors_of_a_search_are_told_apart() {
    let backend = FakeBackend::new(vec![]);
    let mut args = default_args();
    args.place = Some("x".into());
    let err =
        perform_search(&cfg(), &fb(&backend, None), &Admin2Lookup::new(), &args).unwrap_err();
    assert!(matches!(err, Error::PlaceNeedsLlm));
    args.place = None;
    args.query = Some("q".into());
    args.description_only = true;
    let err =
        perform_search(&cfg(), &fb(&backend, None), &Admin2Lookup::new(), &args).unwrap_err();
    assert!(matches!(err, Error::DescriptionNeedsLlm));
}

#[test]
fn results_of_all_places_stay_within_the_limit() {
    let backend = FakeBackend::new(vec![
        resp(
            vec![
                asset_with_desc("a", "/mnt/x/a.jpg", "x"),
                asset_with_desc("b", "/mnt/x/b.jpg", "x"),
            ],
            None,
        ),
        resp(vec![asset_with_desc("c", "/mnt/x/c.jpg", "x")], None),
    ])
    .with_vocab(sample_vocab());
    let mut args = default_args();
    args.place = Some("p".into());
    args.limit = Some(2);
    let llm = FakeLlm::new(&[
        r#"{"matches":[{"country":"A"},{"country":"B"}]}"#,
    ]);
    let got =
        perform_search(&cfg(), &fb(&backend, Some(&llm)), &Admin2Lookup::new(), &args).unwrap();
    let ids: Vec<&str> = got.assets.iter().map(|a| a.id.as_str()).collect();
    assert_eq!(ids, vec!["a", "c"]);
    assert!(got.truncated);
}

fn hiding(ids: &[&str]) -> IdSet {
    let mut hidden = IdSet::new();
    for id in ids {
        hidden.insert(id);
    }
    hidden
}

fn image(id: &str) -> Asset {
    make_asset(id, "/mnt/x/a.jpg", "IMAGE", "2025-01-01T00:00:00Z")
}

#[test]
fn a_page_that_is_hidden_entirely_does_not_end_the_walk() {
    let backend = FakeBackend::new(vec![
        resp(vec![image("c1")], Some("2")),
        resp(vec![image("y")], None),
    ]);
    let filtered = StackFilteredBackend::new(&backend, hiding(&["c1"]));
    let mut args = default_args();
    args.query = Some("x".into());
    args.limit = Some(10);
    let got = fetch_assets_inner(&filtered, &args, 3, &no_place()).unwrap();
    let ids: Vec<&str> = got.assets.iter().map(|a| a.id.as_str()).collect();
    assert_eq!(ids, vec!["y"]);
    assert!(!got.truncated);
    assert_eq!(backend.calls().len(), 2);
}

#[test]
fn a_small_limit_is_filled_from_behind_hidden_pages() {
    let backend = FakeBackend::new(vec![
        resp(vec![image("c1")], Some("2")),
        resp(vec![image("c2")], Some("3")),
        resp(vec![image("y")], Some("4")),
    ]);
    let filtered = StackFilteredBackend::new(&backend, hiding(&["c1", "c2"]));
    let mut args = default_args();
    args.query = Some("x".into());
    args.limit = Some(1);
    let got = fetch_assets(&filtered, &args, &no_place()).unwrap();
    assert_eq!(got.assets.len(), 1);
    assert_eq!(got.assets[0].id, "y");
    assert!(got.truncated);
    let pages: Vec<Option<u32>> = backend.calls().iter().map(|c| c.page).collect();
    assert_eq!(pages, vec![Some(1), Some(2), Some(3)]);
}

#[test]
fn an_empty_page_of_the_server_ends_the_walk() {
    let backend = FakeBackend::new(vec![resp(vec![], Some("2"))]);
    let mut args = default_args();
    args.query = Some("x".into());
    let got = fetch_assets(&backend, &args, &no_place()).unwrap();
    assert!(got.assets.is_empty());
    assert!(!got.truncated);
    assert_eq!(backend.calls().len(), 1);
}

#[test]
fn normalized_dates_stay_as_they_are() {
    let start = normalize_date_start(" 2025-03-04 ").unwrap();
    assert_eq!(start, "2025-03-04T00:00:00.000Z");
    assert_eq!(normalize_date_start(&start).unwrap(), start);
    assert_eq!(normalize_date_end(&start).unwrap(), start);
    let passed = normalize_date_end(" last week ").unwrap();
    assert_eq!(passed, "last week");
    assert_eq!(normalize_date_start(&passed).unwrap(), passed);
}
