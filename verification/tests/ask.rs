use immich_cli::client::SearchBackend;
use immich_cli::commands::ask::answer::{
    collect_candidates, excerpt, expand_keywords, rerank, take_in_order,
    DESCRIPTION_EXCERPT_CHARS, MAX_CANDIDATES, MAX_KEYWORDS,
};
use immich_cli::commands::ask::emit::emit;
use immich_cli::commands::ask::{run_with, AskArgs, OutputFormat};
use immich_cli::config::PathMapEntry;
use immich_cli::error::Error;
use immich_cli::llm::{ChatBackend, Message};
use immich_cli::models::{Asset, AssetsBucket, ExifInfo, SearchRequest, SearchResponse};
use std::cell::RefCell;

// ---- fakes ----

struct FakeSearch {
    responses: RefCell<Vec<SearchResponse>>,
    calls: RefCell<Vec<SearchRequest>>,
}
impl FakeSearch {
    fn new(responses: Vec<SearchResponse>) -> Self {
        Self {
            responses: RefCell::new(responses),
            calls: RefCell::new(vec![]),
        }
    }
}
impl SearchBackend for FakeSearch {
    fn search(&self, req: &SearchRequest) -> Result<SearchResponse, Error> {
        self.calls.borrow_mut().push(req.clone());
        Ok(self.responses.borrow_mut().remove(0))
    }
}

struct FakeLlm {
    replies: RefCell<Vec<String>>,
    calls: RefCell<Vec<Vec<Message>>>,
}
impl FakeLlm {
    fn new(replies: &[&str]) -> Self {
        Self {
            replies: RefCell::new(replies.iter().map(|s| s.to_string()).collect()),
            calls: RefCell::new(vec![]),
        }
    }
}
impl ChatBackend for FakeLlm {
    fn chat_json(&self, messages: &Vec<Message>) -> Result<String, Error> {
        self.calls.borrow_mut().push(messages.to_vec());
        if self.replies.borrow().is_empty() {
            return Err(Error::Backend("FakeLlm out of canned replies".into()));
        }
        Ok(self.replies.borrow_mut().remove(0))
    }
}

fn asset(id: &str, path: &str, description: &str) -> Asset {
    Asset {
        id: id.into(),
        original_path: path.into(),
        original_file_name: path.rsplit('/').next().unwrap_or(path).into(),
        asset_type: "IMAGE".into(),
        file_created_at: Some("2024-03-05T02:42:05Z".into()),
        local_date_time: Some("2024-03-05T10:42:05Z".into()),
        checksum: String::new(),
        exif_info: Some(ExifInfo {
            city: Some("Kangqiao".into()),
            state: Some("Shanghai".into()),
            country: Some("PRC".into()),
            latitude: None,
            longitude: None,
            description: Some(description.into()),
            date_time_original: None,
            file_size_in_byte: None,
        }),
    }
}

fn bucket(items: Vec<Asset>) -> SearchResponse {
    let n = items.len() as u32;
    SearchResponse {
        assets: AssetsBucket {
            total: n,
            count: n,
            items,
            next_page: None,
        },
    }
}

fn path_map() -> Vec<PathMapEntry> {
    vec![PathMapEntry {
        server: "/mnt/qnap".into(),
        local: "/home/u/Photos".into(),
    }]
}

/// What the command prints where all files exist.
fn ask(search: &FakeSearch, llm: &FakeLlm, args: &AskArgs) -> Result<String, Error> {
    let outcome = run_with(search, llm, args)?;
    let present = vec![true; outcome.selected.len()];
    Ok(emit(&path_map(), args, &outcome.selected, &present).out)
}

// ---- keyword expansion parsing ----

#[test]
fn expand_parses_keywords_object() {
    let llm = FakeLlm::new(&[r#"{"keywords":["大象","草原","象群"]}"#]);
    let got = expand_keywords(&llm, "大象").unwrap();
    assert_eq!(got, vec!["大象", "草原", "象群"]);
}

#[test]
fn expand_trims_and_drops_empties() {
    let llm = FakeLlm::new(&[r#"{"keywords":["  大象 ","",  "  "  ,"草原"]}"#]);
    let got = expand_keywords(&llm, "x").unwrap();
    assert_eq!(got, vec!["大象", "草原"]);
}

#[test]
fn expand_caps_at_16() {
    let many: Vec<String> = (0..30).map(|i| format!("k{i}")).collect();
    let json = format!(
        "{{\"keywords\":{}}}",
        serde_json::to_string(&many).unwrap()
    );
    let llm = FakeLlm::new(&[&json]);
    let got = expand_keywords(&llm, "x").unwrap();
    assert_eq!(got.len(), MAX_KEYWORDS);
}

#[test]
fn expand_dedupes_after_trim() {
    let llm = FakeLlm::new(&[r#"{"keywords":["大象","大象","象群","大象"]}"#]);
    let got = expand_keywords(&llm, "x").unwrap();
    assert_eq!(got, vec!["大象", "象群"]);
}

#[test]
fn expand_errors_on_garbage_reply() {
    let llm = FakeLlm::new(&["not json at all"]);
    let err = expand_keywords(&llm, "x").unwrap_err().message();
    assert!(err.contains("not valid JSON"), "got: {err}");
}

// ---- collect_candidates ----

#[test]
fn collect_unions_keywords_and_dedupes_by_id() {
    // kw "大象" → assets a, b
    // kw "草原" → assets b, c  (b is dup)
    let search = FakeSearch::new(vec![
        bucket(vec![
            asset("a", "/mnt/qnap/a.jpg", "大象在草原上"),
            asset("b", "/mnt/qnap/b.jpg", "象群迁徙"),
        ]),
        bucket(vec![
            asset("b", "/mnt/qnap/b.jpg", "象群迁徙"),
            asset("c", "/mnt/qnap/c.jpg", "非洲草原"),
        ]),
    ]);
    let got = collect_candidates(&search, &vec!["大象".into(), "草原".into()]).unwrap();
    let ids: Vec<&str> = got.iter().map(|a| a.id.as_str()).collect();
    assert_eq!(ids, vec!["a", "b", "c"]);
    let calls = search.calls.borrow();
    assert_eq!(calls.len(), 2);
    // Each call sends one keyword in description, withExif=true.
    assert_eq!(calls[0].description.as_deref(), Some("大象"));
    assert_eq!(calls[0].with_exif, Some(true));
    assert_eq!(calls[1].description.as_deref(), Some("草原"));
}

#[test]
fn collect_stops_at_max_candidates() {
    // First keyword already overflows MAX_CANDIDATES.
    let many: Vec<Asset> = (0..(MAX_CANDIDATES + 50))
        .map(|i| asset(&format!("a{i}"), &format!("/mnt/qnap/{i}.jpg"), "x"))
        .collect();
    let search = FakeSearch::new(vec![bucket(many)]);
    let got = collect_candidates(&search, &vec!["x".into(), "y".into()]).unwrap();
    assert_eq!(got.len(), MAX_CANDIDATES);
    // Should not have asked Immich for the 2nd keyword.
    assert_eq!(search.calls.borrow().len(), 1);
}

// ---- rerank ----

#[test]
fn rerank_parses_ids_and_includes_query_and_truncated_desc() {
    let big_desc = "象".repeat(DESCRIPTION_EXCERPT_CHARS + 500);
    let candidates = vec![
        asset("a", "/mnt/qnap/a.jpg", "短描述"),
        asset("b", "/mnt/qnap/b.jpg", &big_desc),
    ];
    let llm = FakeLlm::new(&[r#"{"ids":["b","a"]}"#]);
    let got = rerank(&llm, "找大象", &candidates).unwrap();
    assert_eq!(got, vec!["b", "a"]);
    // Verify the prompt content included query and truncated descriptions.
    let last = llm.calls.borrow().last().unwrap().clone();
    let user = last.iter().find(|m| m.role == "user").unwrap();
    assert!(user.content.contains("找大象"));
    // Truncated to DESCRIPTION_EXCERPT_CHARS + ellipsis.
    assert!(user.content.contains('…'));
    // Big desc should NOT be present in full.
    assert!(!user
        .content
        .contains(&"象".repeat(DESCRIPTION_EXCERPT_CHARS + 100)));
}

#[test]
fn rerank_handles_empty_ids() {
    let candidates = vec![asset("a", "/mnt/qnap/a.jpg", "x")];
    let llm = FakeLlm::new(&[r#"{"ids":[]}"#]);
    let got = rerank(&llm, "q", &candidates).unwrap();
    assert!(got.is_empty());
}

// ---- take_in_order ----

#[test]
fn take_in_order_preserves_llm_ranking_and_drops_unknowns() {
    let a = asset("a", "/mnt/qnap/a.jpg", "x");
    let b = asset("b", "/mnt/qnap/b.jpg", "y");
    let c = asset("c", "/mnt/qnap/c.jpg", "z");
    let candidates = vec![a.clone(), b.clone(), c.clone()];
    let selected: Vec<String> = vec!["c".into(), "ghost".into(), "a".into(), "c".into()];
    let got = take_in_order(&candidates, &selected, 10);
    let ids: Vec<&str> = got.iter().map(|a| a.id.as_str()).collect();
    assert_eq!(ids, vec!["c", "a"]);
}

#[test]
fn take_in_order_respects_limit() {
    let candidates: Vec<Asset> = (0..5)
        .map(|i| asset(&format!("a{i}"), &format!("/mnt/qnap/{i}.jpg"), "x"))
        .collect();
    let selected: Vec<String> = candidates.iter().map(|a| a.id.clone()).collect();
    let got = take_in_order(&candidates, &selected, 2);
    assert_eq!(got.len(), 2);
    assert_eq!(got[0].id, "a0");
    assert_eq!(got[1].id, "a1");
}

// ---- end-to-end run_with ----

fn args() -> AskArgs {
    AskArgs {
        query: "非洲草原大象".into(),
        limit: 50,
        format: OutputFormat::Paths,
        verify: false,
    }
}

#[test]
fn run_with_full_flow_emits_paths() {
    let search = FakeSearch::new(vec![
        // for keyword "大象"
        bucket(vec![
            asset("a", "/mnt/qnap/elephants.jpg", "非洲草原大象在迁徙"),
            asset("b", "/mnt/qnap/zebras.jpg", "非洲斑马"),
        ]),
        // for keyword "草原"
        bucket(vec![
            asset("b", "/mnt/qnap/zebras.jpg", "非洲斑马"),
            asset("c", "/mnt/qnap/cat.jpg", "猫坐在窗台上"),
        ]),
    ]);
    let llm = FakeLlm::new(&[
        r#"{"keywords":["大象","草原"]}"#,
        // rerank: only 'a' truly matches the query.
        r#"{"ids":["a"]}"#,
    ]);
    let out = ask(&search, &llm, &args()).unwrap();
    assert_eq!(out.trim(), "/home/u/Photos/elephants.jpg");
}

#[test]
fn run_with_json_format_includes_rank_and_description() {
    let search = FakeSearch::new(vec![bucket(vec![asset(
        "a",
        "/mnt/qnap/elephants.jpg",
        "非洲草原大象迁徙的壮观场景",
    )])]);
    let llm = FakeLlm::new(&[r#"{"keywords":["大象"]}"#, r#"{"ids":["a"]}"#]);
    let mut a = args();
    a.format = OutputFormat::Json;
    let out = ask(&search, &llm, &a).unwrap();
    let line = out.lines().next().expect("expected one line");
    let parsed: serde_json::Value = serde_json::from_str(line).unwrap();
    assert_eq!(parsed["rank"], 1);
    assert_eq!(parsed["id"], "a");
    assert_eq!(parsed["localPath"], "/home/u/Photos/elephants.jpg");
    assert_eq!(parsed["description"], "非洲草原大象迁徙的壮观场景");
}

#[test]
fn run_with_table_format_has_header_with_rank_column() {
    let search = FakeSearch::new(vec![bucket(vec![asset(
        "a",
        "/mnt/qnap/x.jpg",
        "non-empty",
    )])]);
    let llm = FakeLlm::new(&[r#"{"keywords":["x"]}"#, r#"{"ids":["a"]}"#]);
    let mut a = args();
    a.format = OutputFormat::Table;
    let out = ask(&search, &llm, &a).unwrap();
    let first = out.lines().next().unwrap();
    assert!(first.starts_with('#'), "got: {first}");
    assert!(first.contains("TYPE") && first.contains("PATH"));
}

#[test]
fn run_with_empty_query_errors() {
    let search = FakeSearch::new(vec![]);
    let llm = FakeLlm::new(&[]);
    let mut a = args();
    a.query = "   ".into();
    let err = ask(&search, &llm, &a).unwrap_err().message();
    assert!(err.contains("query is empty"));
}

#[test]
fn run_with_no_candidates_returns_quietly() {
    // Keyword expansion succeeds, but every substring search misses.
    let search = FakeSearch::new(vec![bucket(vec![]), bucket(vec![])]);
    let llm = FakeLlm::new(&[r#"{"keywords":["a","b"]}"#]);
    let out = ask(&search, &llm, &args()).unwrap();
    assert!(out.is_empty());
}

#[test]
fn excerpt_truncates_long_strings_with_ellipsis() {
    let s = "a".repeat(100);
    let got = excerpt(&s, 20);
    // 20 chars + 1 ellipsis.
    assert_eq!(got.chars().count(), 21);
    assert!(got.ends_with('…'));
}

#[test]
fn excerpt_keeps_short_strings_intact() {
    assert_eq!(excerpt("hi", 100), "hi");
}

// ---- further cases ----

#[test]
fn excerpt_counts_characters_and_keeps_the_exact_length() {
    assert_eq!(excerpt("一二三四", 4), "一二三四");
    assert_eq!(excerpt("一二三四", 3), "一二三…");
}

#[test]
fn a_limit_of_zero_is_an_error() {
    let search = FakeSearch::new(vec![]);
    let llm = FakeLlm::new(&[]);
    let mut a = args();
    a.limit = 0;
    let err = run_with(&search, &llm, &a).unwrap_err();
    assert!(matches!(err, Error::AskLimitZero));
    assert_eq!(err.message(), "ask: --limit must be > 0");
}

#[test]
fn no_keywords_are_an_error() {
    let search = FakeSearch::new(vec![]);
    let llm = FakeLlm::new(&[r#"{"keywords":[" "]}"#]);
    let err = run_with(&search, &llm, &args()).unwrap_err();
    assert!(matches!(err, Error::NoKeywords));
}

#[test]
fn a_rank_reply_that_is_no_json_is_an_error() {
    let candidates = vec![asset("a", "/mnt/qnap/a.jpg", "x")];
    let llm = FakeLlm::new(&["nope"]);
    let err = rerank(&llm, "q", &candidates).unwrap_err();
    assert!(matches!(err, Error::RerankReplyNotJson { .. }));
    assert_eq!(err.message(), "LLM rerank reply was not valid JSON: nope");
    assert_eq!(
        err.cause().as_deref(),
        Some("expected ident at line 1 column 2")
    );
}

#[test]
fn the_outcome_tells_keywords_and_candidates() {
    let search = FakeSearch::new(vec![bucket(vec![
        asset("a", "/mnt/qnap/a.jpg", "x"),
        asset("b", "/mnt/qnap/b.jpg", "y"),
    ])]);
    let llm = FakeLlm::new(&[r#"{"keywords":["x"]}"#, r#"{"ids":["b","b","z"]}"#]);
    let outcome = run_with(&search, &llm, &args()).unwrap();
    assert_eq!(outcome.keywords, vec!["x"]);
    assert_eq!(outcome.candidates, 2);
    assert_eq!(outcome.selected.len(), 1);
    assert_eq!(outcome.selected[0].id, "b");
    let asked = llm.calls.borrow();
    assert_eq!(asked[1][1].role, "user");
    assert!(asked[1][1].content.contains("非洲草原大象"));
}

#[test]
fn missing_and_unmapped_files_are_warned_about() {
    let selected = vec![
        asset("a", "/mnt/qnap/a.jpg", "x"),
        asset("b", "/elsewhere/b.jpg", "y"),
        asset("c", "/mnt/qnap/c.jpg", "z"),
    ];
    let mut a = args();
    a.verify = true;
    let got = emit(&path_map(), &a, &selected, &vec![false, true, true]);
    assert_eq!(got.out, "/home/u/Photos/c.jpg\n");
    assert!(got.warnings.contains("/home/u/Photos/a.jpg"));
    assert!(got.warnings.contains("/elsewhere/b.jpg"));
}

#[test]
fn ranks_count_all_selected_assets() {
    let selected = vec![
        asset("b", "/elsewhere/b.jpg", "y"),
        asset("c", "/mnt/qnap/c.jpg", "z"),
    ];
    let mut a = args();
    a.format = OutputFormat::Json;
    let got = emit(&path_map(), &a, &selected, &vec![true, true]);
    let parsed: serde_json::Value = serde_json::from_str(got.out.trim()).unwrap();
    assert_eq!(parsed["rank"], 2);
    assert_eq!(parsed["originalPath"], "/mnt/qnap/c.jpg");
    assert_eq!(parsed["city"], "Kangqiao");
}
