use immich_cli::client::SearchBackend;
use immich_cli::description_search::{
    collect_keyword_hits, expand_keywords, label_for, rerank_rich_vision, rrf_merge, HardFilters,
    RerankCandidate, RerankLocation,
};
use immich_cli::error::Error;
use immich_cli::keywords::{clean_keywords, dedup_preserving_order};
use immich_cli::llm::{ChatBackend, Message, MultiImageVisionLlm};
use immich_cli::models::{Asset, AssetsBucket, ExifInfo, SearchRequest, SearchResponse};
use std::cell::RefCell;

struct FakeVisionLlm {
    replies: RefCell<Vec<String>>,
    calls: RefCell<Vec<(String, Vec<(String, usize)>)>>,
}
impl FakeVisionLlm {
    fn new(replies: &[&str]) -> Self {
        Self {
            replies: RefCell::new(replies.iter().map(|s| s.to_string()).collect()),
            calls: RefCell::new(Vec::new()),
        }
    }
}
impl MultiImageVisionLlm for FakeVisionLlm {
    fn pick_best(
        &self,
        _system_prompt: &str,
        _user_prompt: &str,
        _images: &Vec<(Vec<u8>, String)>,
        _max_tokens: u32,
    ) -> Result<String, Error> {
        Ok(self.replies.borrow_mut().remove(0))
    }
    fn rank_images(
        &self,
        _system_prompt: &str,
        user_prompt: &str,
        items: &Vec<(String, Vec<u8>, String)>,
        _max_tokens: u32,
    ) -> Result<String, Error> {
        let summary: Vec<(String, usize)> =
            items.iter().map(|(l, b, _)| (l.clone(), b.len())).collect();
        self.calls
            .borrow_mut()
            .push((user_prompt.to_string(), summary));
        Ok(self.replies.borrow_mut().remove(0))
    }
}

fn asset(id: &str, path: &str) -> Asset {
    Asset {
        id: id.into(),
        original_path: path.into(),
        original_file_name: path.rsplit('/').next().unwrap_or(path).into(),
        asset_type: "IMAGE".into(),
        file_created_at: None,
        local_date_time: None,
        checksum: String::new(),
        exif_info: Some(ExifInfo {
            city: None,
            state: None,
            country: None,
            latitude: None,
            longitude: None,
            description: Some(format!("desc-{id}")),
            date_time_original: None,
            file_size_in_byte: None,
        }),
    }
}

fn rerank_candidate(id: &str) -> RerankCandidate {
    RerankCandidate {
        id: id.into(),
        asset_type: "IMAGE".into(),
        taken_at: Some("2024-05-01T10:00:00".into()),
        location: Some(RerankLocation {
            country: Some("China".into()),
            state: Some("Hainan".into()),
            admin2: None,
            city: Some("Haitangwan".into()),
        }),
        people: vec!["女儿（孩子）".into()],
        sources: vec!["smart".into(), "description".into()],
        matched_keywords: vec!["大海".into()],
    }
}

#[test]
fn label_for_packs_compact_kv_metadata() {
    let label = label_for(&rerank_candidate("c001"));
    assert!(label.starts_with("id=c001"), "{label}");
    assert!(label.contains("type=IMAGE"), "{label}");
    assert!(label.contains("taken=2024-05-01"), "{label}");
    assert!(label.contains("loc=China/Hainan/Haitangwan"), "{label}");
    assert!(label.contains("people=女儿（孩子）"), "{label}");
    assert!(label.contains("sources=smart+description"), "{label}");
    assert!(label.contains("matched=大海"), "{label}");
}

#[test]
fn rerank_rich_vision_passes_one_label_image_pair_per_candidate() {
    let llm = FakeVisionLlm::new(&[r#"{"ids":["c002","c001"]}"#]);
    let candidates = vec![rerank_candidate("c001"), rerank_candidate("c002")];
    let thumbs = vec![vec![0u8; 11], vec![0u8; 22]];
    let ids = rerank_rich_vision(&llm, "大海", 5, &candidates, &thumbs).unwrap();
    assert_eq!(ids, vec!["c002".to_string(), "c001".to_string()]);
    let calls = llm.calls.borrow();
    assert_eq!(calls.len(), 1);
    let (user_prompt, items) = &calls[0];
    assert!(user_prompt.contains("query: 大海"), "{user_prompt}");
    assert!(user_prompt.contains("limit: 5"), "{user_prompt}");
    assert_eq!(items.len(), 2);
    assert!(items[0].0.starts_with("id=c001"));
    assert_eq!(items[0].1, 11);
    assert!(items[1].0.starts_with("id=c002"));
    assert_eq!(items[1].1, 22);
}

#[test]
fn rerank_rich_vision_truncates_to_limit() {
    let llm = FakeVisionLlm::new(&[r#"{"ids":["c001","c002","c003"]}"#]);
    let candidates = vec![
        rerank_candidate("c001"),
        rerank_candidate("c002"),
        rerank_candidate("c003"),
    ];
    let thumbs = vec![vec![], vec![], vec![]];
    let ids = rerank_rich_vision(&llm, "x", 2, &candidates, &thumbs).unwrap();
    assert_eq!(ids, vec!["c001".to_string(), "c002".to_string()]);
}

#[test]
fn rerank_rich_vision_rejects_mismatched_thumbnail_count() {
    let llm = FakeVisionLlm::new(&[]);
    let err = rerank_rich_vision(
        &llm,
        "x",
        5,
        &vec![rerank_candidate("c001"), rerank_candidate("c002")],
        &vec![vec![0u8; 4]],
    )
    .unwrap_err()
    .message();
    assert!(err.contains("candidate"), "{err}");
}

#[test]
fn rrf_merge_prefers_assets_appearing_in_both_lists() {
    let a = asset("a", "/x/a.jpg");
    let b = asset("b", "/x/b.jpg");
    let c = asset("c", "/x/c.jpg");
    // List 1: a > b
    // List 2: b > c
    // RRF: a=1/61, b=1/62+1/61, c=1/62 → b wins (in both), then a, then c.
    let merged = rrf_merge(&vec![vec![a.clone(), b.clone()], vec![b.clone(), c.clone()]]);
    let ids: Vec<&str> = merged.iter().map(|a| a.id.as_str()).collect();
    assert_eq!(ids, vec!["b", "a", "c"]);
}

#[test]
fn rrf_merge_dedupes_across_lists() {
    let a = asset("a", "/x/a.jpg");
    let b = asset("b", "/x/b.jpg");
    let merged = rrf_merge(&vec![vec![a.clone(), b.clone()], vec![a.clone()]]);
    let ids: Vec<&str> = merged.iter().map(|a| a.id.as_str()).collect();
    assert_eq!(ids, vec!["a", "b"]);
    assert_eq!(merged.len(), 2);
}

#[test]
fn rrf_merge_handles_empty_lists() {
    let a = asset("a", "/x/a.jpg");
    let merged = rrf_merge(&vec![vec![], vec![a.clone()]]);
    assert_eq!(merged.len(), 1);
    assert_eq!(merged[0].id, "a");
}

#[test]
fn rrf_empty_inputs_returns_empty() {
    let merged: Vec<Asset> = rrf_merge(&vec![]);
    assert!(merged.is_empty());
    let merged: Vec<Asset> = rrf_merge(&vec![vec![], vec![]]);
    assert!(merged.is_empty());
}

// ---- further cases ----------------------------------------------------

struct OneReply(&'static str);
impl ChatBackend for OneReply {
    fn chat_json(&self, _messages: &Vec<Message>) -> Result<String, Error> {
        Ok(self.0.into())
    }
}

#[test]
fn a_query_becomes_three_keywords_at_most() {
    let llm = OneReply(r#"{"keywords":[" 猫 ","","狗","鸟","鱼"]}"#);
    assert_eq!(expand_keywords(&llm, "x").unwrap(), vec!["猫", "狗", "鸟"]);
    // The cap counts repetitions.
    let llm = OneReply(r#"{"keywords":["猫","狗","猫","鸟"]}"#);
    assert_eq!(expand_keywords(&llm, "x").unwrap(), vec!["猫", "狗"]);
    assert!(expand_keywords(&OneReply("{}"), "x").unwrap().is_empty());
    let err = expand_keywords(&OneReply("[1]"), "x").unwrap_err();
    assert_eq!(err.message(), "LLM keyword reply was not valid JSON: [1]");
}

#[test]
fn cleaned_keywords_are_trimmed_and_distinct() {
    let named: Vec<String> = vec![" a".into(), "a ".into(), "\u{3000}".into(), "b".into()];
    assert_eq!(clean_keywords(&named, 5), vec!["a", "b"]);
    assert_eq!(clean_keywords(&named, 1), vec!["a"]);
    let list: Vec<String> = vec!["b".into(), "a".into(), "b".into()];
    assert_eq!(dedup_preserving_order(&list), vec!["b", "a"]);
}

struct Pages {
    pages: RefCell<Vec<Vec<Asset>>>,
    calls: RefCell<Vec<SearchRequest>>,
}
impl SearchBackend for Pages {
    fn search(&self, req: &SearchRequest) -> Result<SearchResponse, Error> {
        self.calls.borrow_mut().push(req.clone());
        let items = self.pages.borrow_mut().remove(0);
        Ok(SearchResponse {
            assets: AssetsBucket {
                total: 0,
                count: 0,
                items,
                next_page: None,
            },
        })
    }
}

fn filters() -> HardFilters {
    HardFilters {
        city: Some("Pudong".into()),
        state: None,
        country: None,
        taken_after: Some("2025-01-01T00:00:00.000Z".into()),
        taken_before: None,
        asset_type: Some("IMAGE".into()),
        ocr: None,
        visibility: None,
    }
}

#[test]
fn keyword_searches_carry_the_filters() {
    let search = Pages {
        pages: RefCell::new(vec![vec![asset("a", "/x/a.jpg")], vec![asset("a", "/x/a.jpg")]]),
        calls: RefCell::new(vec![]),
    };
    let words = vec!["猫".to_string(), "狗".to_string()];
    let hits = collect_keyword_hits(&search, &words, &filters(), 20).unwrap();
    let seen: Vec<(&str, &str)> = hits
        .iter()
        .map(|h| (h.keyword.as_str(), h.asset.id.as_str()))
        .collect();
    assert_eq!(seen, vec![("猫", "a"), ("狗", "a")]);
    let calls = search.calls.borrow();
    assert_eq!(calls[0].description.as_deref(), Some("猫"));
    assert_eq!(calls[1].description.as_deref(), Some("狗"));
    for c in calls.iter() {
        assert_eq!(c.city.as_deref(), Some("Pudong"));
        assert_eq!(c.asset_type.as_deref(), Some("IMAGE"));
        assert_eq!(c.with_exif, Some(true));
        assert_eq!(c.size, Some(20));
        assert!(c.query.is_none());
    }
}

#[test]
fn labels_leave_out_what_is_not_known() {
    let c = RerankCandidate {
        id: "c001".into(),
        asset_type: "VIDEO".into(),
        taken_at: None,
        location: None,
        people: vec![],
        sources: vec!["smart".into()],
        matched_keywords: vec![],
    };
    assert_eq!(label_for(&c), "id=c001 | type=VIDEO | sources=smart");
}

#[test]
fn nothing_to_rank_asks_nobody() {
    let llm = FakeVisionLlm::new(&[]);
    assert!(rerank_rich_vision(&llm, "x", 5, &vec![], &vec![])
        .unwrap()
        .is_empty());
}

#[test]
fn a_wrong_thumbnail_count_is_told() {
    let llm = FakeVisionLlm::new(&[]);
    let err = rerank_rich_vision(&llm, "x", 5, &vec![], &vec![vec![]]).unwrap_err();
    assert_eq!(
        err.message(),
        "rerank_rich_vision: 0 candidate(s) but 1 thumbnail(s)"
    );
}

#[test]
fn equal_scores_stay_in_the_order_they_are_seen_in() {
    let a = asset("a", "/x/a.jpg");
    let b = asset("b", "/x/b.jpg");
    let c = asset("c", "/x/c.jpg");
    let merged = rrf_merge(&vec![
        vec![a.clone(), b.clone()],
        vec![c.clone(), b.clone()],
        vec![c, a],
    ]);
    let ids: Vec<&str> = merged.iter().map(|a| a.id.as_str()).collect();
    // a: 1/61 + 1/62, c: 1/61 + 1/61, b: 1/62 + 1/62
    assert_eq!(ids, vec!["c", "a", "b"]);
    let merged = rrf_merge(&vec![
        vec![asset("p", "/x/p.jpg")],
        vec![asset("q", "/x/q.jpg")],
    ]);
    let ids: Vec<&str> = merged.iter().map(|a| a.id.as_str()).collect();
    assert_eq!(ids, vec!["p", "q"]);
}

/// A list in which the given assets stand at the given ranks, from 1.
fn ranked(list: &str, named: &[(&str, usize)]) -> Vec<Asset> {
    let last = named.iter().map(|(_, rank)| *rank).max().unwrap();
    (1..=last)
        .map(|rank| match named.iter().find(|(_, r)| *r == rank) {
            Some((id, _)) => asset(id, "/x/named.jpg"),
            None => asset(&format!("{list}-{rank}"), "/x/filler.jpg"),
        })
        .collect()
}

fn place_of(merged: &[Asset], id: &str) -> usize {
    merged.iter().position(|a| a.id == id).unwrap()
}

#[test]
fn scores_that_are_equal_as_fractions_are_ties() {
    // 1/134 + 1/134 and 1/67 are equal: what is seen first comes first.
    let merged = rrf_merge(&vec![
        ranked("one", &[("twice", 74)]),
        ranked("two", &[("once", 7), ("twice", 74)]),
    ]);
    assert!(place_of(&merged, "twice") < place_of(&merged, "once"));
    let merged = rrf_merge(&vec![
        ranked("one", &[("once", 7), ("twice", 74)]),
        ranked("two", &[("twice", 74)]),
    ]);
    assert!(place_of(&merged, "once") < place_of(&merged, "twice"));
    // 1/134 + 1/135 is less than 1/67, and 1/134 + 1/133 is more.
    let merged = rrf_merge(&vec![
        ranked("one", &[("twice", 74)]),
        ranked("two", &[("once", 7), ("twice", 75)]),
    ]);
    assert!(place_of(&merged, "once") < place_of(&merged, "twice"));
    let merged = rrf_merge(&vec![
        ranked("one", &[("once", 7), ("twice", 74)]),
        ranked("two", &[("twice", 73)]),
    ]);
    assert!(place_of(&merged, "twice") < place_of(&merged, "once"));
}

#[test]
fn the_order_of_the_lists_does_not_change_a_score() {
    // The same three ranks, given in two orders, are a tie.
    let merged = rrf_merge(&vec![
        ranked("one", &[("a", 1), ("b", 30)]),
        ranked("two", &[("a", 10), ("b", 11)]),
        ranked("three", &[("a", 11), ("b", 10)]),
        ranked("four", &[("a", 30), ("b", 1)]),
    ]);
    assert_eq!(place_of(&merged, "a") + 1, place_of(&merged, "b"));
}
