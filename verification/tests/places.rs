use immich_cli::client::{vocabulary_from, PlacesBackend};
use immich_cli::error::Error;
use immich_cli::json::read_json;
use immich_cli::llm::{ChatBackend, Message};
use immich_cli::places::{
    enrich_with_admin2, format_vocabulary, read_admin2_table, resolve_place, resolve_with_vocab,
    split_lines, Admin2Lookup, CityVocabEntry, PlaceMatch,
};
use std::cell::RefCell;

fn entry(country: &str, state: &str, city: &str) -> CityVocabEntry {
    CityVocabEntry {
        country: country.into(),
        state: state.into(),
        city: city.into(),
        admin2: None,
    }
}

fn sample_vocab() -> Vec<CityVocabEntry> {
    vec![
        entry("People's Republic of China", "Shanghai", "Pudong"),
        entry("People's Republic of China", "Shanghai", "Anting"),
        entry("People's Republic of China", "Shanghai", "Baoshan"),
        entry("People's Republic of China", "Beijing", "Baizhifang"),
        entry("People's Republic of China", "Zhejiang", "Andong"),
        entry("Japan", "Tokyo", "Azabu-jūban"),
        entry("Japan", "Shizuoka", "Arai"),
    ]
}

// ---- format_vocabulary -------------------------------------------------

#[test]
fn format_vocabulary_groups_orphans_under_uncategorized() {
    // sample_vocab() has no admin2 set, so every city lands in the
    // (uncategorized) bucket of its state.
    let formatted = format_vocabulary(&sample_vocab());
    assert_eq!(
        formatted,
        "Japan\n  \
           Shizuoka\n    \
             (uncategorized): Arai\n  \
           Tokyo\n    \
             (uncategorized): Azabu-jūban\n\
         People's Republic of China\n  \
           Beijing\n    \
             (uncategorized): Baizhifang\n  \
           Shanghai\n    \
             (uncategorized): Anting, Baoshan, Pudong\n  \
           Zhejiang\n    \
             (uncategorized): Andong\n"
    );
}

#[test]
fn format_vocabulary_uses_admin2_when_set() {
    let mut v = vec![
        entry("PRC", "Hainan", "Wenchang"),
        entry("PRC", "Hainan", "Dongjiao"),
        entry("PRC", "Hainan", "Wenjiao"),
        entry("PRC", "Hainan", "Haitangwan"), // orphan
    ];
    for e in v.iter_mut() {
        if matches!(e.city.as_str(), "Wenchang" | "Dongjiao" | "Wenjiao") {
            e.admin2 = Some("Wenchang Shi".into());
        }
    }
    let formatted = format_vocabulary(&v);
    assert_eq!(
        formatted,
        "PRC\n  \
           Hainan\n    \
             (uncategorized): Haitangwan\n    \
             Wenchang Shi: Dongjiao, Wenchang, Wenjiao\n"
    );
}

#[test]
fn format_vocabulary_dedupes_repeated_city_in_same_state() {
    let v = vec![
        entry("A", "B", "C"),
        entry("A", "B", "C"),
        entry("A", "B", "D"),
    ];
    assert_eq!(format_vocabulary(&v), "A\n  B\n    (uncategorized): C, D\n");
}

#[test]
fn format_vocabulary_handles_empty() {
    assert_eq!(format_vocabulary(&vec![]), "");
}

// ---- admin2 lookup load + enrich ---------------------------------------

#[test]
fn load_admin2_lookup_parses_tsv() {
    let (lookup, bad) = read_admin2_table(
        "People's Republic of China\tHainan\tWenchang\tWenchang Shi\n\
         People's Republic of China\tHainan\tDongjiao\tWenchang Shi\n\
         Japan\tTokyo\tAzabu-jūban\tMinato-ku\n",
    );
    assert!(bad.is_empty());
    assert_eq!(
        lookup
            .get("People's Republic of China", "Hainan", "Wenchang")
            .map(String::as_str),
        Some("Wenchang Shi")
    );
    assert_eq!(
        lookup
            .get("People's Republic of China", "Hainan", "Dongjiao")
            .map(String::as_str),
        Some("Wenchang Shi")
    );
    assert_eq!(
        lookup
            .get("Japan", "Tokyo", "Azabu-jūban")
            .map(String::as_str),
        Some("Minato-ku")
    );
    assert!(lookup.get("Japan", "Hainan", "Azabu-jūban").is_none());
}

#[test]
fn enrich_with_admin2_fills_only_matches() {
    let mut v = vec![
        entry("PRC", "Hainan", "Wenchang"),
        entry("PRC", "Hainan", "Haitangwan"),
    ];
    let lookup = Admin2Lookup::new().insert(
        "PRC".into(),
        "Hainan".into(),
        "Wenchang".into(),
        "Wenchang Shi".into(),
    );
    enrich_with_admin2(&mut v, &lookup);
    assert_eq!(v[0].admin2.as_deref(), Some("Wenchang Shi"));
    assert!(v[1].admin2.is_none(), "orphans stay un-enriched");
}

// ---- resolve_place: LLM fake -------------------------------------------

/// A ChatBackend that captures the prompts and replays canned JSON.
struct FakeLlm {
    replies: RefCell<Vec<String>>,
    prompts: RefCell<Vec<Vec<(&'static str, String)>>>,
}
impl FakeLlm {
    fn new(replies: &[&str]) -> Self {
        Self {
            replies: RefCell::new(replies.iter().map(|s| s.to_string()).collect()),
            prompts: RefCell::new(vec![]),
        }
    }
}
impl ChatBackend for FakeLlm {
    fn chat_json(&self, messages: &Vec<Message>) -> Result<String, Error> {
        let seen = messages.iter().map(|m| (m.role, m.content.clone())).collect();
        self.prompts.borrow_mut().push(seen);
        Ok(self.replies.borrow_mut().remove(0))
    }
}

/// A fake PlacesBackend yielding a fixed vocabulary.
struct FakePlaces(Vec<CityVocabEntry>);
impl PlacesBackend for FakePlaces {
    fn cities_vocabulary(&self) -> Result<Vec<CityVocabEntry>, Error> {
        Ok(self
            .0
            .iter()
            .map(|e| entry(&e.country, &e.state, &e.city))
            .collect())
    }
}

#[test]
fn resolve_place_returns_parsed_matches() {
    let llm = FakeLlm::new(&[r#"{"matches":[{"country":"People's Republic of China","state":"Shanghai","city":"Pudong"}]}"#]);
    let places = FakePlaces(sample_vocab());
    let got = resolve_place(&places, &llm, "上海浦东", &Admin2Lookup::new()).unwrap();
    assert_eq!(
        got,
        vec![PlaceMatch {
            country: Some("People's Republic of China".into()),
            state: Some("Shanghai".into()),
            city: Some("Pudong".into()),
        }]
    );
}

#[test]
fn resolve_place_handles_country_only() {
    let llm =
        FakeLlm::new(&[r#"{"matches":[{"country":"People's Republic of China"}]}"#]);
    let places = FakePlaces(sample_vocab());
    let got = resolve_place(&places, &llm, "中国", &Admin2Lookup::new()).unwrap();
    assert_eq!(got.len(), 1);
    assert_eq!(
        got[0].country.as_deref(),
        Some("People's Republic of China")
    );
    assert!(got[0].state.is_none());
    assert!(got[0].city.is_none());
}

#[test]
fn resolve_place_returns_multiple_matches() {
    let llm = FakeLlm::new(&[
        r#"{"matches":[
            {"country":"People's Republic of China","state":"Shanghai","city":"Pudong"},
            {"country":"People's Republic of China","state":"Zhejiang","city":"Andong"}
        ]}"#,
    ]);
    let places = FakePlaces(sample_vocab());
    let got = resolve_place(&places, &llm, "ambiguous", &Admin2Lookup::new()).unwrap();
    assert_eq!(got.len(), 2);
}

#[test]
fn resolve_place_drops_all_none_matches() {
    // The LLM might return a row with all three fields missing
    // ("matches": [{}]). Treat that as empty (= no filter), and we
    // explicitly do not want to issue an unfiltered Immich query, so
    // drop the entry.
    let llm = FakeLlm::new(&[r#"{"matches":[{}]}"#]);
    let places = FakePlaces(sample_vocab());
    let got = resolve_place(&places, &llm, "nonsense", &Admin2Lookup::new()).unwrap();
    assert!(got.is_empty());
}

#[test]
fn resolve_place_normalizes_empty_string_fields_to_none() {
    // LLM (clumsily) returns `"city": ""` instead of omitting the key.
    // We must treat that as `None` — otherwise Immich would do an
    // exact-match on the empty string and return zero photos.
    let llm = FakeLlm::new(&[r#"{"matches":[{
        "country": "People's Republic of China",
        "state":   "Hainan",
        "city":    ""
    }]}"#]);
    let places = FakePlaces(sample_vocab());
    let got = resolve_place(&places, &llm, "海南", &Admin2Lookup::new()).unwrap();
    assert_eq!(got.len(), 1);
    assert_eq!(
        got[0].country.as_deref(),
        Some("People's Republic of China")
    );
    assert_eq!(got[0].state.as_deref(), Some("Hainan"));
    assert!(
        got[0].city.is_none(),
        "empty-string `city` must be normalized to None"
    );
}

#[test]
fn resolve_place_dedupes_repeated_matches() {
    let llm = FakeLlm::new(&[r#"{"matches":[
        {"country":"Japan","state":"Tokyo","city":"Azabu-jūban"},
        {"country":"Japan","state":"Tokyo","city":"Azabu-jūban"}
    ]}"#]);
    let places = FakePlaces(sample_vocab());
    let got = resolve_place(&places, &llm, "Azabu", &Admin2Lookup::new()).unwrap();
    assert_eq!(got.len(), 1);
}

#[test]
fn resolve_place_empty_matches_is_ok() {
    // LLM gracefully says "no idea". Caller decides whether to bail.
    let llm = FakeLlm::new(&[r#"{"matches":[]}"#]);
    let places = FakePlaces(sample_vocab());
    let got = resolve_place(&places, &llm, "Antarctica", &Admin2Lookup::new()).unwrap();
    assert!(got.is_empty());
}

#[test]
fn resolve_place_rejects_empty_input() {
    let llm = FakeLlm::new(&[]);
    let places = FakePlaces(sample_vocab());
    let err = resolve_place(&places, &llm, "   ", &Admin2Lookup::new()).unwrap_err().message();
    assert!(err.contains("empty"), "got: {err}");
}

#[test]
fn resolve_place_errors_on_empty_vocabulary() {
    let llm = FakeLlm::new(&[]);
    let places = FakePlaces(vec![]);
    let err = resolve_place(&places, &llm, "anywhere", &Admin2Lookup::new())
        .unwrap_err()
        .message();
    assert!(err.contains("no geocoded"), "got: {err}");
}

#[test]
fn resolve_place_errors_on_malformed_llm_reply() {
    let llm = FakeLlm::new(&[r#"this is not JSON"#]);
    let places = FakePlaces(sample_vocab());
    let err = resolve_place(&places, &llm, "上海", &Admin2Lookup::new())
        .unwrap_err()
        .message();
    assert!(err.contains("non-JSON"), "got: {err}");
}

#[test]
fn resolve_place_prompt_includes_full_vocabulary() {
    let llm = FakeLlm::new(&[r#"{"matches":[]}"#]);
    let places = FakePlaces(sample_vocab());
    resolve_place(&places, &llm, "上海", &Admin2Lookup::new()).unwrap();
    let prompts = llm.prompts.borrow();
    assert_eq!(prompts.len(), 1);
    let system = &prompts[0][0];
    assert_eq!(system.0, "system");
    // Every country, state, and city name from sample_vocab() appears.
    for needle in [
        "People's Republic of China",
        "Japan",
        // With no admin2 enrichment, all cities under each state
        // land in the `(uncategorized)` bucket.
        "Shanghai\n    (uncategorized): Anting, Baoshan, Pudong",
        "Azabu-jūban",
        "Output strict JSON",
    ] {
        assert!(
            system.1.contains(needle),
            "system prompt missing `{needle}`:\n{}",
            system.1
        );
    }
    // The user prompt is the verbatim input.
    let user = &prompts[0][1];
    assert_eq!(user.0, "user");
    assert_eq!(user.1, "上海");
}

// ---- the table of divisions ------------------------------------------------

#[test]
fn an_empty_lookup_knows_nothing() {
    let lookup = Admin2Lookup::new();
    assert!(lookup.is_empty());
    assert!(lookup.get("PRC", "Hainan", "Wenchang").is_none());
}

#[test]
fn the_last_entry_of_a_place_wins() {
    let lookup = Admin2Lookup::new()
        .insert("A".into(), "B".into(), "C".into(), "one".into())
        .insert("A".into(), "X".into(), "C".into(), "other".into())
        .insert("A".into(), "B".into(), "C".into(), "two".into());
    assert!(!lookup.is_empty());
    assert_eq!(lookup.get("A", "B", "C").map(String::as_str), Some("two"));
    assert_eq!(lookup.get("A", "X", "C").map(String::as_str), Some("other"));
}

#[test]
fn lines_that_are_no_rows_are_counted_from_one() {
    let (lookup, bad) = read_admin2_table("A\tB\tC\tD\n\nbroken\nE\tF\tG\tH\r\n");
    assert_eq!(bad, vec![3]);
    assert_eq!(lookup.get("A", "B", "C").map(String::as_str), Some("D"));
    assert_eq!(lookup.get("E", "F", "G").map(String::as_str), Some("H"));
}

#[test]
fn lines_end_at_line_feeds() {
    assert_eq!(split_lines("a\r\nb\n\nc"), vec!["a", "b", "", "c"]);
    assert_eq!(split_lines("a\n"), vec!["a"]);
    assert!(split_lines("").is_empty());
}

#[test]
fn enrichment_keeps_divisions_that_the_lookup_does_not_know() {
    let mut v = vec![entry("PRC", "Hainan", "Wenchang")];
    v[0].admin2 = Some("kept".into());
    enrich_with_admin2(&mut v, &Admin2Lookup::new());
    assert_eq!(v[0].admin2.as_deref(), Some("kept"));
}

// ---- the vocabulary of the server ------------------------------------------

#[test]
fn places_with_an_empty_field_are_left_out() {
    let doc = read_json(
        r#"[{"exifInfo":{"city":"Pudong","state":"Shanghai","country":"PRC"}},
            {"exifInfo":{"city":"","state":"Shanghai","country":"PRC"}},
            {"exifInfo":{"city":"X","country":"PRC"}},
            {"exifInfo":null},
            {}]"#,
    )
    .unwrap();
    let got = vocabulary_from(&doc).unwrap();
    assert_eq!(got, vec![entry("PRC", "Shanghai", "Pudong")]);
}

#[test]
fn places_that_are_no_list_are_an_error() {
    let doc = read_json("{}").unwrap();
    let err = vocabulary_from(&doc).unwrap_err();
    assert!(matches!(err, Error::CitiesNotAList));
    assert_eq!(err.message(), "/api/search/cities did not return an array");
}

// ---- resolving --------------------------------------------------------------

struct BrokenServer;
impl PlacesBackend for BrokenServer {
    fn cities_vocabulary(&self) -> Result<Vec<CityVocabEntry>, Error> {
        Err(Error::Backend("down".into()))
    }
}

struct BrokenModel;
impl ChatBackend for BrokenModel {
    fn chat_json(&self, _messages: &Vec<Message>) -> Result<String, Error> {
        Err(Error::Backend("no model".into()))
    }
}

#[test]
fn a_failing_server_is_passed_on() {
    let llm = FakeLlm::new(&[]);
    let err = resolve_place(&BrokenServer, &llm, "x", &Admin2Lookup::new()).unwrap_err();
    assert_eq!(err.message(), "down");
}

#[test]
fn a_failing_model_is_passed_on() {
    let err = resolve_with_vocab(&BrokenModel, "x", &sample_vocab()).unwrap_err();
    assert_eq!(err.message(), "no model");
}

#[test]
fn divisions_reach_the_prompt() {
    let llm = FakeLlm::new(&[r#"{"matches":[]}"#]);
    let places = FakePlaces(sample_vocab());
    let lookup = Admin2Lookup::new().insert(
        "Japan".into(),
        "Tokyo".into(),
        "Azabu-jūban".into(),
        "Minato-ku".into(),
    );
    resolve_place(&places, &llm, "  东京 ", &lookup).unwrap();
    let prompts = llm.prompts.borrow();
    assert!(prompts[0][0].1.contains("  Tokyo\n    Minato-ku: Azabu-jūban\n"));
    assert_eq!(prompts[0][1].1, "东京");
}

#[test]
fn a_place_of_nothing_is_empty() {
    let mut m = PlaceMatch {
        country: Some(" ".into()),
        state: None,
        city: Some("".into()),
    };
    assert!(!m.is_empty());
    m.normalize_empties();
    assert!(m.is_empty());
    assert_eq!(m, PlaceMatch::default());
}

#[test]
fn format_vocabulary_ignores_order_and_repetition() {
    let mut shuffled = sample_vocab();
    shuffled.reverse();
    shuffled.push(entry("Japan", "Tokyo", "Azabu-jūban"));
    assert_eq!(
        format_vocabulary(&shuffled),
        format_vocabulary(&sample_vocab())
    );
}
