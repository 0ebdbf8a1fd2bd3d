//! Finding photos by what their descriptions say.
use crate::client::SearchBackend;
use crate::commands::search::fetch::gathered;
use crate::commands::search::query::{distinct_assets, law_distinct_assets, AssetList};
use crate::description_search::{ids_in, search_reply};
use crate::error::Error;
use crate::json::{
    json_fault, json_field, json_object, json_string, read_json, write_field, write_object,
    write_string,
};
use crate::keywords::{dedup_preserving_order, distinct, expand_with, expanded, first};
use crate::listing::description_of;
use crate::llm::{chat, chat_reply, dialogue, ChatBackend};
use crate::models::{empty_request, Asset, RequestView, SearchRequest, SearchResponse};
use crate::text::{blank, chars_of, is_blank, join, joined, opt_text, same, texts, trim, trimmed};
use vstd::prelude::*;
use vstd::string::*;

verus! {

/// How many keywords a query is expanded to at most.
pub const MAX_KEYWORDS: usize = 16;

/// How many candidates are ranked at most.
pub const MAX_CANDIDATES: usize = 100;

/// How many characters of a description the model sees.
pub const DESCRIPTION_EXCERPT_CHARS: usize = 1500;

#[derive(Debug)]
pub struct AskArgs {
    /// The photo to find, in words.
    pub query: String,
    /// How many results at most.
    pub limit: u32,
    pub format: OutputFormat,
    /// Check that the local files exist; missing ones are left out.
    pub verify: bool,
}

#[derive(Debug, Clone, Copy, PartialEq, Eq, Structural)]
pub enum OutputFormat {
    /// One local path per line, the most relevant first.
    Paths,
    /// One JSON object per line.
    Json,
    /// A table of rank, type, day, location and path.
    Table,
}

// ---- keywords ---------------------------------------------------------------

pub const KEYWORD_SYSTEM_PROMPT: &'static str =
    "You extract substring search keywords from a natural-language photo-search query.\n\nIMPORTANT — the photo descriptions you'll match against are ALWAYS written in Chinese. Substring matching is literal, so keywords must be the Chinese forms that actually appear in the descriptions. Translate the user's intent into Chinese before extracting keywords, regardless of the query language.\n\nYour output MUST be a single JSON object of the form: {\"keywords\": [\"...\", \"...\"]}\n\nRules:\n- Up to 16 keywords. Quality > quantity.\n- Output keywords in Chinese (e.g. sunset → 夕阳/日落, elephant → 大象, sailing boat → 帆船, savannah → 草原).\n- Each keyword is a short noun phrase (1-8 Chinese characters) likely to appear verbatim inside a Chinese description.\n- Include synonyms and lexical variants of central concepts (大象, 象群, 一群大象). For sunset, include both 夕阳 and 日落. For night cityscapes, include 夜景 and 灯光.\n- The ONLY exception to Chinese-only output is proper nouns and brand names that are conventionally written in English even inside Chinese text (e.g. \"DELL\", \"iPhone\", \"BMW\", model numbers). Include both forms only if both are plausibly used in Chinese descriptions.\n- Do NOT include function words, abstract verbs, or generic words like \"照片\", \"图片\", \"看看\", \"想\".";

pub fn expand_keywords<L: ChatBackend>(llm: &L, query: &str) -> (r: Result<Vec<String>, Error>)
    requires
        llm.may_chat(dialogue(KEYWORD_SYSTEM_PROMPT@, query@)),
    ensures
        expanded(llm, KEYWORD_SYSTEM_PROMPT@, query@, MAX_KEYWORDS as nat, r),
{
    expand_with(llm, KEYWORD_SYSTEM_PROMPT, query, MAX_KEYWORDS)
}

// ---- candidates -------------------------------------------------------------

/// The search for one keyword.
pub open spec fn description_request(keyword: Seq<char>) -> RequestView {
    RequestView {
        description: Some(keyword),
        size: Some(250),
        with_exif: Some(true),
        ..empty_request()
    }
}

/// The assets of the answers, each once.
pub open spec fn found_in(pages: Seq<SearchResponse>) -> Seq<Asset> {
    distinct_assets(gathered(pages))
}

/// Candidates were lacking before page `k`, and it is the answer to the search
/// for the keyword.
pub open spec fn candidate_page<S: SearchBackend>(
    search: &S,
    keywords: Seq<Seq<char>>,
    pages: Seq<SearchResponse>,
    k: int,
) -> bool {
    found_in(pages.take(k)).len() < MAX_CANDIDATES && search_reply(
        search,
        description_request(keywords[k]),
        Ok(pages[k]),
    )
}

/// `pages` are the answers to the searches for the first keywords. A search is
/// made only as long as candidates are lacking.
pub open spec fn candidate_pages<S: SearchBackend>(
    search: &S,
    keywords: Seq<Seq<char>>,
    pages: Seq<SearchResponse>,
) -> bool {
    &&& pages.len() <= keywords.len()
    &&& forall|k: int| 0 <= k < pages.len() ==> #[trigger] candidate_page(
        search,
        keywords,
        pages,
        k,
    )
}

/// What searching for the keywords comes to: the first failure, or the assets
/// that were found, each once and up to the cap.
pub open spec fn candidates_collected<S: SearchBackend>(
    search: &S,
    keywords: Seq<Seq<char>>,
    r: Result<Vec<Asset>, Error>,
) -> bool {
    exists|pages: Seq<SearchResponse>| #[trigger]
        candidate_pages(search, keywords, pages) && match r {
            Ok(list) => {
                &&& pages.len() == keywords.len() || found_in(pages).len() >= MAX_CANDIDATES
                &&& list@ == first(found_in(pages), MAX_CANDIDATES as nat)
            },
            Err(e) => {
                &&& pages.len() < keywords.len()
                &&& found_in(pages).len() < MAX_CANDIDATES
                &&& search_reply(search, description_request(keywords[pages.len() as int]), Err(e))
            },
        }
}

/// The search for each keyword may be asked for, as long as candidates are lacking.
pub open spec fn candidate_searches_allowed<S: SearchBackend>(
    search: &S,
    keywords: Seq<Seq<char>>,
) -> bool {
    forall|pages: Seq<SearchResponse>| #[trigger]
        candidate_pages(search, keywords, pages) && pages.len() < keywords.len() && found_in(
            pages,
        ).len() < MAX_CANDIDATES ==> search.may_search(
            description_request(keywords[pages.len() as int]),
        )
}

/// Searches the descriptions for the keywords.
pub fn collect_candidates<S: SearchBackend>(search: &S, keywords: &Vec<String>) -> (r: Result<
    Vec<Asset>,
    Error,
>)
    requires
        candidate_searches_allowed(search, texts(keywords@)),
    ensures
        candidates_collected(search, texts(keywords@), r),
{
    let ghost words = texts(keywords@);
    let ghost mut pages: Seq<SearchResponse> = Seq::empty();
    let mut list = AssetList::new();
    let mut k: usize = 0;
    while k < keywords.len() && list.items.len() < MAX_CANDIDATES
        invariant
            k <= keywords.len(),
            words == texts(keywords@),
            pages.len() == k,
            candidate_searches_allowed(search, words),
            candidate_pages(search, words, pages),
            list.wf(),
            list.items@ == found_in(pages),
        decreases keywords.len() - k,
    {
        let request = SearchRequest {
            query: None,
            original_file_name: None,
            city: None,
            state: None,
            country: None,
            ocr: None,
            description: Some(keywords[k].clone()),
            taken_after: None,
            taken_before: None,
            asset_type: None,
            visibility: None,
            page: None,
            size: Some(250),
            with_exif: Some(true),
        };
        assert(request@ =~= description_request(words[k as int]));
        let reply = search.search(&request);
        assert(search_reply(search, description_request(words[k as int]), reply));
        match reply {
            Err(e) => {
                return Err(e);
            },
            Ok(page) => {
                let ghost before = pages;
                proof {
                    pages = pages.push(page);
                    assert(pages.drop_last() =~= before);
                    assert forall|j: int| 0 <= j < pages.len() implies #[trigger] candidate_page(
                        search,
                        words,
                        pages,
                        j,
                    ) by {
                        assert(pages.take(j) =~= before.take(j));
                        if j == before.len() {
                            assert(before.take(j) =~= before);
                        } else {
                            assert(candidate_page(search, words, before, j));
                            assert(pages[j] == before[j]);
                        }
                    }
                }
                list.push_all(&page.assets.items, Ghost(gathered(before)));
            },
        }
        k += 1;
    }
    let mut items = list.items;
    if items.len() > MAX_CANDIDATES {
        items.truncate(MAX_CANDIDATES);
    }
    Ok(items)
}

/// The candidates are distinct assets, and no more than the cap.
pub proof fn law_candidates_are_distinct<S: SearchBackend>(
    search: &S,
    keywords: Seq<Seq<char>>,
    list: Vec<Asset>,
)
    requires
        candidates_collected(search, keywords, Ok(list)),
    ensures
        list@.len() <= MAX_CANDIDATES,
        forall|i: int, j: int|
            0 <= i < j < list@.len() ==> (#[trigger] list@[i]).id@ != (#[trigger] list@[j]).id@,
{
    let pages = choose|pages: Seq<SearchResponse>| #[trigger]
        candidate_pages(search, keywords, pages) && list@ == first(
            found_in(pages),
            MAX_CANDIDATES as nat,
        );
    law_distinct_assets(gathered(pages));
    let found = found_in(pages);
    assert forall|i: int, j: int| 0 <= i < j < list@.len() implies (#[trigger] list@[i]).id@ != (
    #[trigger] list@[j]).id@ by {
        assert(list@[i] == found[i]);
        assert(list@[j] == found[j]);
    }
}

// ---- ranking ----------------------------------------------------------------

pub const RERANK_SYSTEM_PROMPT: &'static str =
    "You are filtering image-search candidates. Given a user query and a list of candidate photos (each with an id and a free-form description), identify the candidates that genuinely match the user's intent.\n\nYour output MUST be a single JSON object: {\"ids\": [\"id1\", \"id2\", ...]} ordered by descending relevance.\n\nRules:\n- Be strict. Omit weak or tangential matches.\n- Only include ids you actually saw in the input.\n- If nothing matches, return {\"ids\": []}.";

/// The first `max_chars` characters, with an ellipsis where there are more.
pub open spec fn shortened(s: Seq<char>, max_chars: nat) -> Seq<char> {
    if s.len() > max_chars {
        s.take(max_chars as int).push('…')
    } else {
        s
    }
}

pub fn excerpt(s: &str, max_chars: usize) -> (r: String)
    ensures
        r@ == shortened(s@, max_chars as nat),
        r@.len() <= max_chars + 1,
{
    let chars = chars_of(s);
    let mut out = String::new();
    let mut i: usize = 0;
    assert(out@ =~= s@.take(0));
    while i < chars.len()
        invariant
            chars@ == s@,
            i <= chars.len(),
            i <= max_chars,
            out@ == s@.take(i as int),
        decreases chars.len() - i,
    {
        if i >= max_chars {
            out.push('…');
            return out;
        }
        out.push(chars[i]);
        assert(out@ =~= s@.take(i + 1));
        i += 1;
    }
    assert(s@.take(i as int) =~= s@);
    out
}

/// A candidate as it is shown to the model.
pub open spec fn candidate_json(a: Asset) -> Seq<char> {
    let description = match description_of(a) {
        Some(d) => d,
        None => Seq::empty(),
    };
    json_object(
        seq![
            json_field(
                "description"@,
                json_string(shortened(description, DESCRIPTION_EXCERPT_CHARS as nat)),
            ),
            json_field("id"@, json_string(a.id@)),
        ],
    )
}

/// What the model is asked: the query and the candidates, as JSON.
pub open spec fn rank_message(query: Seq<char>, candidates: Seq<Asset>) -> Seq<char> {
    json_object(
        seq![
            json_field(
                "candidates"@,
                "["@ + join(candidates.map_values(|a: Asset| candidate_json(a)), ","@) + "]"@,
            ),
            json_field("query"@, json_string(query)),
        ],
    )
}

fn write_candidate(a: &Asset) -> (r: String)
    ensures
        r@ == candidate_json(*a),
{
    let mut description = String::new();
    assert(description@ =~= Seq::<char>::empty());
    if let Some(e) = &a.exif_info {
        if let Some(d) = &e.description {
            description = d.clone();
        }
    }
    let mut fields: Vec<String> = Vec::new();
    let shown = excerpt(description.as_str(), DESCRIPTION_EXCERPT_CHARS);
    fields.push(write_field("description", write_string(shown.as_str()).as_str()));
    fields.push(write_field("id", write_string(a.id.as_str()).as_str()));
    proof {
        let d = match description_of(*a) {
            Some(d) => d,
            None => Seq::empty(),
        };
        assert(description@ =~= d);
        assert(texts(fields@) =~= seq![
            json_field(
                "description"@,
                json_string(shortened(d, DESCRIPTION_EXCERPT_CHARS as nat)),
            ),
            json_field("id"@, json_string(a.id@)),
        ]);
    }
    write_object(&fields)
}

/// Writes the question to the model.
pub fn write_rank_message(query: &str, candidates: &Vec<Asset>) -> (r: String)
    ensures
        r@ == rank_message(query@, candidates@),
{
    let ghost wanted = candidates@.map_values(|a: Asset| candidate_json(a));
    let mut items: Vec<String> = Vec::new();
    let mut i: usize = 0;
    while i < candidates.len()
        invariant
            i <= candidates.len(),
            wanted == candidates@.map_values(|a: Asset| candidate_json(a)),
            items.len() == i,
            forall|j: int| 0 <= j < i ==> (#[trigger] items@[j])@ == wanted[j],
        decreases candidates.len() - i,
    {
        items.push(write_candidate(&candidates[i]));
        i += 1;
    }
    assert(texts(items@) =~= wanted);
    let mut list = "[".to_owned();
    list.append(joined(&items, ",").as_str());
    list.append("]");
    let mut fields: Vec<String> = Vec::new();
    fields.push(write_field("candidates", list.as_str()));
    fields.push(write_field("query", write_string(query).as_str()));
    assert(texts(fields@) =~= seq![
        json_field("candidates"@, "["@ + join(wanted, ","@) + "]"@),
        json_field("query"@, json_string(query@)),
    ]);
    write_object(&fields)
}

/// What an answer of the model comes to.
pub open spec fn ranking_from_reply(
    reply: Result<String, Error>,
    r: Result<Vec<String>, Error>,
) -> bool {
    match reply {
        Err(e) => r == Err::<Vec<String>, Error>(e),
        Ok(raw) => match ids_in(raw@) {
            None => r is Err && (r->Err_0 matches Error::RerankReplyNotJson { reply: t, cause }
                && t@ == raw@ && opt_text(cause) == json_fault(raw@)),
            Some(ids) => r is Ok && texts(r->Ok_0@) == ids,
        },
    }
}

/// What ranking the candidates comes to.
pub open spec fn ranking<L: ChatBackend>(
    llm: &L,
    query: Seq<char>,
    candidates: Seq<Asset>,
    r: Result<Vec<String>, Error>,
) -> bool {
    exists|reply: Result<String, Error>| #[trigger]
        chat_reply(llm, RERANK_SYSTEM_PROMPT@, rank_message(query, candidates), reply)
            && ranking_from_reply(reply, r)
}

/// Lets the model pick the relevant candidates, the most relevant first.
pub fn rerank<L: ChatBackend>(llm: &L, query: &str, candidates: &Vec<Asset>) -> (r: Result<
    Vec<String>,
    Error,
>)
    requires
        llm.may_chat(dialogue(RERANK_SYSTEM_PROMPT@, rank_message(query@, candidates@))),
    ensures
        ranking(llm, query@, candidates@, r),
{
    let message = write_rank_message(query, candidates);
    let reply = chat(llm, RERANK_SYSTEM_PROMPT, message.as_str());
    assert(chat_reply(llm, RERANK_SYSTEM_PROMPT@, rank_message(query@, candidates@), reply));
    match reply {
        Err(e) => Err(e),
        Ok(raw) => {
            let (named, cause) = match read_json(raw.as_str()) {
                Ok(doc) => (doc.texts_in("ids"), None),
                Err(cause) => (None, Some(cause)),
            };
            match named {
                None => Err(Error::RerankReplyNotJson { reply: raw, cause }),
                Some(ids) => Ok(ids),
            }
        },
    }
}

// ---- choosing ---------------------------------------------------------------

/// The last candidate with the id.
pub open spec fn candidate_with(candidates: Seq<Asset>, id: Seq<char>) -> Option<Asset>
    decreases candidates.len(),
{
    if candidates.len() == 0 {
        None
    } else if candidates.last().id@ == id {
        Some(candidates.last())
    } else {
        candidate_with(candidates.drop_last(), id)
    }
}

/// The candidates that the ids name, in the order of the ids; an id that names
/// no candidate is passed over.
pub open spec fn candidates_named(candidates: Seq<Asset>, ids: Seq<Seq<char>>) -> Seq<Asset>
    decreases ids.len(),
{
    if ids.len() == 0 {
        Seq::empty()
    } else {
        let before = candidates_named(candidates, ids.drop_last());
        match candidate_with(candidates, ids.last()) {
            Some(a) => before.push(a),
            None => before,
        }
    }
}

fn find_candidate(candidates: &Vec<Asset>, id: &str) -> (r: Option<usize>)
    ensures
        match r {
            Some(k) => k < candidates.len() && candidate_with(candidates@, id@) == Some(
                candidates@[k as int],
            ),
            None => candidate_with(candidates@, id@) is None,
        },
{
    let mut i: usize = candidates.len();
    assert(candidates@.take(i as int) =~= candidates@);
    while i > 0
        invariant
            i <= candidates.len(),
            candidate_with(candidates@, id@) == candidate_with(candidates@.take(i as int), id@),
        decreases i,
    {
        i -= 1;
        assert(candidates@.take(i + 1).drop_last() =~= candidates@.take(i as int));
        if same(candidates[i].id.as_str(), id) {
            return Some(i);
        }
    }
    None
}

/// Takes the candidates that the model picked, each once, up to the limit.
pub fn take_in_order(candidates: &Vec<Asset>, selected_ids: &Vec<String>, limit: usize) -> (r: Vec<
    Asset,
>)
    ensures
        r@ == first(candidates_named(candidates@, distinct(texts(selected_ids@))), limit as nat),
{
    let once = dedup_preserving_order(selected_ids);
    let ghost all = texts(once@);
    let mut out: Vec<Asset> = Vec::new();
    let mut i: usize = 0;
    while i < once.len()
        invariant
            i <= once.len(),
            all == texts(once@),
            out@ == candidates_named(candidates@, all.take(i as int)),
        decreases once.len() - i,
    {
        assert(all.take(i + 1).drop_last() =~= all.take(i as int));
        assert(all.take(i + 1).last() == once@[i as int]@);
        if let Some(k) = find_candidate(candidates, once[i].as_str()) {
            out.push(candidates[k].clone());
        }
        i += 1;
    }
    assert(all.take(i as int) =~= all);
    if out.len() > limit {
        out.truncate(limit);
    }
    out
}

/// Only candidates are taken, at most as many as the limit allows.
pub proof fn law_taken_are_candidates(candidates: Seq<Asset>, ids: Seq<Seq<char>>, limit: nat)
    ensures
        first(candidates_named(candidates, distinct(ids)), limit).len() <= limit,
        forall|i: int|
            0 <= i < candidates_named(candidates, ids).len() ==> candidates.contains(
                #[trigger] candidates_named(candidates, ids)[i],
            ),
    decreases ids.len(),
{
    if ids.len() > 0 {
        law_taken_are_candidates(candidates, ids.drop_last(), limit);
        let before = candidates_named(candidates, ids.drop_last());
        let now = candidates_named(candidates, ids);
        lemma_candidate_with(candidates, ids.last());
        assert forall|i: int| 0 <= i < now.len() implies candidates.contains(#[trigger] now[i]) by {
            if i < before.len() {
                assert(now[i] == before[i]);
            }
        }
    }
}

proof fn lemma_candidate_with(candidates: Seq<Asset>, id: Seq<char>)
    ensures
        candidate_with(candidates, id) matches Some(a) ==> candidates.contains(a) && a.id@ == id,
    decreases candidates.len(),
{
    if candidates.len() > 0 {
        lemma_candidate_with(candidates.drop_last(), id);
        if candidates.last().id@ == id {
            assert(candidates[candidates.len() - 1] == candidates.last());
        } else if let Some(a) = candidate_with(candidates.drop_last(), id) {
            let k = choose|k: int|
                0 <= k < candidates.drop_last().len() && candidates.drop_last()[k] == a;
            assert(candidates[k] == a);
        }
    }
}

// ---- the whole command ------------------------------------------------------

/// What came of a question: the keywords, how many candidates they found, and
/// those that the model picked.
#[derive(Debug)]
pub struct AskOutcome {
    pub keywords: Vec<String>,
    pub candidates: usize,
    pub selected: Vec<Asset>,
}

/// What ranking the candidates of a question comes to. Without candidates the
/// model is not asked.
pub open spec fn answered_from<L: ChatBackend>(
    llm: &L,
    args: AskArgs,
    keywords: Seq<Seq<char>>,
    candidates: Seq<Asset>,
    r: Result<AskOutcome, Error>,
) -> bool {
    if candidates.len() == 0 {
        &&& r is Ok
        &&& texts(r->Ok_0.keywords@) == keywords
        &&& r->Ok_0.candidates == 0
        &&& r->Ok_0.selected@.len() == 0
    } else {
        exists|ids: Result<Vec<String>, Error>| #[trigger]
            ranking(llm, trim(args.query@), candidates, ids) && match ids {
                Err(e) => r == Err::<AskOutcome, Error>(e),
                Ok(ids) => {
                    &&& r is Ok
                    &&& texts(r->Ok_0.keywords@) == keywords
                    &&& r->Ok_0.candidates == candidates.len()
                    &&& r->Ok_0.selected@ == first(
                        candidates_named(candidates, distinct(texts(ids@))),
                        args.limit as nat,
                    )
                },
            }
    }
}

/// What a question comes to.
pub open spec fn answered<S: SearchBackend, L: ChatBackend>(
    search: &S,
    llm: &L,
    args: AskArgs,
    r: Result<AskOutcome, Error>,
) -> bool {
    if is_blank(args.query@) {
        r == Err::<AskOutcome, Error>(Error::AskQueryEmpty)
    } else if args.limit == 0 {
        r == Err::<AskOutcome, Error>(Error::AskLimitZero)
    } else {
        exists|words: Result<Vec<String>, Error>| #[trigger]
            expanded(
                llm,
                KEYWORD_SYSTEM_PROMPT@,
                trim(args.query@),
                MAX_KEYWORDS as nat,
                words,
            ) && match words {
                Err(e) => r == Err::<AskOutcome, Error>(e),
                Ok(words) => if words@.len() == 0 {
                    r == Err::<AskOutcome, Error>(Error::NoKeywords)
                } else {
                    exists|found: Result<Vec<Asset>, Error>| #[trigger]
                        candidates_collected(search, texts(words@), found) && match found {
                            Err(e) => r == Err::<AskOutcome, Error>(e),
                            Ok(list) => answered_from(llm, args, texts(words@), list@, r),
                        }
                },
            }
    }
}

/// What a question needs once its keywords are known may be asked for: the searches,
/// and a ranking where they found something.
pub open spec fn answering_allowed<S: SearchBackend, L: ChatBackend>(
    search: &S,
    llm: &L,
    query: Seq<char>,
    keywords: Seq<Seq<char>>,
) -> bool {
    keywords.len() > 0 ==> {
        &&& candidate_searches_allowed(search, keywords)
        &&& forall|list: Vec<Asset>| #[trigger]
            candidates_collected(search, keywords, Ok(list)) && list@.len() > 0 ==> llm.may_chat(
                dialogue(RERANK_SYSTEM_PROMPT@, rank_message(query, list@)),
            )
    }
}

/// What a question needs may be asked for: nothing where it is refused.
pub open spec fn asking_allowed<S: SearchBackend, L: ChatBackend>(
    search: &S,
    llm: &L,
    args: AskArgs,
) -> bool {
    !is_blank(args.query@) && args.limit > 0 ==> {
        &&& llm.may_chat(dialogue(KEYWORD_SYSTEM_PROMPT@, trim(args.query@)))
        &&& forall|words: Vec<String>| #[trigger]
            expanded(
                llm,
                KEYWORD_SYSTEM_PROMPT@,
                trim(args.query@),
                MAX_KEYWORDS as nat,
                Ok(words),
            ) ==> answering_allowed(search, llm, trim(args.query@), texts(words@))
    }
}

/// Expands the question into keywords, searches for them, and lets the model
/// pick among what was found.
pub fn run_with<S: SearchBackend, L: ChatBackend>(search: &S, llm: &L, args: &AskArgs) -> (r: Result<
    AskOutcome,
    Error,
>)
    requires
        asking_allowed(search, llm, *args),
    ensures
        answered(search, llm, *args, r),
{
    if blank(args.query.as_str()) {
        return Err(Error::AskQueryEmpty);
    }
    if args.limit == 0 {
        return Err(Error::AskLimitZero);
    }
    let query = trimmed(args.query.as_str());
    let words = expand_keywords(llm, query);
    assert(expanded(
        llm,
        KEYWORD_SYSTEM_PROMPT@,
        trim(args.query@),
        MAX_KEYWORDS as nat,
        words,
    ));
    match words {
        Err(e) => Err(e),
        Ok(keywords) => {
            if keywords.len() == 0 {
                return Err(Error::NoKeywords);
            }
            let found = collect_candidates(search, &keywords);
            assert(candidates_collected(search, texts(keywords@), found));
            match found {
                Err(e) => Err(e),
                Ok(list) => {
                    if list.len() == 0 {
                        return Ok(
                            AskOutcome { keywords, candidates: 0, selected: Vec::new() },
                        );
                    }
                    let ids = rerank(llm, query, &list);
                    assert(ranking(llm, trim(args.query@), list@, ids));
                    match ids {
                        Err(e) => Err(e),
                        Ok(ids) => Ok(
                            AskOutcome {
                                keywords,
                                candidates: list.len(),
                                selected: take_in_order(&list, &ids, args.limit as usize),
                            },
                        ),
                    }
                },
            }
        },
    }
}

} // verus!
