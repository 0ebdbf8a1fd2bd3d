//! Search over the descriptions of photos, with the help of language models.
use crate::client::SearchBackend;
use crate::error::Error;
use crate::json::{json_fault, json_of, read_json, record_texts};
use crate::keywords::{expand_with, expanded, first};
use crate::llm::{dialogue, item_views, ChatBackend, MultiImageVisionLlm};
use crate::models::{empty_request, Asset, RequestView, SearchRequest, SearchResponse};
use crate::text::{decimal, join, joined, numeral, opt_text, texts};
pub use crate::fusion::{rrf_merge, RRF_K};
use vstd::prelude::*;
use vstd::string::*;

verus! {

/// How many keywords a query is expanded to at most. Each costs one search.
pub const MAX_KEYWORDS: usize = 3;

/// Filters that every search of a query has to respect.
#[derive(Debug, Clone)]
pub struct HardFilters {
    pub city: Option<String>,
    pub state: Option<String>,
    pub country: Option<String>,
    pub taken_after: Option<String>,
    pub taken_before: Option<String>,
    pub asset_type: Option<String>,
    pub ocr: Option<String>,
    /// `archive` for archived assets; the server's default otherwise.
    pub visibility: Option<String>,
}

impl Default for HardFilters {
    fn default() -> (r: HardFilters)
        ensures
            r == (HardFilters {
                city: None,
                state: None,
                country: None,
                taken_after: None,
                taken_before: None,
                asset_type: None,
                ocr: None,
                visibility: None,
            }),
    {
        HardFilters {
            city: None,
            state: None,
            country: None,
            taken_after: None,
            taken_before: None,
            asset_type: None,
            ocr: None,
            visibility: None,
        }
    }
}

// ---- keywords ---------------------------------------------------------------

pub const KEYWORD_SYSTEM_PROMPT: &'static str =
    "You extract substring search keywords from a natural-language photo-search query.\n\nIMPORTANT — the photo descriptions you'll match against are ALWAYS written in Chinese. Substring matching is literal, so keywords must be the Chinese forms that actually appear in the descriptions. Translate the user's intent into Chinese before extracting keywords, regardless of the query language.\n\nYour output MUST be a single JSON object of the form: {\"keywords\": [\"...\", \"...\"]}\n\nRules:\n- Up to 3 keywords. Quality > quantity.\n- Output keywords in Chinese (e.g. sunset → 夕阳/日落, elephant → 大象, sailing boat → 帆船, savannah → 草原).\n- Each keyword is a short noun phrase (1-8 Chinese characters) likely to appear verbatim inside a Chinese description.\n- Include synonyms and lexical variants of central concepts (大象, 象群, 一群大象). For sunset, include both 夕阳 and 日落. For night cityscapes, include 夜景 and 灯光.\n- The ONLY exception to Chinese-only output is proper nouns and brand names that are conventionally written in English even inside Chinese text (e.g. \"DELL\", \"iPhone\", \"BMW\", model numbers). Include both forms only if both are plausibly used in Chinese descriptions.\n- Do NOT include function words, abstract verbs, or generic words like \"照片\", \"图片\", \"看看\", \"想\".";

/// Asks the model for keywords that are likely to stand in the description of
/// a photo that the query means.
pub fn expand_keywords<L: ChatBackend>(llm: &L, query: &str) -> (r: Result<Vec<String>, Error>)
    requires
        llm.may_chat(dialogue(KEYWORD_SYSTEM_PROMPT@, query@)),
    ensures
        expanded(llm, KEYWORD_SYSTEM_PROMPT@, query@, MAX_KEYWORDS as nat, r),
{
    expand_with(llm, KEYWORD_SYSTEM_PROMPT, query, MAX_KEYWORDS)
}

// ---- searching for the keywords ---------------------------------------------

/// An asset whose description holds the keyword.
#[derive(Debug, Clone)]
pub struct KeywordHit {
    pub keyword: String,
    pub asset: Asset,
}

impl View for KeywordHit {
    type V = (Seq<char>, Asset);

    open spec fn view(&self) -> (Seq<char>, Asset) {
        (self.keyword@, self.asset)
    }
}

pub open spec fn hit_views(hits: Seq<KeywordHit>) -> Seq<(Seq<char>, Asset)> {
    hits.map_values(|h: KeywordHit| h@)
}

/// The backend answered `reply` to a request.
pub open spec fn search_reply<S: SearchBackend>(
    search: &S,
    request: RequestView,
    reply: Result<SearchResponse, Error>,
) -> bool {
    exists|asked: &SearchRequest|
        asked@ == request && #[trigger] call_ensures(S::search, (search, asked), reply)
}

/// The search for one keyword.
pub open spec fn keyword_request(
    keyword: Seq<char>,
    filters: HardFilters,
    size: u32,
) -> RequestView {
    RequestView {
        description: Some(keyword),
        city: opt_text(filters.city),
        state: opt_text(filters.state),
        country: opt_text(filters.country),
        taken_after: opt_text(filters.taken_after),
        taken_before: opt_text(filters.taken_before),
        asset_type: opt_text(filters.asset_type),
        ocr: opt_text(filters.ocr),
        visibility: opt_text(filters.visibility),
        size: Some(size),
        with_exif: Some(true),
        ..empty_request()
    }
}

/// How many assets are taken for a keyword: at least one.
pub open spec fn hit_cap(per_keyword_limit: u32) -> u32 {
    if per_keyword_limit == 0 {
        1
    } else {
        per_keyword_limit
    }
}

/// The assets with the keyword that found them.
pub open spec fn paired(keyword: Seq<char>, assets: Seq<Asset>) -> Seq<(Seq<char>, Asset)> {
    assets.map_values(|a: Asset| (keyword, a))
}

/// The hits of the first keywords, keyword by keyword; `pages` are the answers.
pub open spec fn hits_of(
    keywords: Seq<Seq<char>>,
    pages: Seq<SearchResponse>,
    cap: nat,
) -> Seq<(Seq<char>, Asset)>
    decreases pages.len(),
{
    if pages.len() == 0 {
        Seq::empty()
    } else {
        hits_of(keywords, pages.drop_last(), cap) + paired(
            keywords[pages.len() - 1],
            first(pages.last().assets.items@, cap),
        )
    }
}

/// `pages` are the answers to the searches for the first keywords.
pub open spec fn keyword_pages<S: SearchBackend>(
    search: &S,
    keywords: Seq<Seq<char>>,
    filters: HardFilters,
    cap: u32,
    pages: Seq<SearchResponse>,
) -> bool {
    &&& pages.len() <= keywords.len()
    &&& forall|k: int|
        0 <= k < pages.len() ==> search_reply(
            search,
            keyword_request(keywords[k], filters, cap),
            Ok(#[trigger] pages[k]),
        )
}

/// What searching for the keywords comes to: the first failure, or the hits of
/// all keywords.
pub open spec fn hits_collected<S: SearchBackend>(
    search: &S,
    keywords: Seq<Seq<char>>,
    filters: HardFilters,
    cap: u32,
    r: Result<Vec<KeywordHit>, Error>,
) -> bool {
    exists|pages: Seq<SearchResponse>| #[trigger]
        keyword_pages(search, keywords, filters, cap, pages) && match r {
            Ok(hits) => pages.len() == keywords.len() && hit_views(hits@) == hits_of(
                keywords,
                pages,
                cap as nat,
            ),
            Err(e) => pages.len() < keywords.len() && search_reply(
                search,
                keyword_request(keywords[pages.len() as int], filters, cap),
                Err(e),
            ),
        }
}

/// The search for each keyword may be asked for, once those before it are answered.
pub open spec fn keyword_searches_allowed<S: SearchBackend>(
    search: &S,
    keywords: Seq<Seq<char>>,
    filters: HardFilters,
    cap: u32,
) -> bool {
    forall|pages: Seq<SearchResponse>| #[trigger]
        keyword_pages(search, keywords, filters, cap, pages) && pages.len() < keywords.len()
            ==> search.may_search(keyword_request(keywords[pages.len() as int], filters, cap))
}

/// Searches the descriptions for each keyword in turn.
pub fn collect_keyword_hits<S: SearchBackend>(
    search: &S,
    keywords: &Vec<String>,
    filters: &HardFilters,
    per_keyword_limit: u32,
) -> (r: Result<Vec<KeywordHit>, Error>)
    requires
        keyword_searches_allowed(
            search,
            texts(keywords@),
            *filters,
            hit_cap(per_keyword_limit),
        ),
    ensures
        hits_collected(search, texts(keywords@), *filters, hit_cap(per_keyword_limit), r),
{
    let cap: u32 = if per_keyword_limit == 0 {
        1
    } else {
        per_keyword_limit
    };
    let ghost words = texts(keywords@);
    let ghost mut pages: Seq<SearchResponse> = Seq::empty();
    let mut hits: Vec<KeywordHit> = Vec::new();
    let mut k: usize = 0;
    assert(hit_views(hits@) =~= hits_of(words, pages, cap as nat));
    while k < keywords.len()
        invariant
            k <= keywords.len(),
            cap == hit_cap(per_keyword_limit),
            words == texts(keywords@),
            pages.len() == k,
            keyword_searches_allowed(search, words, *filters, cap),
            keyword_pages(search, words, *filters, cap, pages),
            hit_views(hits@) == hits_of(words, pages, cap as nat),
        decreases keywords.len() - k,
    {
        let request = SearchRequest {
            query: None,
            original_file_name: None,
            city: filters.city.clone(),
            state: filters.state.clone(),
            country: filters.country.clone(),
            ocr: filters.ocr.clone(),
            description: Some(keywords[k].clone()),
            taken_after: filters.taken_after.clone(),
            taken_before: filters.taken_before.clone(),
            asset_type: filters.asset_type.clone(),
            visibility: filters.visibility.clone(),
            page: None,
            size: Some(cap),
            with_exif: Some(true),
        };
        assert(request@ =~= keyword_request(words[k as int], *filters, cap));
        let reply = search.search(&request);
        assert(search_reply(search, keyword_request(words[k as int], *filters, cap), reply));
        match reply {
            Err(e) => {
                return Err(e);
            },
            Ok(page) => {
                let items = &page.assets.items;
                let ghost found = first(items@, cap as nat);
                let ghost before = hit_views(hits@);
                let mut i: usize = 0;
                assert(paired(words[k as int], found.take(0)) =~= Seq::empty());
                assert(hit_views(hits@) =~= before + paired(words[k as int], found.take(0)));
                while i < items.len() && i < cap as usize
                    invariant
                        k < keywords.len(),
                        words == texts(keywords@),
                        i <= items.len(),
                        i <= cap,
                        found == first(items@, cap as nat),
                        hit_views(hits@) == before + paired(words[k as int], found.take(i as int)),
                    decreases items.len() - i,
                {
                    let hit = KeywordHit { keyword: keywords[k].clone(), asset: items[i].clone() };
                    let ghost h = hit@;
                    let ghost was = hits@;
                    hits.push(hit);
                    proof {
                        assert(hit_views(hits@) =~= hit_views(was).push(h));
                        assert(paired(words[k as int], found.take(i + 1)) =~= paired(
                            words[k as int],
                            found.take(i as int),
                        ).push(h));
                        assert(hit_views(hits@) =~= before + paired(
                            words[k as int],
                            found.take(i + 1),
                        ));
                    }
                    i += 1;
                }
                proof {
                    assert(found.take(i as int) =~= found);
                    let now = pages.push(page);
                    assert(now.drop_last() =~= pages);
                    pages = now;
                }
            },
        }
        k += 1;
    }
    Ok(hits)
}

// ---- ranking by a vision model ----------------------------------------------

pub const RERANK_SYSTEM_PROMPT: &'static str =
    "You are ranking image-search candidates. You receive a user query and a list of candidate photos — each candidate is presented as a one-line metadata header followed by the photo itself. Use both the visual content of the photo and the metadata (time, place, people, matched description keywords) to identify candidates that genuinely match the user's intent, ordered by relevance.\n\nYour output MUST be a single JSON object: {\"ids\": [\"id1\", \"id2\", ...]} ordered by descending relevance.\n\nRules:\n- Be strict. Omit weak or tangential matches; visual mismatch with the query trumps a description-keyword hit.\n- Only include candidate ids you actually saw in the input.\n- Return no more ids than the requested limit.\n- If nothing matches, return {\"ids\": []}.";

/// Token budget of the answer to a ranking.
pub const RERANK_MAX_OUTPUT_TOKENS: u32 = 4096;

/// What the model is told of a candidate besides its image.
#[derive(Debug, Clone)]
pub struct RerankCandidate {
    pub id: String,
    pub asset_type: String,
    pub taken_at: Option<String>,
    pub location: Option<RerankLocation>,
    pub people: Vec<String>,
    pub sources: Vec<String>,
    pub matched_keywords: Vec<String>,
}

#[derive(Debug, Clone)]
pub struct RerankLocation {
    pub country: Option<String>,
    pub state: Option<String>,
    pub admin2: Option<String>,
    pub city: Option<String>,
}

/// A text that is there and not empty, as a list of one; otherwise no text.
pub open spec fn filled(text: Option<String>) -> Seq<Seq<char>> {
    match text {
        Some(t) => if t@.len() > 0 {
            seq![t@]
        } else {
            Seq::empty()
        },
        None => Seq::empty(),
    }
}

/// The names of a location, from the country down.
pub open spec fn location_names(loc: RerankLocation) -> Seq<Seq<char>> {
    filled(loc.country) + filled(loc.state) + filled(loc.admin2) + filled(loc.city)
}

/// `KEY=A,B`, or nothing for an empty list.
pub open spec fn list_part(key: Seq<char>, list: Seq<Seq<char>>, sep: Seq<char>) -> Seq<Seq<char>> {
    if list.len() == 0 {
        Seq::empty()
    } else {
        seq![key + join(list, sep)]
    }
}

/// The parts of a label, in their order.
pub open spec fn label_parts(c: RerankCandidate) -> Seq<Seq<char>> {
    seq!["id="@ + c.id@, "type="@ + c.asset_type@] + filled(c.taken_at).map_values(
        |t: Seq<char>| "taken="@ + t,
    ) + (match c.location {
        Some(loc) => list_part("loc="@, location_names(loc), "/"@),
        None => Seq::empty(),
    }) + list_part("people="@, texts(c.people@), ","@) + list_part(
        "sources="@,
        texts(c.sources@),
        "+"@,
    ) + list_part("matched="@, texts(c.matched_keywords@), ","@)
}

/// The line that introduces a candidate.
pub open spec fn label(c: RerankCandidate) -> Seq<char> {
    join(label_parts(c), " | "@)
}

fn prefixed(key: &str, text: &str) -> (r: String)
    ensures
        r@ == key@ + text@,
{
    let mut out = key.to_owned();
    out.append(text);
    out
}

fn push_filled(out: &mut Vec<String>, text: &Option<String>)
    ensures
        texts(final(out)@) == texts(old(out)@) + filled(*text),
{
    if let Some(t) = text {
        if !t.as_str().is_empty() {
            out.push(t.clone());
        }
    }
    assert(texts(out@) =~= texts(old(out)@) + filled(*text));
}

fn push_list(out: &mut Vec<String>, key: &str, list: &Vec<String>, sep: &str)
    ensures
        texts(final(out)@) == texts(old(out)@) + list_part(key@, texts(list@), sep@),
{
    if list.len() > 0 {
        let part = prefixed(key, joined(list, sep).as_str());
        out.push(part);
    }
    assert(texts(out@) =~= texts(old(out)@) + list_part(key@, texts(list@), sep@));
}

/// The line that introduces a candidate: short, since every character costs.
pub fn label_for(c: &RerankCandidate) -> (r: String)
    ensures
        r@ == label(*c),
{
    let mut parts: Vec<String> = Vec::new();
    parts.push(prefixed("id=", c.id.as_str()));
    parts.push(prefixed("type=", c.asset_type.as_str()));
    assert(texts(parts@) =~= seq!["id="@ + c.id@, "type="@ + c.asset_type@]);
    let ghost head = texts(parts@);
    if let Some(t) = &c.taken_at {
        if !t.as_str().is_empty() {
            parts.push(prefixed("taken=", t.as_str()));
        }
    }
    assert(texts(parts@) =~= head + filled(c.taken_at).map_values(
        |t: Seq<char>| "taken="@ + t,
    ));
    let ghost before = texts(parts@);
    if let Some(loc) = &c.location {
        let mut names: Vec<String> = Vec::new();
        assert(texts(names@) =~= Seq::<Seq<char>>::empty());
        push_filled(&mut names, &loc.country);
        assert(texts(names@) =~= filled(loc.country));
        push_filled(&mut names, &loc.state);
        push_filled(&mut names, &loc.admin2);
        push_filled(&mut names, &loc.city);
        push_list(&mut parts, "loc=", &names, "/");
    }
    assert(texts(parts@) =~= before + match c.location {
        Some(loc) => list_part("loc="@, location_names(loc), "/"@),
        None => Seq::empty(),
    });
    push_list(&mut parts, "people=", &c.people, ",");
    push_list(&mut parts, "sources=", &c.sources, "+");
    push_list(&mut parts, "matched=", &c.matched_keywords, ",");
    joined(&parts, " | ")
}

/// What the model is asked about the candidates.
pub open spec fn rank_prompt(query: Seq<char>, limit: nat) -> Seq<char> {
    "query: "@ + query + "\nlimit: "@ + decimal(limit)
        + "\nReturn the top candidate ids by relevance."@
}

/// A candidate as it is shown to the model: its label and its image.
pub open spec fn shown_as(
    c: RerankCandidate,
    image: Seq<u8>,
    item: (String, Vec<u8>, String),
) -> bool {
    item.0@ == label(c) && item.1@ == image && item.2@ == "image/jpeg"@
}

/// The model answered `reply` when asked to rank the candidates.
pub open spec fn rank_reply<V: MultiImageVisionLlm>(
    llm: &V,
    query: Seq<char>,
    limit: nat,
    candidates: Seq<RerankCandidate>,
    images: Seq<Vec<u8>>,
    reply: Result<String, Error>,
) -> bool {
    exists|system: &str, user: &str, items: &Vec<(String, Vec<u8>, String)>|
        {
            &&& system@ == RERANK_SYSTEM_PROMPT@
            &&& user@ == rank_prompt(query, limit)
            &&& items@.len() == candidates.len()
            &&& forall|i: int|
                0 <= i < candidates.len() ==> shown_as(
                    candidates[i],
                    images[i]@,
                    #[trigger] items@[i],
                )
            &&& #[trigger] call_ensures(
                V::rank_images,
                (llm, system, user, items, RERANK_MAX_OUTPUT_TOKENS),
                reply,
            )
        }
}

/// The ids of an answer.
pub open spec fn ids_in(raw: Seq<char>) -> Option<Seq<Seq<char>>> {
    match json_of(raw) {
        Ok(doc) => record_texts(doc, "ids"@),
        Err(_) => None,
    }
}

/// What an answer of the model comes to: at most `limit` ids.
pub open spec fn ids_from_reply(
    reply: Result<String, Error>,
    limit: nat,
    r: Result<Vec<String>, Error>,
) -> bool {
    match reply {
        Err(e) => r == Err::<Vec<String>, Error>(e),
        Ok(raw) => match ids_in(raw@) {
            None => r is Err && (r->Err_0 matches Error::RerankReplyNotJson { reply: t, cause }
                && t@ == raw@ && opt_text(cause) == json_fault(raw@)),
            Some(ids) => r is Ok && texts(r->Ok_0@) == first(ids, limit),
        },
    }
}

/// What ranking the candidates comes to.
pub open spec fn reranked<V: MultiImageVisionLlm>(
    llm: &V,
    query: Seq<char>,
    limit: nat,
    candidates: Seq<RerankCandidate>,
    images: Seq<Vec<u8>>,
    r: Result<Vec<String>, Error>,
) -> bool {
    if candidates.len() != images.len() {
        r == Err::<Vec<String>, Error>(
            Error::ThumbnailCount {
                candidates: candidates.len() as usize,
                thumbnails: images.len() as usize,
            },
        )
    } else if candidates.len() == 0 {
        r is Ok && r->Ok_0@.len() == 0
    } else {
        exists|reply: Result<String, Error>| #[trigger]
            rank_reply(llm, query, limit, candidates, images, reply) && ids_from_reply(
                reply,
                limit,
                r,
            )
    }
}

/// The candidates as they are shown to the model.
pub open spec fn shown_items(candidates: Seq<RerankCandidate>, images: Seq<Vec<u8>>) -> Seq<
    (Seq<char>, Seq<u8>, Seq<char>),
> {
    Seq::new(candidates.len(), |i: int| (label(candidates[i]), images[i]@, "image/jpeg"@))
}

/// What ranking the candidates needs may be asked for: nothing where there are
/// none, or not one image for each.
pub open spec fn ranking_allowed<V: MultiImageVisionLlm>(
    llm: &V,
    query: Seq<char>,
    limit: nat,
    candidates: Seq<RerankCandidate>,
    images: Seq<Vec<u8>>,
) -> bool {
    candidates.len() == images.len() && candidates.len() > 0 ==> llm.may_rank(
        RERANK_SYSTEM_PROMPT@,
        rank_prompt(query, limit),
        shown_items(candidates, images),
        RERANK_MAX_OUTPUT_TOKENS,
    )
}

/// Copies the bytes of an image.
pub(crate) fn copy_bytes(bytes: &Vec<u8>) -> (r: Vec<u8>)
    ensures
        r@ == bytes@,
{
    let mut out: Vec<u8> = Vec::new();
    out.extend_from_slice(bytes.as_slice());
    assert(out@ =~= bytes@);
    out
}

/// Shows the candidates to the vision model and takes the ids that it returns,
/// at most `limit` of them.
pub fn rerank_rich_vision<V: MultiImageVisionLlm>(
    llm: &V,
    query: &str,
    limit: usize,
    candidates: &Vec<RerankCandidate>,
    thumbnails: &Vec<Vec<u8>>,
) -> (r: Result<Vec<String>, Error>)
    requires
        ranking_allowed(llm, query@, limit as nat, candidates@, thumbnails@),
    ensures
        reranked(llm, query@, limit as nat, candidates@, thumbnails@, r),
{
    if candidates.len() != thumbnails.len() {
        return Err(
            Error::ThumbnailCount { candidates: candidates.len(), thumbnails: thumbnails.len() },
        );
    }
    if candidates.len() == 0 {
        return Ok(Vec::new());
    }
    let mut items: Vec<(String, Vec<u8>, String)> = Vec::new();
    let mut i: usize = 0;
    while i < candidates.len()
        invariant
            candidates.len() == thumbnails.len(),
            i <= candidates.len(),
            items.len() == i,
            forall|j: int|
                0 <= j < i ==> shown_as(candidates@[j], thumbnails@[j]@, #[trigger] items@[j]),
        decreases candidates.len() - i,
    {
        items.push(
            (label_for(&candidates[i]), copy_bytes(&thumbnails[i]), "image/jpeg".to_owned()),
        );
        i += 1;
    }
    let mut prompt = "query: ".to_owned();
    prompt.append(query);
    prompt.append("\nlimit: ");
    prompt.append(numeral(limit as u128).as_str());
    prompt.append("\nReturn the top candidate ids by relevance.");
    assert(prompt@ == rank_prompt(query@, limit as nat));
    assert(item_views(items@) =~= shown_items(candidates@, thumbnails@));
    let reply = llm.rank_images(
        RERANK_SYSTEM_PROMPT,
        prompt.as_str(),
        &items,
        RERANK_MAX_OUTPUT_TOKENS,
    );
    assert(rank_reply(llm, query@, limit as nat, candidates@, thumbnails@, reply));
    match reply {
        Err(e) => Err(e),
        Ok(raw) => {
            let (named, cause) = match read_json(raw.as_str()) {
                Ok(doc) => (doc.texts_in("ids"), None),
                Err(cause) => (None, Some(cause)),
            };
            match named {
                None => Err(Error::RerankReplyNotJson { reply: raw, cause }),
                Some(list) => {
                    let mut ids = list;
                    if ids.len() > limit {
                        ids.truncate(limit);
                        assert(texts(ids@) =~= texts(list@).take(limit as int));
                    }
                    Ok(ids)
                },
            }
        },
    }
}

} // verus!
