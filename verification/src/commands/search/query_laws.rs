//! What a search with a query guarantees.
use crate::client::{thumbnail_reply, CaptionBackend, InfoBackend, PlacesBackend, SearchBackend};
use crate::commands::search::args::{clean_text, date_bound, SearchArgs};
use crate::commands::search::candidates::{
    asset_with, assets_named, candidates_built, configured_names, described_as, detail_reply,
    has_id, location_of, name_in, people_labels, people_named, person_label, prompt_fits, short_id,
    sources_of, with_all_hits, with_all_smart, with_keyword, with_smart, CandidateView,
    QueryCandidate, RichCandidates,
};
use crate::commands::search::fetch::{
    fetch_assets, fetched, fetched_between, fetching_allowed, filters_built, gathered, page_request,
    pages_read, size_of_page, wants_more, FetchResult, PAGE_SIZE,
};
use crate::commands::search::query::{
    all_assets, any_true, any_truncated, asset_lists, chosen, descriptions_allowed,
    descriptions_searched, distinct_assets, filters_searched, first_failure, has_asset, ids_of,
    images_from, keyword_cap, law_distinct_assets, merged, perform_search, place_gathered,
    places_allowed, places_fetched, places_resolved, pool_gathered, pools_grow, query_searched,
    ranked, searched, searched_with_llm, smart_only, smart_searched, thumbnails_fetched,
    thumbnails_reply, Backends,
};
use crate::commands::search::stacks::{hidden_from_reply, is_hidden, visible, without_hidden};
use crate::description_search::{
    hit_views, hits_collected, hits_of, ids_in, keyword_pages, keyword_request, label, label_parts,
    list_part, location_names, rank_prompt, rank_reply, ranking_allowed, reranked, search_reply,
    shown_as, HardFilters, KeywordHit, RerankCandidate, RerankLocation,
};
use crate::config::Config;
use crate::error::Error;
use crate::fusion::{
    first_asset, fused, outranks, score, seen, vote_ids, votes, votes_of, weight, Vote,
};
use crate::json::{has_member, json_of, law_members_by_name, record_texts, Json, JsonView};
use crate::keywords::{distinct, expanded, first, law_distinct};
use crate::llm::{ChatBackend, MultiImageVisionLlm};
use crate::models::{Asset, SearchResponse, Stack};
use crate::places::{
    enriched, place_allowed, place_resolved, place_views, resolved, resolving_allowed,
    vocabulary_reply, Admin2Lookup, CityVocabEntry, PlaceKey, PlaceMatch, PlaceView,
};
use crate::text::{
    decimal, holds, join, law_join_keeps_order, lemma_holds, lemma_holds_joined, lemma_holds_within,
    lemma_sum_assoc, lemma_trim_empty, lemma_trim_twice, opt_text, texts, trim,
};
use vstd::prelude::*;
use vstd::string::*;

verus! {

// ---- paging -----------------------------------------------------------------

/// One more page adds its assets behind the others.
#[verifier::spinoff_prover]
#[verifier::rlimit(60)]
pub proof fn law_pages_are_gathered_in_order(pages: Seq<SearchResponse>, page: SearchResponse)
    ensures
        gathered(pages.push(page)) == gathered(pages) + page.assets.items@,
        gathered(Seq::empty()).len() == 0,
{
    assert(pages.push(page).drop_last() =~= pages);
}

/// What is fetched are the assets of the pages from the first on, each of which was asked
/// for by its number, up to the limit. A result that is not truncated has all of them, and
/// the last page was empty or named no further one.
#[verifier::spinoff_prover]
#[verifier::rlimit(60)]
pub proof fn law_fetched_are_the_pages<B: SearchBackend>(
    backend: &B,
    args: SearchArgs,
    max_page: u32,
    place: PlaceView,
    f: FetchResult,
) -> (pages: Seq<SearchResponse>)
    requires
        fetched(backend, args, max_page, place, Ok(f)),
    ensures
        pages.len() > 0,
        forall|k: int|
            0 <= k < pages.len() ==> search_reply(
                backend,
                page_request(
                    args,
                    place,
                    date_bound(args.taken_after, false)->0,
                    date_bound(args.taken_before, true)->0,
                    (k + 1) as nat,
                    size_of_page(max_page, args.cap()),
                ),
                Ok(#[trigger] pages[k]),
            ),
        f.assets@.is_prefix_of(gathered(pages)),
        f.assets@.len() < gathered(pages).len() ==> f.assets@.len() == args.cap() && f.truncated,
        !f.truncated ==> f.assets@ == gathered(pages) && (pages.last().assets.next_page is None
            || pages.last().assets.next_page->0 is Null || pages.last().assets.items@.len() == 0
            && pages.last().assets.count == 0 || f.assets@.len() == args.cap()
            && pages.last().assets.next_page is None),
        f.truncated && f.assets@.len() == gathered(pages).len() ==> pages.last().assets.next_page
            is Some && !(pages.last().assets.next_page->0 is Null),
{
    let (after, before) = (
        date_bound(args.taken_after, false)->0,
        date_bound(args.taken_before, true)->0,
    );
    let cap = args.cap() as nat;
    let size = size_of_page(max_page, args.cap());
    assert(fetched_between(backend, args, max_page, place, after, before, Ok(f)));
    let pages = choose|pages: Seq<SearchResponse>| #[trigger]
        pages_read(backend, args, place, after, before, size, pages) && !wants_more(pages, cap)
            && f.assets@ == first(gathered(pages), cap) && f.truncated
            == crate::commands::search::fetch::more_than(pages, cap);
    assert forall|k: int| 0 <= k < pages.len() implies search_reply(
        backend,
        page_request(args, place, after, before, (k + 1) as nat, size),
        Ok(#[trigger] pages[k]),
    ) by {
        assert(crate::commands::search::fetch::page_read(
            backend,
            args,
            place,
            after,
            before,
            size,
            pages,
            k,
        ));
    }
    let all = gathered(pages);
    assert(all.take(f.assets@.len() as int) =~= f.assets@);
    pages
}

/// A stack shows its cover: what is hidden is in a stack without being its cover.
#[verifier::spinoff_prover]
#[verifier::rlimit(60)]
pub proof fn law_what_is_hidden(stacks: Seq<Stack>, id: Seq<char>)
    ensures
        is_hidden(stacks, id) <==> exists|s: int, m: int|
            0 <= s < stacks.len() && 0 <= m < stacks[s].assets@.len() && (
            #[trigger] stacks[s].assets@[m]).id@ == id && stacks[s].primary_asset_id@ != id,
{
    if is_hidden(stacks, id) {
        let s = choose|s: int|
            0 <= s < stacks.len() && #[trigger] crate::commands::search::stacks::behind_cover(
                stacks[s],
                id,
            );
        let m = choose|m: int|
            0 <= m < stacks[s].assets@.len() && (#[trigger] stacks[s].assets@[m]).id@ == id;
        assert(stacks[s].assets@[m].id@ == id);
    }
    if exists|s: int, m: int|
        0 <= s < stacks.len() && 0 <= m < stacks[s].assets@.len() && (
        #[trigger] stacks[s].assets@[m]).id@ == id && stacks[s].primary_asset_id@ != id {
        let (s, m) = choose|s: int, m: int|
            0 <= s < stacks.len() && 0 <= m < stacks[s].assets@.len() && (
            #[trigger] stacks[s].assets@[m]).id@ == id && stacks[s].primary_asset_id@ != id;
        assert(crate::commands::search::stacks::behind_cover(stacks[s], id));
    }
}

/// Hiding takes out the hidden assets, and keeps all others in their order.
#[verifier::spinoff_prover]
#[verifier::rlimit(60)]
pub proof fn law_hiding_keeps_the_rest(items: Seq<Asset>, hidden: Set<Seq<char>>, a: Asset)
    ensures
        hidden.contains(a.id@) ==> visible(items.push(a), hidden) == visible(items, hidden),
        !hidden.contains(a.id@) ==> visible(items.push(a), hidden) == visible(items, hidden).push(
            a,
        ),
        visible(Seq::empty(), hidden).len() == 0,
{
    assert(items.push(a).drop_last() =~= items);
}

// ---- the pool of candidates -------------------------------------------------

/// The pool holds no asset twice.
pub open spec fn is_pool(pool: Seq<CandidateView>) -> bool {
    forall|i: int, j: int|
        0 <= i < j < pool.len() ==> (#[trigger] pool[i]).asset.id@ != (#[trigger] pool[j]).asset.id@
}

/// An asset that a search finds joins the pool, at its end where it is new. The others stay
/// where they are and as they are, and what was known of it stays known.
#[verifier::spinoff_prover]
#[verifier::rlimit(60)]
pub proof fn law_finds_join_the_pool(pool: Seq<CandidateView>, asset: Asset, word: Seq<char>, k: int)
    requires
        is_pool(pool),
    ensures
        is_pool(with_smart(pool, asset)),
        is_pool(with_keyword(pool, asset, word)),
        !has_id(pool, asset.id@) ==> {
            &&& with_smart(pool, asset).len() == pool.len() + 1
            &&& with_smart(pool, asset).last().asset == asset
            &&& with_smart(pool, asset).last().smart
            &&& with_smart(pool, asset).last().keywords.len() == 0
            &&& with_keyword(pool, asset, word).len() == pool.len() + 1
            &&& with_keyword(pool, asset, word).last().asset == asset
            &&& !with_keyword(pool, asset, word).last().smart
            &&& with_keyword(pool, asset, word).last().keywords == seq![word]
        },
        has_id(pool, asset.id@) ==> with_smart(pool, asset).len() == pool.len() && with_keyword(
            pool,
            asset,
            word,
        ).len() == pool.len(),
        0 <= k < pool.len() ==> {
            let s = with_smart(pool, asset)[k];
            let w = with_keyword(pool, asset, word)[k];
            &&& s.asset == pool[k].asset && w.asset == pool[k].asset
            &&& s.keywords == pool[k].keywords && w.smart == pool[k].smart
            &&& s.smart == (pool[k].smart || pool[k].asset.id@ == asset.id@)
            &&& pool[k].asset.id@ != asset.id@ || pool[k].keywords.contains(word) ==> w.keywords
                == pool[k].keywords
            &&& pool[k].asset.id@ == asset.id@ && !pool[k].keywords.contains(word) ==> w.keywords
                == pool[k].keywords.push(word)
        },
{
    let s = with_smart(pool, asset);
    let w = with_keyword(pool, asset, word);
    if !has_id(pool, asset.id@) {
        assert forall|i: int| 0 <= i < pool.len() implies (#[trigger] pool[i]).asset.id@
            != asset.id@ by {}
        assert forall|i: int, j: int| 0 <= i < j < s.len() implies (#[trigger] s[i]).asset.id@ != (
        #[trigger] s[j]).asset.id@ by {
            assert(s[i] == pool[i]);
        }
        assert forall|i: int, j: int| 0 <= i < j < w.len() implies (#[trigger] w[i]).asset.id@ != (
        #[trigger] w[j]).asset.id@ by {
            assert(w[i] == pool[i]);
        }
    } else {
        assert forall|i: int, j: int| 0 <= i < j < s.len() implies (#[trigger] s[i]).asset.id@ != (
        #[trigger] s[j]).asset.id@ by {
            assert(pool[i].asset.id@ != pool[j].asset.id@);
        }
        assert forall|i: int, j: int| 0 <= i < j < w.len() implies (#[trigger] w[i]).asset.id@ != (
        #[trigger] w[j]).asset.id@ by {
            assert(pool[i].asset.id@ != pool[j].asset.id@);
        }
    }
}

#[verifier::spinoff_prover]
#[verifier::rlimit(60)]
proof fn lemma_joined_ids(pool: Seq<CandidateView>, asset: Asset, word: Seq<char>, id: Seq<char>)
    ensures
        has_id(with_smart(pool, asset), id) == (has_id(pool, id) || asset.id@ == id),
        has_id(with_keyword(pool, asset, word), id) == (has_id(pool, id) || asset.id@ == id),
{
    let s = with_smart(pool, asset);
    let w = with_keyword(pool, asset, word);
    if has_id(pool, id) {
        let i = choose|i: int| 0 <= i < pool.len() && (#[trigger] pool[i]).asset.id@ == id;
        assert(s[i].asset.id@ == id);
        assert(w[i].asset.id@ == id);
    }
    if asset.id@ == id && !has_id(pool, id) {
        assert(s[s.len() - 1].asset.id@ == id);
        assert(w[w.len() - 1].asset.id@ == id);
    }
    if has_id(s, id) {
        let i = choose|i: int| 0 <= i < s.len() && (#[trigger] s[i]).asset.id@ == id;
        if i < pool.len() {
            assert(pool[i].asset.id@ == id);
        }
    }
    if has_id(w, id) {
        let i = choose|i: int| 0 <= i < w.len() && (#[trigger] w[i]).asset.id@ == id;
        if i < pool.len() {
            assert(pool[i].asset.id@ == id);
        }
    }
}

#[verifier::spinoff_prover]
#[verifier::rlimit(60)]
proof fn lemma_all_smart_ids(pool: Seq<CandidateView>, assets: Seq<Asset>, id: Seq<char>)
    ensures
        has_id(with_all_smart(pool, assets), id) == (has_id(pool, id) || has_asset(assets, id)),
    decreases assets.len(),
{
    if assets.len() > 0 {
        let past = assets.drop_last();
        lemma_all_smart_ids(pool, past, id);
        lemma_joined_ids(with_all_smart(pool, past), assets.last(), Seq::empty(), id);
        if has_asset(past, id) {
            let i = choose|i: int| 0 <= i < past.len() && (#[trigger] past[i]).id@ == id;
            assert(assets[i].id@ == id);
        }
        if has_asset(assets, id) && assets.last().id@ != id {
            let i = choose|i: int| 0 <= i < assets.len() && (#[trigger] assets[i]).id@ == id;
            assert(past[i].id@ == id);
        }
        if assets.last().id@ == id {
            assert(assets[assets.len() - 1].id@ == id);
        }
    }
}

/// One of the hits is this asset.
pub open spec fn was_hit(hits: Seq<(Seq<char>, Asset)>, id: Seq<char>) -> bool {
    exists|i: int| 0 <= i < hits.len() && (#[trigger] hits[i]).1.id@ == id
}

#[verifier::spinoff_prover]
#[verifier::rlimit(60)]
proof fn lemma_all_hit_ids(pool: Seq<CandidateView>, hits: Seq<(Seq<char>, Asset)>, id: Seq<char>)
    ensures
        has_id(with_all_hits(pool, hits), id) == (has_id(pool, id) || was_hit(hits, id)),
    decreases hits.len(),
{
    if hits.len() > 0 {
        let past = hits.drop_last();
        lemma_all_hit_ids(pool, past, id);
        lemma_joined_ids(with_all_hits(pool, past), hits.last().1, hits.last().0, id);
        if was_hit(past, id) {
            let i = choose|i: int| 0 <= i < past.len() && (#[trigger] past[i]).1.id@ == id;
            assert(hits[i].1.id@ == id);
        }
        if was_hit(hits, id) && hits.last().1.id@ != id {
            let i = choose|i: int| 0 <= i < hits.len() && (#[trigger] hits[i]).1.id@ == id;
            assert(past[i].1.id@ == id);
        }
        if hits.last().1.id@ == id {
            assert(hits[hits.len() - 1].1.id@ == id);
        }
    }
}

/// What the searches of a place find, and nothing else, joins the candidates: the assets of
/// the smart search, unless only descriptions are searched, and those that the keywords
/// found. None that was a candidate before is lost.
#[verifier::spinoff_prover]
#[verifier::rlimit(60)]
pub proof fn law_all_finds_become_candidates<S: SearchBackend>(
    search: &S,
    args: SearchArgs,
    place: PlaceView,
    keywords: Seq<Seq<char>>,
    before: Seq<CandidateView>,
    flag: bool,
    after: Seq<CandidateView>,
) -> (r: (FetchResult, Vec<KeywordHit>))
    requires
        place_gathered(search, args, place, keywords, before, Ok(flag), after),
    ensures
        !args.description_only ==> fetched(search, args, PAGE_SIZE, place, Ok(r.0)),
        args.description_only ==> r.0.assets@.len() == 0,
        descriptions_searched(search, args, place, keywords, Ok(r.1)),
        keywords.len() == 0 ==> r.1@.len() == 0,
        flag == r.0.truncated,
        forall|id: Seq<char>| #[trigger]
            has_id(after, id) == (has_id(before, id) || has_asset(r.0.assets@, id) || was_hit(
                hit_views(r.1@),
                id,
            )),
{
    let smart = choose|smart: Result<FetchResult, Error>| #[trigger]
        smart_searched(search, args, place, smart) && (smart matches Ok(f) && exists|
            hits: Result<Vec<KeywordHit>, Error>,
        | #[trigger]
            descriptions_searched(search, args, place, keywords, hits) && (hits matches Ok(h)
                && flag == f.truncated && after == with_all_hits(
                with_all_smart(before, f.assets@),
                hit_views(h@),
            )));
    let f = smart->Ok_0;
    let hits = choose|hits: Result<Vec<KeywordHit>, Error>| #[trigger]
        descriptions_searched(search, args, place, keywords, hits) && (hits matches Ok(h) && flag
            == f.truncated && after == with_all_hits(
            with_all_smart(before, f.assets@),
            hit_views(h@),
        ));
    let h = hits->Ok_0;
    assert forall|id: Seq<char>| #[trigger] has_id(after, id) == (has_id(before, id) || has_asset(
        f.assets@,
        id,
    ) || was_hit(hit_views(h@), id)) by {
        lemma_all_smart_ids(before, f.assets@, id);
        lemma_all_hit_ids(with_all_smart(before, f.assets@), hit_views(h@), id);
    }
    (f, h)
}

/// The hits of one more keyword are the first assets of its page, with the keyword, behind
/// those of the keywords before it.
#[verifier::spinoff_prover]
#[verifier::rlimit(60)]
pub proof fn law_hits_go_with_their_keyword(
    keywords: Seq<Seq<char>>,
    pages: Seq<SearchResponse>,
    page: SearchResponse,
    cap: nat,
    i: int,
)
    requires
        pages.len() < keywords.len(),
        0 <= i < page.assets.items@.len(),
        i < cap,
    ensures
        ({
            let before = hits_of(keywords, pages, cap);
            let after = hits_of(keywords, pages.push(page), cap);
            &&& before.is_prefix_of(after)
            &&& after.len() == before.len() + (if cap < page.assets.items@.len() {
                cap
            } else {
                page.assets.items@.len()
            })
            &&& after[before.len() + i] == (keywords[pages.len() as int], page.assets.items@[i])
        }),
{
    assert(pages.push(page).drop_last() =~= pages);
    let before = hits_of(keywords, pages, cap);
    let after = hits_of(keywords, pages.push(page), cap);
    assert(after.take(before.len() as int) =~= before);
}

// ---- what the model is told -------------------------------------------------

/// A candidate was found by image similarity, by its description, or by both.
#[verifier::spinoff_prover]
#[verifier::rlimit(60)]
pub proof fn law_sources_tell_how_it_was_found(c: CandidateView)
    ensures
        c.smart && c.keywords.len() == 0 ==> sources_of(c) == seq!["smart"@],
        c.smart && c.keywords.len() > 0 ==> sources_of(c) == seq!["smart"@, "description"@],
        !c.smart && c.keywords.len() > 0 ==> sources_of(c) == seq!["description"@],
{
    if c.smart && c.keywords.len() == 0 {
        assert(sources_of(c) =~= seq!["smart"@]);
    }
    if c.smart && c.keywords.len() > 0 {
        assert(sources_of(c) =~= seq!["smart"@, "description"@]);
    }
    if !c.smart && c.keywords.len() > 0 {
        assert(sources_of(c) =~= seq!["description"@]);
    }
}

#[verifier::spinoff_prover]
#[verifier::rlimit(60)]
proof fn lemma_part(c: RerankCandidate, part: Seq<char>)
    requires
        label_parts(c).contains(part),
    ensures
        holds(label(c), part),
{
    let k = choose|k: int| 0 <= k < label_parts(c).len() && label_parts(c)[k] == part;
    lemma_holds_joined(label_parts(c), " | "@, k);
}

/// The line on a candidate begins with its id and type, and names the time, the place from
/// the country down, the people, the searches and the keywords, each under its own name.
#[verifier::spinoff_prover]
#[verifier::rlimit(60)]
pub proof fn law_label_names_the_facts(
    c: RerankCandidate,
    country: String,
    state: String,
    admin2: String,
    city: String,
)
    ensures
        ("id="@ + c.id@ + " | type="@ + c.asset_type@).is_prefix_of(label(c)),
        c.taken_at is Some && c.taken_at->0@.len() > 0 ==> holds(label(c), "taken="@ + c.taken_at->0@),
        c.location is Some && c.location->0.country == Some(country) && c.location->0.state == Some(
            state,
        ) && c.location->0.admin2 == Some(admin2) && c.location->0.city == Some(city)
            && country@.len() > 0 && state@.len() > 0 && admin2@.len() > 0 && city@.len() > 0
            ==> holds(label(c), "loc="@ + country@ + "/"@ + state@ + "/"@ + admin2@ + "/"@ + city@),
        c.location is Some && c.location->0.country == Some(country) && c.location->0.state == Some(
            state,
        ) && c.location->0.admin2 is None && c.location->0.city == Some(city) && country@.len() > 0
            && state@.len() > 0 && city@.len() > 0 ==> holds(
            label(c),
            "loc="@ + country@ + "/"@ + state@ + "/"@ + city@,
        ),
        c.people@.len() > 0 ==> holds(label(c), "people="@ + join(texts(c.people@), ","@)),
        c.sources@.len() > 0 ==> holds(label(c), "sources="@ + join(texts(c.sources@), "+"@)),
        c.matched_keywords@.len() > 0 ==> holds(
            label(c),
            "matched="@ + join(texts(c.matched_keywords@), ","@),
        ),
{
    lemma_label_start(c);
    lemma_parts(c);
    if let Some(l) = c.location {
        lemma_location_text(l, country, state, admin2, city);
    }
}

#[verifier::spinoff_prover]
#[verifier::rlimit(60)]
proof fn lemma_label_start(c: RerankCandidate)
    ensures
        ("id="@ + c.id@ + " | type="@ + c.asset_type@).is_prefix_of(label(c)),
{
    let parts = label_parts(c);
    let head = seq!["id="@ + c.id@, "type="@ + c.asset_type@];
    let rest = parts.skip(2);
    assert(parts =~= head + rest);
    law_join_keeps_order(head, rest, " | "@);
    law_join_keeps_order(seq![head[0]], seq![head[1]], " | "@);
    law_join_keeps_order(seq![head[1]], Seq::empty(), " | "@);
    assert(seq![head[0]] + seq![head[1]] =~= head);
    reveal_strlit(" | ");
    reveal_strlit("type=");
    reveal_strlit(" | type=");
    let start = "id="@ + c.id@ + " | type="@ + c.asset_type@;
    assert(start =~= head[0] + " | "@ + head[1]);
    assert(label(c).take(start.len() as int) =~= start);
}

#[verifier::spinoff_prover]
#[verifier::rlimit(60)]
proof fn lemma_parts(c: RerankCandidate)
    ensures
        c.taken_at is Some && c.taken_at->0@.len() > 0 ==> holds(label(c), "taken="@ + c.taken_at->0@),
        c.location is Some && location_names(c.location->0).len() > 0 ==> holds(
            label(c),
            "loc="@ + join(location_names(c.location->0), "/"@),
        ),
        c.people@.len() > 0 ==> holds(label(c), "people="@ + join(texts(c.people@), ","@)),
        c.sources@.len() > 0 ==> holds(label(c), "sources="@ + join(texts(c.sources@), "+"@)),
        c.matched_keywords@.len() > 0 ==> holds(
            label(c),
            "matched="@ + join(texts(c.matched_keywords@), ","@),
        ),
{
    let parts = label_parts(c);
    let head = seq!["id="@ + c.id@, "type="@ + c.asset_type@];
    let taken = crate::description_search::filled(c.taken_at).map_values(
        |t: Seq<char>| "taken="@ + t,
    );
    let loc = match c.location {
        Some(l) => list_part("loc="@, location_names(l), "/"@),
        None => Seq::empty(),
    };
    let people = list_part("people="@, texts(c.people@), ","@);
    let sources = list_part("sources="@, texts(c.sources@), "+"@);
    let matched = list_part("matched="@, texts(c.matched_keywords@), ","@);
    assert(parts == head + taken + loc + people + sources + matched);
    let n = 2 + taken.len();
    if taken.len() > 0 {
        assert(parts[2] == taken[0]);
        lemma_part(c, taken[0]);
    }
    if loc.len() > 0 {
        assert(parts[n as int] == loc[0]);
        lemma_part(c, loc[0]);
    }
    if people.len() > 0 {
        assert(parts[(n + loc.len()) as int] == people[0]);
        lemma_part(c, people[0]);
    }
    if sources.len() > 0 {
        assert(parts[(n + loc.len() + people.len()) as int] == sources[0]);
        lemma_part(c, sources[0]);
    }
    if matched.len() > 0 {
        assert(parts[(n + loc.len() + people.len() + sources.len()) as int] == matched[0]);
        lemma_part(c, matched[0]);
    }
}

#[verifier::spinoff_prover]
#[verifier::rlimit(60)]
proof fn lemma_location_text(
    l: RerankLocation,
    country: String,
    state: String,
    admin2: String,
    city: String,
)
    ensures
        l.country == Some(country) && l.state == Some(state) && l.admin2 == Some(admin2) && l.city
            == Some(city) && country@.len() > 0 && state@.len() > 0 && admin2@.len() > 0
            && city@.len() > 0 ==> location_names(l).len() == 4 && "loc="@ + join(
            location_names(l),
            "/"@,
        ) == "loc="@ + country@ + "/"@ + state@ + "/"@ + admin2@ + "/"@ + city@,
        l.country == Some(country) && l.state == Some(state) && l.admin2 is None && l.city == Some(
            city,
        ) && country@.len() > 0 && state@.len() > 0 && city@.len() > 0 ==> location_names(l).len()
            == 3 && "loc="@ + join(location_names(l), "/"@) == "loc="@ + country@ + "/"@ + state@
            + "/"@ + city@,
{
    let names = location_names(l);
    reveal_with_fuel(join, 5);
    if names.len() == 4 {
        assert(names.drop_last() =~= seq![names[0], names[1], names[2]]);
        assert(names.drop_last().drop_last() =~= seq![names[0], names[1]]);
        assert(names.drop_last().drop_last().drop_last() =~= seq![names[0]]);
        assert("loc="@ + join(names, "/"@) =~= "loc="@ + names[0] + "/"@ + names[1] + "/"@
            + names[2] + "/"@ + names[3]);
    }
    if names.len() == 3 {
        assert(names.drop_last() =~= seq![names[0], names[1]]);
        assert(names.drop_last().drop_last() =~= seq![names[0]]);
        assert("loc="@ + join(names, "/"@) =~= "loc="@ + names[0] + "/"@ + names[1] + "/"@
            + names[2]);
    }
}

/// The place of a candidate is that of its asset, field by field, with the division that the
/// table knows for it.
#[verifier::spinoff_prover]
#[verifier::rlimit(60)]
pub proof fn law_place_of_a_candidate(
    asset: Asset,
    lookup: Map<PlaceKey, Seq<char>>,
    r: Option<RerankLocation>,
    country: String,
    state: String,
    city: String,
)
    requires
        location_of(asset, lookup, r),
    ensures
        asset.exif_info is None ==> r is None,
        asset.exif_info is Some && asset.exif_info->0.country == Some(country)
            && asset.exif_info->0.state == Some(state) && asset.exif_info->0.city == Some(city)
            && trim(country@).len() > 0 && trim(state@).len() > 0 && trim(city@).len() > 0 ==> {
            let key = (trim(country@), trim(state@), trim(city@));
            &&& r is Some
            &&& r->0.country is Some && r->0.country->0@ == trim(country@)
            &&& r->0.state is Some && r->0.state->0@ == trim(state@)
            &&& r->0.city is Some && r->0.city->0@ == trim(city@)
            &&& lookup.contains_key(key) ==> r->0.admin2 is Some && r->0.admin2->0@ == lookup[key]
            &&& !lookup.contains_key(key) ==> r->0.admin2 is None
        },
{
    lemma_trim_empty(country@);
    lemma_trim_empty(state@);
    lemma_trim_empty(city@);
}

/// A person is told of with the roles that are configured.
#[verifier::spinoff_prover]
#[verifier::rlimit(60)]
pub proof fn law_people_are_told_with_their_roles(name: Seq<char>, role: Seq<char>, roles: Seq<Seq<char>>)
    ensures
        person_label(name, Seq::empty()) == name,
        person_label(name, seq![role]) == name + "（"@ + role + "）"@,
        roles.len() > 0 ==> person_label(name, roles) == name + "（"@ + join(roles, "/"@) + "）"@,
{
    law_join_keeps_order(seq![role], Seq::empty(), "/"@);
}

/// The configured people of an asset are told of, each once, and nobody else.
#[verifier::spinoff_prover]
#[verifier::rlimit(60)]
pub proof fn law_configured_people_are_told(
    detail: JsonView,
    items: Seq<JsonView>,
    people: Map<Seq<char>, Vec<String>>,
    i: int,
    name: Seq<char>,
)
    requires
        has_member(detail, "people"@, JsonView::List(items)),
    ensures
        0 <= i < items.len() && has_member(items[i], "name"@, JsonView::Text(name)) && trim(
            name,
        ).len() > 0 && people.contains_key(trim(name)) ==> people_labels(detail, people).contains(
            person_label(trim(name), texts(people[trim(name)]@)),
        ),
        forall|k: int|
            0 <= k < people_labels(detail, people).len() ==> is_label(
                items,
                people,
                #[trigger] people_labels(detail, people)[k],
            ),
{
    law_members_by_name(detail, "people"@, JsonView::List(items));
    let names = configured_names(items, people);
    let once = distinct(names);
    law_distinct(names);
    let labels = people_labels(detail, people);
    lemma_configured(items, people);
    if 0 <= i < items.len() && has_member(items[i], "name"@, JsonView::Text(name)) && trim(
        name,
    ).len() > 0 && people.contains_key(trim(name)) {
        law_members_by_name(items[i], "name"@, JsonView::Text(name));
        lemma_trim_empty(name);
        assert(name_in(items[i]) == Some(trim(name)));
        assert(names.contains(trim(name)));
        assert(once.contains(trim(name)));
        let k = choose|k: int| 0 <= k < once.len() && once[k] == trim(name);
        assert(labels[k] == person_label(trim(name), texts(people[trim(name)]@)));
    }
    assert forall|k: int| 0 <= k < labels.len() implies is_label(
        items,
        people,
        #[trigger] labels[k],
    ) by {
        assert(once.contains(once[k]));
        assert(names.contains(once[k]));
        let j = choose|j: int| 0 <= j < names.len() && names[j] == once[k];
        assert(is_configured(items, people, names[j]));
        let m = choose|m: int| 0 <= m < items.len() && name_in(#[trigger] items[m]) == Some(once[k]);
        assert(labels[k] == person_label(once[k], texts(people[once[k]]@)));
    }
}

/// One of the people has the name, and it is configured.
pub open spec fn is_configured(
    items: Seq<JsonView>,
    people: Map<Seq<char>, Vec<String>>,
    name: Seq<char>,
) -> bool {
    people.contains_key(name) && exists|m: int|
        0 <= m < items.len() && name_in(#[trigger] items[m]) == Some(name)
}

/// The text is the label of a configured person among the people.
pub open spec fn is_label(
    items: Seq<JsonView>,
    people: Map<Seq<char>, Vec<String>>,
    text: Seq<char>,
) -> bool {
    exists|m: int|
        0 <= m < items.len() && name_in(#[trigger] items[m]) is Some && people.contains_key(
            name_in(items[m])->0,
        ) && text == person_label(name_in(items[m])->0, texts(people[name_in(items[m])->0]@))
}

#[verifier::spinoff_prover]
#[verifier::rlimit(60)]
proof fn lemma_configured(items: Seq<JsonView>, people: Map<Seq<char>, Vec<String>>)
    ensures
        forall|m: int|
            0 <= m < items.len() && name_in(#[trigger] items[m]) is Some && people.contains_key(
                name_in(items[m])->0,
            ) ==> configured_names(items, people).contains(name_in(items[m])->0),
        forall|k: int|
            0 <= k < configured_names(items, people).len() ==> is_configured(
                items,
                people,
                #[trigger] configured_names(items, people)[k],
            ),
    decreases items.len(),
{
    if items.len() > 0 {
        let past = items.drop_last();
        let before = configured_names(past, people);
        let now = configured_names(items, people);
        lemma_configured(past, people);
        assert forall|m: int|
            0 <= m < items.len() && name_in(#[trigger] items[m]) is Some && people.contains_key(
                name_in(items[m])->0,
            ) implies now.contains(name_in(items[m])->0) by {
            let name = name_in(items[m])->0;
            if m < past.len() {
                assert(past[m] == items[m]);
                assert(before.contains(name));
                let k = choose|k: int| 0 <= k < before.len() && before[k] == name;
                assert(now[k] == name);
            } else {
                assert(now[now.len() - 1] == name);
            }
        }
        assert forall|k: int| 0 <= k < now.len() implies is_configured(
            items,
            people,
            #[trigger] now[k],
        ) by {
            if k < before.len() {
                assert(now[k] == before[k]);
                assert(is_configured(past, people, before[k]));
                let m = choose|m: int|
                    0 <= m < past.len() && name_in(#[trigger] past[m]) == Some(before[k]);
                assert(items[m] == past[m]);
            } else {
                assert(name_in(items[items.len() - 1]) == Some(now[k]));
            }
        }
    }
}

#[verifier::spinoff_prover]
#[verifier::rlimit(60)]
proof fn lemma_rank_prompt(query: Seq<char>, limit: nat)
    ensures
        holds(rank_prompt(query, limit), "query: "@ + query),
        holds(rank_prompt(query, limit), "limit: "@ + decimal(limit)),
{
    let empty = Seq::<char>::empty();
    let tail = "\nReturn the top candidate ids by relevance."@;
    let d = decimal(limit);
    let asked = "query: "@ + query;
    lemma_holds(empty, asked, empty);
    lemma_holds_within(empty, asked, "\nlimit: "@, asked);
    lemma_holds_within(empty, asked + "\nlimit: "@, d, asked);
    lemma_holds_within(empty, asked + "\nlimit: "@ + d, tail, asked);
    assert("\nlimit: "@ =~= "\n"@ + "limit: "@) by {
        reveal_strlit("\nlimit: ");
        reveal_strlit("limit: ");
        reveal_strlit("\n");
    }
    lemma_limit_part(asked, "\n"@, "limit: "@, d);
    lemma_holds_within(empty, asked + "\nlimit: "@ + d, tail, "limit: "@ + d);
}

#[verifier::spinoff_prover]
#[verifier::rlimit(60)]
proof fn lemma_limit_part(a: Seq<char>, b: Seq<char>, c: Seq<char>, d: Seq<char>)
    ensures
        holds(a + (b + c) + d, c + d),
{
    lemma_holds(a + b, c + d, Seq::empty());
    lemma_sum_assoc(a, b, c);
    lemma_sum_assoc(a + b, c, d);
}

/// The model is shown each candidate by its label and its own image, and told the query and
/// the limit; of the ids that it returns the first ones are taken.
#[verifier::spinoff_prover]
#[verifier::rlimit(60)]
pub proof fn law_model_ranks_what_it_is_shown<V: MultiImageVisionLlm>(
    llm: &V,
    query: Seq<char>,
    limit: nat,
    candidates: Seq<RerankCandidate>,
    images: Seq<Vec<u8>>,
    ids: Vec<String>,
) -> (r: (&str, &str, &Vec<(String, Vec<u8>, String)>, String))
    requires
        reranked(llm, query, limit, candidates, images, Ok(ids)),
        candidates.len() > 0,
    ensures
        candidates.len() == images.len(),
        call_ensures(
            V::rank_images,
            (llm, r.0, r.1, r.2, 4096u32),
            Ok::<String, Error>(r.3),
        ),
        holds(r.1@, "query: "@ + query),
        holds(r.1@, "limit: "@ + decimal(limit)),
        r.2@.len() == candidates.len(),
        forall|i: int|
            0 <= i < candidates.len() ==> (#[trigger] r.2@[i]).0@ == label(candidates[i])
                && r.2@[i].1@ == images[i]@ && r.2@[i].2@ == "image/jpeg"@,
        json_of(r.3@) is Ok,
        record_texts(json_of(r.3@)->Ok_0, "ids"@) is Some,
        texts(ids@).is_prefix_of(record_texts(json_of(r.3@)->Ok_0, "ids"@)->0),
        ids@.len() == limit || ids@.len() < limit && texts(ids@) == record_texts(
            json_of(r.3@)->Ok_0,
            "ids"@,
        )->0,
{
    let reply = choose|reply: Result<String, Error>| #[trigger]
        rank_reply(llm, query, limit, candidates, images, reply)
            && crate::description_search::ids_from_reply(reply, limit, Ok(ids));
    let (system, user, items) = choose|
        system: &str,
        user: &str,
        items: &Vec<(String, Vec<u8>, String)>,
    |
        {
            &&& system@ == crate::description_search::RERANK_SYSTEM_PROMPT@
            &&& user@ == rank_prompt(query, limit)
            &&& items@.len() == candidates.len()
            &&& forall|i: int|
                0 <= i < candidates.len() ==> shown_as(
                    candidates[i],
                    images[i]@,
                    #[trigger] items@[i],
                )
            &&& #[trigger] call_ensures(
                V::rank_images,
                (llm, system, user, items, crate::description_search::RERANK_MAX_OUTPUT_TOKENS),
                reply,
            )
        };
    lemma_rank_prompt(query, limit);
    assert forall|i: int| 0 <= i < candidates.len() implies (#[trigger] items@[i]).0@ == label(
        candidates[i],
    ) && items@[i].1@ == images[i]@ && items@[i].2@ == "image/jpeg"@ by {
        assert(shown_as(candidates[i], images[i]@, items@[i]));
    }
    assert(texts(ids@).len() == ids@.len());
    let named = ids_in(reply->Ok_0@)->0;
    assert(named.take(ids@.len() as int) =~= texts(ids@));
    (system, user, items, reply->Ok_0)
}

/// One more id of the model adds the asset of the candidate that it names, and nothing where
/// it names none.
#[verifier::spinoff_prover]
#[verifier::rlimit(60)]
pub proof fn law_ids_pick_their_candidates(
    prompts: Seq<RerankCandidate>,
    assets: Seq<Asset>,
    ids: Seq<Seq<char>>,
    id: Seq<char>,
    k: int,
)
    requires
        prompts.len() == assets.len(),
        forall|i: int, j: int|
            0 <= i < j < prompts.len() ==> (#[trigger] prompts[i]).id@ != (
            #[trigger] prompts[j]).id@,
    ensures
        0 <= k < prompts.len() && prompts[k].id@ == id ==> assets_named(prompts, assets, ids.push(id))
            == assets_named(prompts, assets, ids).push(assets[k]),
        (forall|i: int| 0 <= i < prompts.len() ==> (#[trigger] prompts[i]).id@ != id)
            ==> assets_named(prompts, assets, ids.push(id)) == assets_named(prompts, assets, ids),
        assets_named(prompts, assets, Seq::empty()).len() == 0,
{
    assert(ids.push(id).drop_last() =~= ids);
    lemma_asset_with_id(prompts, assets, id, k);
}

#[verifier::spinoff_prover]
#[verifier::rlimit(60)]
proof fn lemma_asset_with_id(
    prompts: Seq<RerankCandidate>,
    assets: Seq<Asset>,
    id: Seq<char>,
    k: int,
)
    requires
        prompts.len() <= assets.len(),
        forall|i: int, j: int|
            0 <= i < j < prompts.len() ==> (#[trigger] prompts[i]).id@ != (
            #[trigger] prompts[j]).id@,
    ensures
        0 <= k < prompts.len() && prompts[k].id@ == id ==> asset_with(prompts, assets, id) == Some(
            assets[k],
        ),
        (forall|i: int| 0 <= i < prompts.len() ==> (#[trigger] prompts[i]).id@ != id) ==> asset_with(
            prompts,
            assets,
            id,
        ) is None,
    decreases prompts.len(),
{
    if prompts.len() > 0 {
        let past = prompts.drop_last();
        assert forall|i: int, j: int| 0 <= i < j < past.len() implies (#[trigger] past[i]).id@ != (
        #[trigger] past[j]).id@ by {
            assert(prompts[i].id@ != prompts[j].id@);
        }
        lemma_asset_with_id(past, assets, id, k);
        if 0 <= k < prompts.len() - 1 && prompts[k].id@ == id {
            assert(prompts[k].id@ != prompts[prompts.len() - 1].id@);
        }
        if forall|i: int| 0 <= i < prompts.len() ==> (#[trigger] prompts[i]).id@ != id {
            assert(prompts[prompts.len() - 1].id@ != id);
            assert forall|i: int| 0 <= i < past.len() implies (#[trigger] past[i]).id@ != id by {
                assert(prompts[i].id@ != id);
            }
        }
    }
}

/// The result is what the model chose, in its order and each once, up to the limit. It is
/// truncated where the limit is reached and there was more to choose from.
#[verifier::spinoff_prover]
#[verifier::rlimit(60)]
pub proof fn law_choice_is_the_models(
    args: SearchArgs,
    rich: RichCandidates,
    more: bool,
    ids: Vec<String>,
    f: FetchResult,
)
    requires
        chosen(args, rich, more, Ok(ids), Ok(f)),
    ensures
        ({
            let named = assets_named(rich.prompts@, rich.assets@, distinct(texts(ids@)));
            &&& f.assets@.is_prefix_of(named)
            &&& f.assets@.len() == named.len() || f.assets@.len() == args.cap()
            &&& f.truncated <==> f.assets@.len() >= args.cap() && (more || rich.assets@.len()
                > args.cap())
        }),
{
    let named = assets_named(rich.prompts@, rich.assets@, distinct(texts(ids@)));
    assert(named.take(f.assets@.len() as int) =~= f.assets@);
}

// ---- several places ---------------------------------------------------------

/// A list gives its first asset one sixty-first, its second one sixty-second, and so on, and
/// the scores of all lists are added up.
#[verifier::spinoff_prover]
#[verifier::rlimit(60)]
pub proof fn law_scores_add_up(lists: Seq<Vec<Asset>>, list: Vec<Asset>, id: Seq<char>, k: int)
    requires
        forall|i: int, j: int|
            0 <= i < j < list@.len() ==> (#[trigger] list@[i]).id@ != (#[trigger] list@[j]).id@,
    ensures
        0 <= k < list@.len() && list@[k].id@ == id ==> score(votes(lists.push(list)), id) == score(
            votes(lists),
            id,
        ) + (1 as real) / ((61 + k) as real),
        !has_asset(list@, id) ==> score(votes(lists.push(list)), id) == score(votes(lists), id),
        score(votes(Seq::empty()), id) == 0 as real,
{
    assert(lists.push(list).drop_last() =~= lists);
    lemma_scores(votes(lists), list@, list@.len() as int, id, k);
    assert(votes_of(list@).take(list@.len() as int) =~= votes_of(list@));
}

#[verifier::spinoff_prover]
#[verifier::rlimit(60)]
proof fn lemma_scores(v: Seq<Vote>, list: Seq<Asset>, n: int, id: Seq<char>, k: int)
    requires
        0 <= n <= list.len(),
        forall|i: int, j: int|
            0 <= i < j < list.len() ==> (#[trigger] list[i]).id@ != (#[trigger] list[j]).id@,
    ensures
        0 <= k < n && list[k].id@ == id ==> score(v + votes_of(list).take(n), id) == score(v, id)
            + (1 as real) / ((61 + k) as real),
        (forall|i: int| 0 <= i < n ==> (#[trigger] list[i]).id@ != id) ==> score(
            v + votes_of(list).take(n),
            id,
        ) == score(v, id),
    decreases n,
{
    let all = v + votes_of(list).take(n);
    if n == 0 {
        assert(all =~= v);
    } else {
        lemma_scores(v, list, n - 1, id, k);
        assert(all.drop_last() =~= v + votes_of(list).take(n - 1));
        assert(all.last() == (list[n - 1], weight(n - 1)));
        if 0 <= k < n && list[k].id@ == id {
            if k < n - 1 {
                assert(list[k].id@ != list[n - 1].id@);
            } else {
                assert forall|i: int| 0 <= i < n - 1 implies (#[trigger] list[i]).id@ != id by {
                    assert(list[i].id@ != list[n - 1].id@);
                }
            }
        }
        if forall|i: int| 0 <= i < n ==> (#[trigger] list[i]).id@ != id {
            assert(list[n - 1].id@ != id);
        }
    }
}

/// The fused list is ordered by score, the highest first.
#[verifier::spinoff_prover]
#[verifier::rlimit(60)]
pub proof fn law_fusion_orders_by_score(lists: Seq<Vec<Asset>>, r: Seq<Asset>, i: int, j: int)
    requires
        fused(votes(lists), r),
        0 <= i < j < r.len(),
    ensures
        score(votes(lists), r[i].id@) >= score(votes(lists), r[j].id@),
{
    assert(outranks(votes(lists), r[i].id@, r[j].id@));
}

/// The fused list holds assets of the lists only.
#[verifier::spinoff_prover]
#[verifier::rlimit(60)]
pub proof fn law_fusion_invents_nothing(lists: Seq<Vec<Asset>>, r: Seq<Asset>, i: int)
    requires
        fused(votes(lists), r),
        0 <= i < r.len(),
    ensures
        exists|l: int, k: int|
            0 <= l < lists.len() && 0 <= k < lists[l]@.len() && #[trigger] lists[l]@[k] == r[i],
{
    let v = votes(lists);
    let id = r[i].id@;
    law_distinct(vote_ids(v));
    assert(seen(v).contains(id));
    assert(vote_ids(v).contains(id));
    lemma_first_asset(v, id);
    let n = choose|n: int| 0 <= n < v.len() && (#[trigger] v[n]).0 == first_asset(v, id);
    lemma_votes_come_from_lists(lists, n);
}

#[verifier::spinoff_prover]
#[verifier::rlimit(60)]
proof fn lemma_first_asset(v: Seq<Vote>, id: Seq<char>)
    requires
        vote_ids(v).contains(id),
    ensures
        exists|n: int| 0 <= n < v.len() && (#[trigger] v[n]).0 == first_asset(v, id),
    decreases v.len(),
{
    if v.len() > 0 {
        let past = v.drop_last();
        if vote_ids(past).contains(id) {
            lemma_first_asset(past, id);
            let n = choose|n: int| 0 <= n < past.len() && (#[trigger] past[n]).0 == first_asset(
                past,
                id,
            );
            assert(v[n] == past[n]);
        } else {
            assert(v[v.len() - 1].0 == first_asset(v, id));
        }
    }
}

#[verifier::spinoff_prover]
#[verifier::rlimit(60)]
proof fn lemma_votes_come_from_lists(lists: Seq<Vec<Asset>>, n: int)
    requires
        0 <= n < votes(lists).len(),
    ensures
        exists|l: int, k: int|
            0 <= l < lists.len() && 0 <= k < lists[l]@.len() && #[trigger] lists[l]@[k] == votes(
                lists,
            )[n].0,
    decreases lists.len(),
{
    if lists.len() > 0 {
        let past = lists.drop_last();
        let before = votes(past);
        if n < before.len() {
            lemma_votes_come_from_lists(past, n);
            let (l, k) = choose|l: int, k: int|
                0 <= l < past.len() && 0 <= k < past[l]@.len() && #[trigger] past[l]@[k]
                    == before[n].0;
            assert(lists[l]@[k] == past[l]@[k]);
        } else {
            let last = lists.len() - 1;
            assert(lists[last]@[n - before.len()] == votes(lists)[n].0);
        }
    }
}

/// Of several places the results are fused and cut off at the limit; the result is truncated
/// where one of theirs is, or where more were found than the limit allows.
#[verifier::spinoff_prover]
#[verifier::rlimit(60)]
pub proof fn law_places_are_merged(args: SearchArgs, results: Seq<FetchResult>, f: FetchResult) -> (all:
    Seq<Asset>)
    requires
        merged(args, results, f),
    ensures
        fused(votes(results.map_values(|r: FetchResult| r.assets)), all),
        f.assets@.is_prefix_of(all),
        f.assets@.len() == all.len() || f.assets@.len() == args.cap(),
        f.truncated <==> all.len() > args.cap() || exists|k: int|
            0 <= k < results.len() && (#[trigger] results[k]).truncated,
{
    let cap = args.cap() as nat;
    let all = choose|all: Seq<Asset>| #[trigger]
        fused(votes(asset_lists(results)), all) && f.assets@ == first(all, cap) && f.truncated == (
        any_truncated(results) || all.len() > cap);
    assert(all.take(f.assets@.len() as int) =~= f.assets@);
    all
}

/// Without a language model the result of a query is what the searches of all places found,
/// each asset once and in the order in which they were found, up to the limit.
#[verifier::spinoff_prover]
#[verifier::rlimit(60)]
pub proof fn law_smart_only_results<S: SearchBackend>(
    search: &S,
    args: SearchArgs,
    places: Seq<PlaceView>,
    f: FetchResult,
) -> (results: Seq<FetchResult>)
    requires
        smart_only(search, args, places, Ok(f)),
        args.cap() > 0,
    ensures
        results.len() == places.len(),
        forall|k: int|
            0 <= k < results.len() ==> fetched(
                search,
                args,
                PAGE_SIZE,
                places[k],
                Ok(#[trigger] results[k]),
            ),
        f.assets@.is_prefix_of(distinct_assets(all_assets(results))),
        forall|id: Seq<char>| #[trigger]
            has_asset(all_assets(results), id) ==> has_asset(f.assets@, id) || f.assets@.len()
                == args.cap(),
        forall|id: Seq<char>| #[trigger]
            has_asset(f.assets@, id) ==> has_asset(all_assets(results), id),
{
    let cap = args.cap() as nat;
    let results = choose|results: Seq<FetchResult>| #[trigger]
        places_fetched(search, args, places, results) && results.len() == places.len() && f.assets@
            == first(distinct_assets(all_assets(results)), cap);
    let found = distinct_assets(all_assets(results));
    law_distinct_assets(all_assets(results));
    assert(found.take(f.assets@.len() as int) =~= f.assets@);
    assert forall|id: Seq<char>| #[trigger] has_asset(f.assets@, id) implies has_asset(
        all_assets(results),
        id,
    ) by {
        let n = choose|n: int| 0 <= n < f.assets@.len() && (#[trigger] f.assets@[n]).id@ == id;
        assert(found[n].id@ == id);
        assert(has_asset(found, id));
    }
    results
}

/// One more result adds its assets behind the others, and an asset that is there already is
/// not taken twice.
#[verifier::spinoff_prover]
#[verifier::rlimit(60)]
pub proof fn law_results_are_lined_up(results: Seq<FetchResult>, f: FetchResult, list: Seq<Asset>, a: Asset)
    ensures
        all_assets(results.push(f)) == all_assets(results) + f.assets@,
        all_assets(Seq::empty()).len() == 0,
        has_asset(distinct_assets(list), a.id@) ==> distinct_assets(list.push(a))
            == distinct_assets(list),
        !has_asset(distinct_assets(list), a.id@) ==> distinct_assets(list.push(a))
            == distinct_assets(list).push(a),
{
    assert(results.push(f).drop_last() =~= results);
    assert(list.push(a).drop_last() =~= list);
}

/// Without `--place` the whole library is searched; with one, at least one place is.
#[verifier::spinoff_prover]
#[verifier::rlimit(60)]
pub proof fn law_places_to_search<P: PlacesBackend, L: ChatBackend>(
    places_be: &P,
    llm: Option<&L>,
    lookup: Map<PlaceKey, Seq<char>>,
    args: SearchArgs,
    list: Vec<PlaceMatch>,
)
    requires
        places_resolved(places_be, llm, lookup, args, Ok(list)),
    ensures
        args.place is None || trim(args.place->0@).len() == 0 ==> list@.len() == 1
            && list@[0].country is None && list@[0].state is None && list@[0].city is None,
        list@.len() >= 1,
        args.place is Some && trim(args.place->0@).len() > 0 ==> llm is Some,
{
    if let Some(p) = args.place {
        lemma_trim_empty(p@);
    }
    assert(place_views(list@).len() == list@.len());
    if args.place is None || trim(args.place->0@).len() == 0 {
        assert(place_views(list@)[0] == list@[0]@);
    }
}

// ---- a whole search ---------------------------------------------------------

/// Every place is searched, and all that its searches find are candidates; only what a
/// search of a place found is one. Whether there was more is told where it was so anywhere.
#[verifier::spinoff_prover]
#[verifier::rlimit(60)]
pub proof fn law_every_place_is_searched<S: SearchBackend>(
    search: &S,
    args: SearchArgs,
    places: Seq<PlaceView>,
    keywords: Seq<Seq<char>>,
    pool: Seq<CandidateView>,
    more: bool,
) -> (r: (Seq<FetchResult>, Seq<Vec<KeywordHit>>))
    requires
        pool_gathered(search, args, places, keywords, Ok((pool, more))),
    ensures
        r.0.len() == places.len(),
        r.1.len() == places.len(),
        forall|k: int|
            0 <= k < places.len() ==> !args.description_only ==> fetched(
                search,
                args,
                PAGE_SIZE,
                places[k],
                Ok(#[trigger] r.0[k]),
            ),
        forall|k: int|
            0 <= k < places.len() ==> descriptions_searched(
                search,
                args,
                places[k],
                keywords,
                Ok(#[trigger] r.1[k]),
            ),
        forall|id: Seq<char>| #[trigger]
            has_id(pool, id) == found_anywhere(r.0, r.1, places.len() as int, id),
        more == exists|k: int| 0 <= k < places.len() && (#[trigger] r.0[k]).truncated,
{
    let (pools, flags) = choose|pools: Seq<Seq<CandidateView>>, flags: Seq<bool>| #[trigger]
        pools_grow(search, args, places, keywords, pools, flags) && flags.len() == places.len()
            && pool == pools.last() && more == any_true(flags);
    let r = lemma_pools(search, args, places, keywords, pools, flags, places.len() as int);
    assert(pools[places.len() as int] == pools.last());
    if more {
        let k = choose|k: int| 0 <= k < flags.len() && #[trigger] flags[k];
        assert(r.0[k].truncated);
    }
    if exists|k: int| 0 <= k < places.len() && (#[trigger] r.0[k]).truncated {
        let k = choose|k: int| 0 <= k < places.len() && (#[trigger] r.0[k]).truncated;
        assert(flags[k]);
    }
    r
}

/// A search of one of the first `n` places found the asset.
pub open spec fn found_anywhere(
    smart: Seq<FetchResult>,
    hits: Seq<Vec<KeywordHit>>,
    n: int,
    id: Seq<char>,
) -> bool {
    exists|k: int| 0 <= k < n && #[trigger] found_at(smart, hits, k, id)
}

/// A search of place `k` found the asset.
pub open spec fn found_at(
    smart: Seq<FetchResult>,
    hits: Seq<Vec<KeywordHit>>,
    k: int,
    id: Seq<char>,
) -> bool {
    has_asset(smart[k].assets@, id) || was_hit(hit_views(hits[k]@), id)
}

#[verifier::spinoff_prover]
#[verifier::rlimit(60)]
proof fn lemma_pools<S: SearchBackend>(
    search: &S,
    args: SearchArgs,
    places: Seq<PlaceView>,
    keywords: Seq<Seq<char>>,
    pools: Seq<Seq<CandidateView>>,
    flags: Seq<bool>,
    n: int,
) -> (r: (Seq<FetchResult>, Seq<Vec<KeywordHit>>))
    requires
        pools_grow(search, args, places, keywords, pools, flags),
        0 <= n <= flags.len(),
    ensures
        r.0.len() == n,
        r.1.len() == n,
        forall|k: int|
            0 <= k < n ==> !args.description_only ==> fetched(
                search,
                args,
                PAGE_SIZE,
                places[k],
                Ok(#[trigger] r.0[k]),
            ),
        forall|k: int|
            0 <= k < n ==> descriptions_searched(
                search,
                args,
                places[k],
                keywords,
                Ok(#[trigger] r.1[k]),
            ),
        forall|k: int| 0 <= k < n ==> (#[trigger] r.0[k]).truncated == flags[k],
        forall|id: Seq<char>| #[trigger] has_id(pools[n], id) == found_anywhere(r.0, r.1, n, id),
    decreases n,
{
    if n == 0 {
        (Seq::empty(), Seq::empty())
    } else {
        let before = lemma_pools(search, args, places, keywords, pools, flags, n - 1);
        assert(place_gathered(
            search,
            args,
            places[n - 1],
            keywords,
            pools[n - 1],
            Ok(flags[n - 1]),
            pools[n],
        ));
        let one = law_all_finds_become_candidates(
            search,
            args,
            places[n - 1],
            keywords,
            pools[n - 1],
            flags[n - 1],
            pools[n],
        );
        let r = (before.0.push(one.0), before.1.push(one.1));
        assert forall|id: Seq<char>| #[trigger] has_id(pools[n], id) == found_anywhere(
            r.0,
            r.1,
            n,
            id,
        ) by {
            assert(has_id(pools[n - 1], id) == found_anywhere(before.0, before.1, n - 1, id));
            if found_anywhere(before.0, before.1, n - 1, id) {
                let k = choose|k: int|
                    0 <= k < n - 1 && #[trigger] found_at(before.0, before.1, k, id);
                assert(found_at(r.0, r.1, k, id));
            }
            if has_asset(one.0.assets@, id) || was_hit(hit_views(one.1@), id) {
                assert(found_at(r.0, r.1, n - 1, id));
            }
            if found_anywhere(r.0, r.1, n, id) {
                let k = choose|k: int| 0 <= k < n && #[trigger] found_at(r.0, r.1, k, id);
                if k < n - 1 {
                    assert(found_at(before.0, before.1, k, id));
                }
            }
        }
        r
    }
}

/// What the model is told of a candidate is true of it: the type and the time of its asset,
/// the keywords that found it, and its short id.
#[verifier::spinoff_prover]
#[verifier::rlimit(60)]
pub proof fn law_prompts_fit_their_candidates<I: InfoBackend>(
    info_be: &I,
    people: Map<Seq<char>, Vec<String>>,
    lookup: Map<PlaceKey, Seq<char>>,
    pool: Seq<CandidateView>,
    rich: RichCandidates,
    i: int,
)
    requires
        candidates_built(info_be, people, lookup, pool, Ok(rich)),
        0 <= i < pool.len(),
    ensures
        rich.assets@.len() == pool.len(),
        rich.prompts@.len() == pool.len(),
        rich.assets@[i] == pool[i].asset,
        rich.prompts@[i].id@ == short_id((i + 1) as nat),
        rich.prompts@[i].asset_type@ == pool[i].asset.asset_type@,
        opt_text(rich.prompts@[i].taken_at) == opt_text(pool[i].asset.local_date_time),
        texts(rich.prompts@[i].matched_keywords@) == pool[i].keywords,
        texts(rich.prompts@[i].sources@) == sources_of(pool[i]),
        location_of(pool[i].asset, lookup, rich.prompts@[i].location),
        people.is_empty() ==> rich.prompts@[i].people@.len() == 0,
{
    assert(prompt_fits(info_be, people, lookup, pool[i], (i + 1) as nat, rich.prompts@[i]));
    assert(rich.assets@[i] == pool[i].asset);
    assert(texts(rich.prompts@[i].people@).len() == rich.prompts@[i].people@.len());
}

/// The image of each candidate is the thumbnail of its own asset.
#[verifier::spinoff_prover]
#[verifier::rlimit(60)]
pub proof fn law_images_belong_to_their_assets<T: CaptionBackend>(
    backend: &T,
    ids: Seq<Seq<char>>,
    images: Vec<Vec<u8>>,
    i: int,
)
    requires
        thumbnails_fetched(backend, ids, Ok(images)),
        0 <= i < ids.len(),
    ensures
        images@.len() == ids.len(),
        exists|reply: Vec<u8>|
            #![trigger reply@]
            reply@ == images@[i]@ && thumbnail_reply(backend, ids[i], Ok(reply)),
{
    let replies = choose|replies: Seq<Result<Vec<u8>, Error>>| #[trigger]
        thumbnails_reply(backend, ids, replies) && images_from(ids, replies, Ok(images));
    let used = first(replies, ids.len());
    assert(used =~= replies);
    assert(used[i] is Ok);
    assert(thumbnail_reply(backend, ids[i], replies[i]));
    let reply = replies[i]->Ok_0;
    assert(reply@ == images@[i]@);
}

/// What a search with a query and a model returns are candidates that the model named, each
/// with the image and the facts of its own asset, found by the searches for the keywords that
/// the model drew from the query.
#[verifier::spinoff_prover]
#[verifier::rlimit(60)]
pub proof fn law_query_results<
    S: SearchBackend,
    I: InfoBackend,
    T: CaptionBackend,
    L: ChatBackend + MultiImageVisionLlm,
>(
    search: &S,
    info: &I,
    thumbs: &T,
    llm: &L,
    people: Map<Seq<char>, Vec<String>>,
    lookup: Map<PlaceKey, Seq<char>>,
    args: SearchArgs,
    places: Seq<PlaceView>,
    query: Seq<char>,
    f: FetchResult,
) -> (r: (Vec<String>, (Seq<CandidateView>, bool)))
    requires
        searched_with_llm(
            search,
            info,
            thumbs,
            llm,
            people,
            lookup,
            args,
            places,
            query,
            Ok(f),
        ),
    ensures
        expanded(
            llm,
            crate::description_search::KEYWORD_SYSTEM_PROMPT@,
            query,
            3,
            Ok(r.0),
        ),
        pool_gathered(search, args, places, texts(r.0@), Ok(r.1)),
        r.1.0.len() == 0 ==> f.assets@.len() == 0 && !f.truncated,
        r.1.0.len() > 0 ==> exists|rich: RichCandidates, images: Vec<Vec<u8>>, ids: Vec<String>|
            {
                &&& #[trigger] candidates_built(info, people, lookup, r.1.0, Ok(rich))
                &&& #[trigger] thumbnails_fetched(
                    thumbs,
                    ids_of(rich.assets@),
                    Ok(images),
                )
                &&& #[trigger] reranked(
                    llm,
                    query,
                    args.cap() as nat,
                    rich.prompts@,
                    images@,
                    Ok(ids),
                )
                &&& chosen(args, rich, r.1.1, Ok(ids), Ok(f))
            },
{
    let words = choose|words: Result<Vec<String>, Error>| #[trigger]
        expanded(
            llm,
            crate::description_search::KEYWORD_SYSTEM_PROMPT@,
            query,
            crate::description_search::MAX_KEYWORDS as nat,
            words,
        ) && (words matches Ok(words) && exists|
            pool: Result<(Seq<CandidateView>, bool), Error>,
        | #[trigger]
            pool_gathered(search, args, places, texts(words@), pool) && (pool matches Ok(p) && (
            if p.0.len() == 0 {
                f.assets@.len() == 0 && !f.truncated
            } else {
                ranked(info, thumbs, llm, people, lookup, args, query, p.0, p.1, Ok(f))
            })));
    let w = words->Ok_0;
    let pool = choose|pool: Result<(Seq<CandidateView>, bool), Error>| #[trigger]
        pool_gathered(search, args, places, texts(w@), pool) && (pool matches Ok(p) && (
        if p.0.len() == 0 {
            f.assets@.len() == 0 && !f.truncated
        } else {
            ranked(info, thumbs, llm, people, lookup, args, query, p.0, p.1, Ok(f))
        }));
    let p = pool->Ok_0;
    if p.0.len() > 0 {
        let built = choose|built: Result<RichCandidates, Error>| #[trigger]
            candidates_built(info, people, lookup, p.0, built) && (built matches Ok(rich) && exists|
                images: Result<Vec<Vec<u8>>, Error>,
            | #[trigger]
                thumbnails_fetched(thumbs, ids_of(rich.assets@), images) && (images matches Ok(
                    images,
                ) && exists|ids: Result<Vec<String>, Error>| #[trigger]
                    reranked(llm, query, args.cap() as nat, rich.prompts@, images@, ids) && chosen(
                        args,
                        rich,
                        p.1,
                        ids,
                        Ok(f),
                    )));
        let rich = built->Ok_0;
        let images = choose|images: Result<Vec<Vec<u8>>, Error>| #[trigger]
            thumbnails_fetched(thumbs, ids_of(rich.assets@), images) && (images matches Ok(images)
                && exists|ids: Result<Vec<String>, Error>| #[trigger]
                reranked(llm, query, args.cap() as nat, rich.prompts@, images@, ids) && chosen(
                    args,
                    rich,
                    p.1,
                    ids,
                    Ok(f),
                ));
        let ids = choose|ids: Result<Vec<String>, Error>| #[trigger]
            reranked(llm, query, args.cap() as nat, rich.prompts@, images->Ok_0@, ids) && chosen(
                args,
                rich,
                p.1,
                ids,
                Ok(f),
            );
        assert(ids is Ok);
        assert(candidates_built(info, people, lookup, p.0, Ok(rich)));
        assert(reranked(
            llm,
            query,
            args.cap() as nat,
            rich.prompts@,
            images->Ok_0@,
            Ok(ids->Ok_0),
        ));
    }
    (w, p)
}

/// A search without a query fetches each place with its own filters; the results of several
/// places are merged, and that of a single one is returned as it is.
#[verifier::spinoff_prover]
#[verifier::rlimit(60)]
pub proof fn law_filter_results<S: SearchBackend>(
    search: &S,
    args: SearchArgs,
    places: Seq<PlaceView>,
    f: FetchResult,
) -> (results: Seq<FetchResult>)
    requires
        filters_searched(search, args, places, Ok(f)),
    ensures
        results.len() == places.len(),
        forall|k: int|
            0 <= k < places.len() ==> fetched(
                search,
                args,
                PAGE_SIZE,
                places[k],
                Ok(#[trigger] results[k]),
            ),
        places.len() == 1 ==> results[0] == f,
        places.len() != 1 ==> merged(args, results, f),
{
    if places.len() == 1 {
        seq![f]
    } else {
        let results = choose|results: Seq<FetchResult>| #[trigger]
            places_fetched(search, args, places, results) && results.len() == places.len()
                && merged(args, results, f);
        results
    }
}

/// A search with a query that is not blank goes by the query, without white space around it,
/// and one without by the filters; either searches the places that were resolved.
#[verifier::spinoff_prover]
#[verifier::rlimit(60)]
pub proof fn law_query_decides<
    S: SearchBackend,
    P: PlacesBackend,
    I: InfoBackend,
    T: CaptionBackend,
    L: ChatBackend + MultiImageVisionLlm,
>(
    backends: &Backends<'_, S, P, I, T, L>,
    people: Map<Seq<char>, Vec<String>>,
    lookup: Map<PlaceKey, Seq<char>>,
    args: SearchArgs,
    f: FetchResult,
) -> (places: Vec<PlaceMatch>)
    requires
        searched(backends, people, lookup, args, Ok(f)),
    ensures
        places_resolved(backends.places, backends.llm, lookup, args, Ok(places)),
        args.query is None || trim(args.query->0@).len() == 0 ==> filters_searched(
            backends.search,
            args,
            place_views(places@),
            Ok(f),
        ),
        args.query is Some && trim(args.query->0@).len() > 0 && backends.llm is None ==> smart_only(
            backends.search,
            args,
            place_views(places@),
            Ok(f),
        ) && !args.description_only,
        args.query is Some && trim(args.query->0@).len() > 0 && backends.llm is Some
            ==> searched_with_llm(
            backends.search,
            backends.info,
            backends.thumbs,
            backends.llm->0,
            people,
            lookup,
            args,
            place_views(places@),
            trim(args.query->0@),
            Ok(f),
        ),
{
    if let Some(q) = args.query {
        lemma_trim_empty(q@);
    }
    let places = choose|places: Result<Vec<PlaceMatch>, Error>| #[trigger]
        places_resolved(backends.places, backends.llm, lookup, args, places) && (
        places matches Ok(places) && match clean_text(args.query) {
            Some(query) => query_searched(
                backends,
                people,
                lookup,
                args,
                place_views(places@),
                query,
                Ok(f),
            ),
            None => filters_searched(backends.search, args, place_views(places@), Ok(f)),
        });
    places->Ok_0
}

/// The place that was given in words is resolved against the vocabulary of the library, with
/// the divisions that the table knows filled in, and the places that come out are searched.
#[verifier::spinoff_prover]
#[verifier::rlimit(60)]
pub proof fn law_place_is_resolved<P: PlacesBackend, L: ChatBackend>(
    places_be: &P,
    llm: &L,
    lookup: Map<PlaceKey, Seq<char>>,
    args: SearchArgs,
    list: Vec<PlaceMatch>,
) -> (r: (Vec<CityVocabEntry>, Seq<CityVocabEntry>))
    requires
        places_resolved(places_be, Some(llm), lookup, args, Ok(list)),
        args.place is Some,
        trim(args.place->0@).len() > 0,
    ensures
        vocabulary_reply(places_be, Ok(r.0)),
        enriched(r.0@, lookup, r.1),
        resolved(llm, trim(args.place->0@), r.1, Ok(list)),
{
    let place = args.place->0@;
    lemma_trim_empty(place);
    lemma_trim_twice(place);
    lemma_trim_empty(trim(place));
    let found = choose|found: Result<Vec<PlaceMatch>, Error>| #[trigger]
        place_resolved(places_be, llm, trim(place), lookup, found) && (found matches Ok(l)
            && l == list);
    assert(found == Ok::<Vec<PlaceMatch>, Error>(list));
    let known = choose|known: Result<Vec<CityVocabEntry>, Error>| #[trigger]
        vocabulary_reply(places_be, known) && (known matches Ok(before) && exists|
            vocab: Seq<CityVocabEntry>,
        | #[trigger]
            enriched(before@, lookup, vocab) && resolved(
                llm,
                trim(trim(place)),
                vocab,
                Ok(list),
            ));
    let before = known->Ok_0;
    let vocab = choose|vocab: Seq<CityVocabEntry>| #[trigger]
        enriched(before@, lookup, vocab) && resolved(llm, trim(trim(place)), vocab, Ok(list));
    (before, vocab)
}

/// The thumbnails are asked for by the ids of the candidates, in their order.
#[verifier::spinoff_prover]
#[verifier::rlimit(60)]
pub proof fn law_ids_are_those_of_the_assets(assets: Seq<Asset>, i: int)
    requires
        0 <= i < assets.len(),
    ensures
        ids_of(assets).len() == assets.len(),
        ids_of(assets)[i] == assets[i].id@,
{
}

// ---- pages without the hidden assets ----------------------------------------

/// A page without the hidden assets tells of further pages, and of how many assets the server
/// found, as the page itself does.
#[verifier::spinoff_prover]
#[verifier::rlimit(60)]
pub proof fn law_filtered_pages(page: SearchResponse, hidden: Set<Seq<char>>, r: SearchResponse)
    requires
        without_hidden(Ok(page), hidden, Ok(r)),
    ensures
        r.assets.items@ == visible(page.assets.items@, hidden),
        r.assets.next_page == page.assets.next_page,
        r.assets.count == page.assets.count,
        r.more() == page.more(),
        page.assets.items@.len() > 0 && page.assets.count > 0 ==> r.holds_assets(),
{
}

/// What is hidden is what the stacks say; where they could not be fetched nothing is hidden,
/// and the warning gives the reason.
#[verifier::spinoff_prover]
#[verifier::rlimit(60)]
pub proof fn law_what_is_hidden_follows_the_stacks(
    stacks: Vec<Stack>,
    e: Error,
    hidden: Set<Seq<char>>,
    warning: Option<Seq<char>>,
    id: Seq<char>,
)
    ensures
        hidden_from_reply(Ok(stacks), hidden, warning) ==> warning is None && (hidden.contains(id)
            <==> is_hidden(stacks@, id)),
        hidden_from_reply(Err(e), hidden, warning) ==> !hidden.contains(id) && warning is Some
            && holds(warning->0, "("@ + e.full_text() + ")"@),
{
    if hidden_from_reply(Ok(stacks), hidden, warning) {
        assert(hidden.contains(id) == is_hidden(stacks@, id));
    }
    if hidden_from_reply(Err(e), hidden, warning) {
        let open = "warn: could not fetch /api/stacks ("@;
        let close = "); results may include stacked duplicates"@;
        reveal_strlit("(");
        reveal_strlit(")");
        reveal_strlit("warn: could not fetch /api/stacks (");
        reveal_strlit("); results may include stacked duplicates");
        assert(open =~= open.drop_last() + "("@);
        assert(close =~= ")"@ + close.drop_first());
        let middle = "("@ + e.full_text() + ")"@;
        assert(warning->0 =~= open.drop_last() + middle + close.drop_first());
        lemma_holds(open.drop_last(), middle, close.drop_first());
    }
}

// ---- keywords and people ----------------------------------------------------

/// Every keyword is searched for, with the filters, and the hits are those of all keywords.
#[verifier::spinoff_prover]
#[verifier::rlimit(60)]
pub proof fn law_every_keyword_is_searched_for<S: SearchBackend>(
    search: &S,
    keywords: Seq<Seq<char>>,
    filters: HardFilters,
    cap: u32,
    hits: Vec<KeywordHit>,
) -> (pages: Seq<SearchResponse>)
    requires
        hits_collected(search, keywords, filters, cap, Ok(hits)),
    ensures
        pages.len() == keywords.len(),
        forall|k: int|
            0 <= k < keywords.len() ==> search_reply(
                search,
                keyword_request(keywords[k], filters, cap),
                Ok(#[trigger] pages[k]),
            ),
        hit_views(hits@) == hits_of(keywords, pages, cap as nat),
{
    choose|pages: Seq<SearchResponse>| #[trigger]
        keyword_pages(search, keywords, filters, cap, pages) && pages.len() == keywords.len()
            && hit_views(hits@) == hits_of(keywords, pages, cap as nat)
}

/// The descriptions are searched under the filters of the arguments and the place; a keyword
/// adds 20 assets at most, and no more than are wanted, but one at least.
#[verifier::spinoff_prover]
#[verifier::rlimit(60)]
pub proof fn law_descriptions_are_searched<S: SearchBackend>(
    search: &S,
    args: SearchArgs,
    place: PlaceView,
    keywords: Seq<Seq<char>>,
    hits: Vec<KeywordHit>,
)
    requires
        descriptions_searched(search, args, place, keywords, Ok(hits)),
    ensures
        keywords.len() == 0 ==> hits@.len() == 0,
        keywords.len() > 0 ==> exists|filters: HardFilters| #[trigger]
            filters_built(args, place, Ok(filters)) && hits_collected(
                search,
                keywords,
                filters,
                if args.cap() == 0 {
                    1
                } else if args.cap() < 20 {
                    args.cap()
                } else {
                    20u32
                },
                Ok(hits),
            ),
{
    if keywords.len() > 0 {
        let filters = choose|filters: Result<HardFilters, Error>| #[trigger]
            filters_built(args, place, filters) && (filters matches Ok(f) && hits_collected(
                search,
                keywords,
                f,
                keyword_cap(args),
                Ok(hits),
            ));
        assert(filters_built(args, place, Ok(filters->Ok_0)));
    }
}

/// The people of a candidate are read from the detail of its own asset, and only where people
/// are configured.
#[verifier::spinoff_prover]
#[verifier::rlimit(60)]
pub proof fn law_people_are_read_from_the_detail<I: InfoBackend>(
    backend: &I,
    people: Map<Seq<char>, Vec<String>>,
    id: Seq<char>,
    names: Vec<String>,
)
    requires
        people_named(backend, people, id, Ok(names)),
    ensures
        people.is_empty() ==> names@.len() == 0,
        !people.is_empty() ==> exists|detail: Json| #[trigger]
            detail_reply(backend, id, Ok(detail)) && texts(names@) == people_labels(detail@, people),
{
    assert(texts(names@).len() == names@.len());
    if !people.is_empty() {
        let reply = choose|reply: Result<Json, Error>| #[trigger]
            detail_reply(backend, id, reply) && (reply matches Ok(detail) && texts(names@)
                == people_labels(detail@, people));
        assert(detail_reply(backend, id, Ok(reply->Ok_0)));
    }
}

/// Each candidate is told of with the people of its own asset.
#[verifier::spinoff_prover]
#[verifier::rlimit(60)]
pub proof fn law_people_belong_to_their_candidate<I: InfoBackend>(
    info_be: &I,
    people: Map<Seq<char>, Vec<String>>,
    lookup: Map<PlaceKey, Seq<char>>,
    pool: Seq<CandidateView>,
    rich: RichCandidates,
    i: int,
)
    requires
        candidates_built(info_be, people, lookup, pool, Ok(rich)),
        0 <= i < pool.len(),
    ensures
        exists|named: Vec<String>| #[trigger]
            people_named(info_be, people, pool[i].asset.id@, Ok(named)) && texts(named@) == texts(
                rich.prompts@[i].people@,
            ),
{
    assert(prompt_fits(info_be, people, lookup, pool[i], (i + 1) as nat, rich.prompts@[i]));
    let named = choose|named: Result<Vec<String>, Error>| #[trigger]
        people_named(info_be, people, pool[i].asset.id@, named) && named is Ok && described_as(
            pool[i],
            (i + 1) as nat,
            texts(named->Ok_0@),
            lookup,
            rich.prompts@[i],
        );
    assert(people_named(info_be, people, pool[i].asset.id@, Ok(named->Ok_0)));
}

/// Among equal scores the asset that the lists name first comes first.
#[verifier::spinoff_prover]
#[verifier::rlimit(60)]
pub proof fn law_ties_go_to_the_first_named(lists: Seq<Vec<Asset>>, r: Seq<Asset>, i: int, j: int)
    requires
        fused(votes(lists), r),
        0 <= i < j < r.len(),
        score(votes(lists), r[i].id@) == score(votes(lists), r[j].id@),
    ensures
        exists|x: int, y: int|
            0 <= x < y < distinct(vote_ids(votes(lists))).len() && #[trigger] distinct(
                vote_ids(votes(lists)),
            )[x] == r[i].id@ && #[trigger] distinct(vote_ids(votes(lists)))[y] == r[j].id@,
{
    let v = votes(lists);
    assert(outranks(v, r[i].id@, r[j].id@));
    let (x, y) = choose|x: int, y: int|
        0 <= x < y < seen(v).len() && #[trigger] seen(v)[x] == r[i].id@ && #[trigger] seen(v)[y]
            == r[j].id@;
    assert(distinct(vote_ids(v))[x] == r[i].id@ && distinct(vote_ids(v))[y] == r[j].id@);
}

/// The lists are named one behind the other, each from its first asset on.
#[verifier::spinoff_prover]
#[verifier::rlimit(60)]
pub proof fn law_lists_are_named_in_order(lists: Seq<Vec<Asset>>, list: Vec<Asset>)
    ensures
        vote_ids(votes(lists.push(list))) == vote_ids(votes(lists)) + list@.map_values(
            |a: Asset| a.id@,
        ),
{
    assert(lists.push(list).drop_last() =~= lists);
    assert(vote_ids(votes(lists.push(list))) =~= vote_ids(votes(lists)) + list@.map_values(
        |a: Asset| a.id@,
    ));
}

/// Places and hits are viewed field by field.
#[verifier::spinoff_prover]
#[verifier::rlimit(60)]
pub proof fn law_views_are_field_by_field(m: PlaceMatch, h: KeywordHit, c: QueryCandidate)
    ensures
        m@.country == opt_text(m.country),
        m@.state == opt_text(m.state),
        m@.city == opt_text(m.city),
        h@.0 == h.keyword@,
        h@.1 == h.asset,
        c@.asset == c.asset,
        c@.smart == c.smart,
        c@.keywords == texts(c.matched_keywords@),
{
}

/// The people are told of in the order of the detail, each where they are first named.
#[verifier::spinoff_prover]
#[verifier::rlimit(60)]
pub proof fn law_people_are_told_in_order(
    detail: JsonView,
    items: Seq<JsonView>,
    people: Map<Seq<char>, Vec<String>>,
    person: JsonView,
    k: int,
)
    requires
        has_member(detail, "people"@, JsonView::List(items)),
    ensures
        people_labels(detail, people).len() == distinct(configured_names(items, people)).len(),
        0 <= k < people_labels(detail, people).len() ==> people_labels(detail, people)[k]
            == person_label(
            distinct(configured_names(items, people))[k],
            texts(people[distinct(configured_names(items, people))[k]]@),
        ),
        name_in(person) is Some && people.contains_key(name_in(person)->0) ==> configured_names(
            items.push(person),
            people,
        ) == configured_names(items, people).push(name_in(person)->0),
        name_in(person) is None || !people.contains_key(name_in(person)->0) ==> configured_names(
            items.push(person),
            people,
        ) == configured_names(items, people),
{
    law_members_by_name(detail, "people"@, JsonView::List(items));
    assert(items.push(person).drop_last() =~= items);
}

/// A search asks for no more than a thousand assets at once, and for three keywords at most.
#[verifier::spinoff_prover]
#[verifier::rlimit(60)]
pub proof fn law_bounds_of_a_search(args: SearchArgs)
    ensures
        size_of_page(PAGE_SIZE, args.cap()) <= 1000,
        args.cap() >= 1000 ==> size_of_page(PAGE_SIZE, args.cap()) == 1000,
        crate::description_search::MAX_KEYWORDS == 3,
{
}

/// Without a language model a result is truncated where that of a place is, or where more
/// were found than the limit allows.
#[verifier::spinoff_prover]
#[verifier::rlimit(60)]
pub proof fn law_smart_only_truncation<S: SearchBackend>(
    search: &S,
    args: SearchArgs,
    places: Seq<PlaceView>,
    f: FetchResult,
) -> (results: Seq<FetchResult>)
    requires
        smart_only(search, args, places, Ok(f)),
    ensures
        places_fetched(search, args, places, results),
        results.len() == places.len(),
        f.truncated <==> distinct_assets(all_assets(results)).len() > args.cap() || exists|k: int|
            0 <= k < results.len() && (#[trigger] results[k]).truncated,
{
    let cap = args.cap() as nat;
    choose|results: Seq<FetchResult>| #[trigger]
        places_fetched(search, args, places, results) && results.len() == places.len()
            && f.truncated == (any_truncated(results) || distinct_assets(
            all_assets(results),
        ).len() > cap)
}

// ---- the functions themselves -----------------------------------------------

/// A search comes to what is said of it, and so do fetching a place, resolving one and
/// choosing among the candidates.
#[verifier::spinoff_prover]
#[verifier::rlimit(60)]
pub proof fn law_searching_comes_to<
    'a,
    S: SearchBackend,
    P: PlacesBackend,
    I: InfoBackend,
    T: CaptionBackend,
    L: ChatBackend + MultiImageVisionLlm,
>(
    cfg: &Config,
    backends: &Backends<'a, S, P, I, T, L>,
    lookup: &Admin2Lookup,
    args: &SearchArgs,
    place: &PlaceMatch,
    r: Result<FetchResult, Error>,
    f: Result<FetchResult, Error>,
)
    requires
        call_ensures(perform_search::<S, P, I, T, L>, (cfg, backends, lookup, args), r),
        call_ensures(fetch_assets::<S>, (backends.search, args, place), f),
    ensures
        searched(backends, cfg.people@, lookup@, *args, r),
        fetched(backends.search, *args, 1000, place@, f),
{
}

// ---- failures ---------------------------------------------------------------

/// A failure to fetch an image names the first asset whose image is missing, and gives the
/// cause; one to fetch the detail of an asset names that asset.
#[verifier::spinoff_prover]
#[verifier::rlimit(60)]
pub proof fn law_failures_name_the_asset<I: InfoBackend>(
    ids: Seq<Seq<char>>,
    replies: Seq<Result<Vec<u8>, Error>>,
    e: Error,
    backend: &I,
    people: Map<Seq<char>, Vec<String>>,
    id: Seq<char>,
    n: Error,
) -> (k: int)
    requires
        replies.len() == ids.len(),
        images_from(ids, replies, Err(e)),
        people_named(backend, people, id, Err(n)),
    ensures
        0 <= k < ids.len(),
        replies[k] is Err,
        forall|j: int| 0 <= j < k ==> (#[trigger] replies[j]) is Ok,
        e matches Error::During { what, cause } && what@ == "failed to fetch thumbnail for "@
            + ids[k] && cause@ == replies[k]->Err_0.full_text(),
        n matches Error::During { what, cause } && what@
            == "failed to fetch full asset detail for "@ + id,
        !people.is_empty(),
{
    let used = first(replies, ids.len());
    assert(used =~= replies);
    choose|k: int| #[trigger]
        first_failure(used, k) && (e matches Error::During { what, cause } && what@
            == "failed to fetch thumbnail for "@ + ids[k] && cause@ == used[k]->Err_0.full_text())
}

// ---- what a search may ask for ----------------------------------------------

/// Nobody is asked where there is nothing to ask: no model to rank without candidates, or
/// without an image for each; none to map a place without a vocabulary, or a blank place; no
/// server for descriptions without keywords, or for a refused date.
#[verifier::spinoff_prover]
#[verifier::rlimit(60)]
pub proof fn law_nothing_to_ask<S: SearchBackend, P: PlacesBackend, L: ChatBackend + MultiImageVisionLlm>(
    search: &S,
    places_be: &P,
    llm: &L,
    args: SearchArgs,
    place: PlaceView,
    query: Seq<char>,
    limit: nat,
    candidates: Seq<RerankCandidate>,
    images: Seq<Vec<u8>>,
    lookup: Map<PlaceKey, Seq<char>>,
)
    ensures
        candidates.len() == 0 || candidates.len() != images.len() ==> ranking_allowed(
            llm,
            query,
            limit,
            candidates,
            images,
        ),
        resolving_allowed(llm, query, Seq::empty()),
        trim(query).len() == 0 ==> place_allowed(places_be, llm, query, lookup),
        args.place is None ==> places_allowed(places_be, Some(llm), lookup, args),
        descriptions_allowed(search, args, place, Seq::empty()),
        date_bound(args.taken_after, false) is None || date_bound(args.taken_before, true) is None
            ==> fetching_allowed(search, args, PAGE_SIZE, place),
{
    lemma_trim_empty(query);
}

/// A date that is not in the calendar stops the search, and the failure names the one that is
/// wrong, the earliest first.
#[verifier::spinoff_prover]
#[verifier::rlimit(60)]
pub proof fn law_wrong_date_is_named<B: SearchBackend>(
    backend: &B,
    args: SearchArgs,
    place: PlaceView,
    r: Result<FetchResult, Error>,
)
    requires
        fetched(backend, args, PAGE_SIZE, place, r),
    ensures
        date_bound(args.taken_after, false) is None ==> r is Err && (
        r->Err_0 matches Error::DateInvalid { date, cause } && date@ == trim(
            args.taken_after->0@,
        )),
        date_bound(args.taken_after, false) is Some && date_bound(args.taken_before, true) is None
            ==> r is Err && (r->Err_0 matches Error::DateInvalid { date, cause } && date@ == trim(
            args.taken_before->0@,
        )),
{
}

} // verus!
