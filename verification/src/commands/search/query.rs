//! Searching: by a query in words, or by filters alone.
use crate::client::{thumbnail_reply, CaptionBackend, InfoBackend, PlacesBackend, SearchBackend};
use crate::commands::search::args::{clean_text, cleaned, SearchArgs};
use crate::commands::search::candidates::{
    assets_named, build_rerank_candidates, building_allowed, candidates_built, choose_assets,
    with_all_hits, with_all_smart, CandidatePool, CandidateView, RichCandidates,
};
use crate::commands::search::fetch::{
    build_hard_filters, fetch_assets, fetched, fetching_allowed, filters_built,
    law_limit_is_respected, FetchResult, PAGE_SIZE,
};
use crate::config::{Config, People};
use crate::description_search::{
    collect_keyword_hits, copy_bytes, expand_keywords, hit_cap, hit_views, hits_collected,
    keyword_searches_allowed, ranking_allowed, rerank_rich_vision, reranked, HardFilters,
    KeywordHit, KEYWORD_SYSTEM_PROMPT, MAX_KEYWORDS,
};
use crate::error::Error;
use crate::fusion::{fused, rrf_merge, votes};
use crate::ids::IdSet;
use crate::keywords::{distinct, expanded, first};
use crate::llm::{dialogue, ChatBackend, MultiImageVisionLlm};
use crate::models::{Asset, RequestView};
use crate::places::{
    anywhere, place_allowed, place_resolved, place_views, resolve_place, Admin2Lookup, PlaceKey,
    PlaceMatch, PlaceView,
};
use crate::text::texts;
use vstd::prelude::*;
use vstd::string::*;

verus! {

/// How many assets one keyword adds at most.
pub const MAX_PER_KEYWORD_HITS: u32 = 20;

/// All that a search talks to. Without a language model only searches by
/// filters and by image similarity are possible.
pub struct Backends<'a, S, P, I, T, L> {
    pub search: &'a S,
    pub places: &'a P,
    pub info: &'a I,
    pub thumbs: &'a T,
    pub llm: Option<&'a L>,
}

// ---- thumbnails -------------------------------------------------------------

/// The backend answered `replies` when asked for the thumbnails, one for each id.
pub open spec fn thumbnails_reply<T: CaptionBackend>(
    backend: &T,
    ids: Seq<Seq<char>>,
    replies: Seq<Result<Vec<u8>, Error>>,
) -> bool {
    &&& replies.len() == ids.len()
    &&& forall|i: int|
        0 <= i < ids.len() ==> thumbnail_reply(backend, ids[i], #[trigger] replies[i])
}

/// `k` is the first answer that is a failure.
pub open spec fn first_failure(replies: Seq<Result<Vec<u8>, Error>>, k: int) -> bool {
    &&& 0 <= k < replies.len()
    &&& replies[k] is Err
    &&& forall|j: int| 0 <= j < k ==> (#[trigger] replies[j]) is Ok
}

/// What the answers come to: the first failure, or all images.
pub open spec fn images_from(
    ids: Seq<Seq<char>>,
    replies: Seq<Result<Vec<u8>, Error>>,
    r: Result<Vec<Vec<u8>>, Error>,
) -> bool {
    let used = first(replies, ids.len());
    match r {
        Ok(images) => {
            &&& images@.len() == used.len()
            &&& forall|i: int|
                0 <= i < used.len() ==> (#[trigger] used[i]) is Ok && images@[i]@
                    == used[i]->Ok_0@
        },
        Err(e) => exists|k: int| #[trigger]
            first_failure(used, k) && (e matches Error::During { what, cause } && what@
                == "failed to fetch thumbnail for "@ + ids[k] && cause@
                == used[k]->Err_0.full_text()),
    }
}

/// What fetching the thumbnails comes to.
pub open spec fn thumbnails_fetched<T: CaptionBackend>(
    backend: &T,
    ids: Seq<Seq<char>>,
    r: Result<Vec<Vec<u8>>, Error>,
) -> bool {
    exists|replies: Seq<Result<Vec<u8>, Error>>| #[trigger]
        thumbnails_reply(backend, ids, replies) && images_from(ids, replies, r)
}

/// Puts the answers together. One failure fails them all: an image cannot be
/// made up for.
pub fn collect_images(ids: &Vec<String>, replies: &Vec<Result<Vec<u8>, Error>>) -> (r: Result<
    Vec<Vec<u8>>,
    Error,
>)
    ensures
        images_from(texts(ids@), replies@, r),
{
    let ghost used = first(replies@, ids@.len());
    let mut out: Vec<Vec<u8>> = Vec::new();
    let mut i: usize = 0;
    while i < replies.len() && i < ids.len()
        invariant
            used == first(replies@, ids@.len()),
            i <= replies.len(),
            i <= ids.len(),
            out.len() == i,
            forall|j: int|
                0 <= j < i ==> (#[trigger] used[j]) is Ok && out@[j]@ == used[j]->Ok_0@,
        decreases replies.len() - i,
    {
        assert(used[i as int] == replies@[i as int]);
        match &replies[i] {
            Ok(bytes) => out.push(copy_bytes(bytes)),
            Err(e) => {
                let mut what = "failed to fetch thumbnail for ".to_owned();
                what.append(ids[i].as_str());
                let cause = e.full_message();
                assert(first_failure(used, i as int));
                assert(texts(ids@)[i as int] == ids@[i as int]@);
                return Err(Error::During { what, cause });
            },
        }
        i += 1;
    }
    Ok(out)
}

/// The thumbnails may be asked for.
pub open spec fn thumbnails_allowed<T: CaptionBackend>(backend: &T, ids: Seq<Seq<char>>) -> bool {
    forall|i: int| 0 <= i < ids.len() ==> backend.may_fetch(#[trigger] ids[i])
}

/// Fetches the thumbnails of the assets.
pub fn fetch_thumbnails<T: CaptionBackend>(thumbs_be: &T, ids: &Vec<String>) -> (r: Result<
    Vec<Vec<u8>>,
    Error,
>)
    requires
        thumbnails_allowed(thumbs_be, texts(ids@)),
    ensures
        thumbnails_fetched(thumbs_be, texts(ids@), r),
{
    let mut replies: Vec<Result<Vec<u8>, Error>> = Vec::new();
    let mut i: usize = 0;
    while i < ids.len()
        invariant
            i <= ids.len(),
            thumbnails_allowed(thumbs_be, texts(ids@)),
            replies.len() == i,
            forall|j: int|
                0 <= j < i ==> thumbnail_reply(thumbs_be, ids@[j]@, #[trigger] replies@[j]),
        decreases ids.len() - i,
    {
        assert(texts(ids@)[i as int] == ids@[i as int]@);
        let reply = thumbs_be.thumbnail(ids[i].as_str());
        assert(thumbnail_reply(thumbs_be, ids@[i as int]@, reply));
        replies.push(reply);
        i += 1;
    }
    assert(thumbnails_reply(thumbs_be, texts(ids@), replies@));
    collect_images(ids, &replies)
}

// ---- gathering candidates ---------------------------------------------------

/// What the smart search of a place comes to; there is none where only the
/// descriptions are searched.
pub open spec fn smart_searched<S: SearchBackend>(
    search: &S,
    args: SearchArgs,
    place: PlaceView,
    r: Result<FetchResult, Error>,
) -> bool {
    if args.description_only {
        r is Ok && r->Ok_0.assets@ == Seq::<Asset>::empty() && !r->Ok_0.truncated
    } else {
        fetched(search, args, PAGE_SIZE, place, r)
    }
}

pub open spec fn keyword_cap(args: SearchArgs) -> u32 {
    hit_cap(
        if args.cap() < MAX_PER_KEYWORD_HITS {
            args.cap()
        } else {
            MAX_PER_KEYWORD_HITS
        },
    )
}

/// What searching the descriptions of a place comes to; without keywords
/// nothing is searched.
pub open spec fn descriptions_searched<S: SearchBackend>(
    search: &S,
    args: SearchArgs,
    place: PlaceView,
    keywords: Seq<Seq<char>>,
    r: Result<Vec<KeywordHit>, Error>,
) -> bool {
    if keywords.len() == 0 {
        r is Ok && r->Ok_0@.len() == 0
    } else {
        exists|filters: Result<HardFilters, Error>| #[trigger]
            filters_built(args, place, filters) && match filters {
                Err(e) => r == Err::<Vec<KeywordHit>, Error>(e),
                Ok(f) => hits_collected(search, keywords, f, keyword_cap(args), r),
            }
    }
}

/// What a place adds to the pool: the assets of the smart search, then those
/// that the keywords found. The flag tells whether the smart search had more.
pub open spec fn place_gathered<S: SearchBackend>(
    search: &S,
    args: SearchArgs,
    place: PlaceView,
    keywords: Seq<Seq<char>>,
    before: Seq<CandidateView>,
    r: Result<bool, Error>,
    after: Seq<CandidateView>,
) -> bool {
    exists|smart: Result<FetchResult, Error>| #[trigger]
        smart_searched(search, args, place, smart) && match smart {
            Err(e) => r == Err::<bool, Error>(e),
            Ok(f) => exists|hits: Result<Vec<KeywordHit>, Error>| #[trigger]
                descriptions_searched(search, args, place, keywords, hits) && match hits {
                    Err(e) => r == Err::<bool, Error>(e),
                    Ok(hits) => {
                        &&& r == Ok::<bool, Error>(f.truncated)
                        &&& after == with_all_hits(
                            with_all_smart(before, f.assets@),
                            hit_views(hits@),
                        )
                    },
                },
        }
}

/// The searches of the descriptions of a place may be asked for: none without
/// keywords, and none where a date is refused.
pub open spec fn descriptions_allowed<S: SearchBackend>(
    search: &S,
    args: SearchArgs,
    place: PlaceView,
    keywords: Seq<Seq<char>>,
) -> bool {
    keywords.len() > 0 ==> forall|filters: HardFilters| #[trigger]
        filters_built(args, place, Ok(filters)) ==> keyword_searches_allowed(
            search,
            keywords,
            filters,
            keyword_cap(args),
        )
}

/// What gathering the candidates of a place needs may be asked for: the smart search
/// where one is wanted, and then the searches of the descriptions.
pub open spec fn gathering_allowed<S: SearchBackend>(
    search: &S,
    args: SearchArgs,
    place: PlaceView,
    keywords: Seq<Seq<char>>,
) -> bool {
    &&& !args.description_only ==> fetching_allowed(search, args, PAGE_SIZE, place)
    &&& forall|smart: FetchResult| #[trigger]
        smart_searched(search, args, place, Ok(smart)) ==> descriptions_allowed(
            search,
            args,
            place,
            keywords,
        )
}

fn search_descriptions<S: SearchBackend>(
    search: &S,
    args: &SearchArgs,
    place: &PlaceMatch,
    keywords: &Vec<String>,
) -> (r: Result<Vec<KeywordHit>, Error>)
    requires
        descriptions_allowed(search, *args, place@, texts(keywords@)),
    ensures
        descriptions_searched(search, *args, place@, texts(keywords@), r),
{
    if keywords.len() == 0 {
        return Ok(Vec::new());
    }
    let limit: u32 = args.effective_limit();
    let cap: u32 = if limit < MAX_PER_KEYWORD_HITS {
        limit
    } else {
        MAX_PER_KEYWORD_HITS
    };
    let filters = build_hard_filters(args, place);
    assert(filters_built(*args, place@, filters));
    match filters {
        Err(e) => Err(e),
        Ok(f) => collect_keyword_hits(search, keywords, &f, cap),
    }
}

/// Adds the candidates of one place to the pool.
pub fn gather_place<S: SearchBackend>(
    search: &S,
    args: &SearchArgs,
    place: &PlaceMatch,
    keywords: &Vec<String>,
    pool: &mut CandidatePool,
) -> (r: Result<bool, Error>)
    requires
        old(pool).wf(),
        gathering_allowed(search, *args, place@, texts(keywords@)),
    ensures
        final(pool).wf(),
        place_gathered(
            search,
            *args,
            place@,
            texts(keywords@),
            old(pool)@,
            r,
            final(pool)@,
        ),
{
    let smart = if args.description_only {
        Ok(FetchResult { assets: Vec::new(), truncated: false })
    } else {
        fetch_assets(search, args, place)
    };
    assert(smart_searched(search, *args, place@, smart));
    match smart {
        Err(e) => Err(e),
        Ok(f) => {
            let hits = search_descriptions(search, args, place, keywords);
            assert(descriptions_searched(search, *args, place@, texts(keywords@), hits));
            match hits {
                Err(e) => Err(e),
                Ok(hits) => {
                    pool.add_all_smart(&f.assets);
                    pool.add_all_hits(&hits);
                    Ok(f.truncated)
                },
            }
        },
    }
}

/// `pools` are the pools before and after each of the first places, and
/// `flags` tell where the smart search had more.
pub open spec fn pools_grow<S: SearchBackend>(
    search: &S,
    args: SearchArgs,
    places: Seq<PlaceView>,
    keywords: Seq<Seq<char>>,
    pools: Seq<Seq<CandidateView>>,
    flags: Seq<bool>,
) -> bool {
    &&& flags.len() <= places.len()
    &&& pools.len() == flags.len() + 1
    &&& pools[0] == Seq::<CandidateView>::empty()
    &&& forall|k: int|
        0 <= k < flags.len() ==> place_gathered(
            search,
            args,
            places[k],
            keywords,
            pools[k],
            Ok(#[trigger] flags[k]),
            pools[k + 1],
        )
}

pub open spec fn any_true(flags: Seq<bool>) -> bool {
    exists|k: int| 0 <= k < flags.len() && #[trigger] flags[k]
}

/// What gathering the candidates of all places comes to: the first failure, or
/// the pool, and whether a smart search had more.
pub open spec fn pool_gathered<S: SearchBackend>(
    search: &S,
    args: SearchArgs,
    places: Seq<PlaceView>,
    keywords: Seq<Seq<char>>,
    r: Result<(Seq<CandidateView>, bool), Error>,
) -> bool {
    exists|pools: Seq<Seq<CandidateView>>, flags: Seq<bool>| #[trigger]
        pools_grow(search, args, places, keywords, pools, flags) && match r {
            Ok(p) => flags.len() == places.len() && p.0 == pools.last() && p.1 == any_true(flags),
            Err(e) => flags.len() < places.len() && exists|after: Seq<CandidateView>| #[trigger]
                place_gathered(
                    search,
                    args,
                    places[flags.len() as int],
                    keywords,
                    pools.last(),
                    Err(e),
                    after,
                ),
        }
}

/// What gathering the candidates of all places needs may be asked for, place by
/// place.
pub open spec fn all_gathering_allowed<S: SearchBackend>(
    search: &S,
    args: SearchArgs,
    places: Seq<PlaceView>,
    keywords: Seq<Seq<char>>,
) -> bool {
    forall|pools: Seq<Seq<CandidateView>>, flags: Seq<bool>| #[trigger]
        pools_grow(search, args, places, keywords, pools, flags) && flags.len() < places.len()
            ==> gathering_allowed(search, args, places[flags.len() as int], keywords)
}

pub open spec fn pool_view(r: Result<(CandidatePool, bool), Error>) -> Result<
    (Seq<CandidateView>, bool),
    Error,
> {
    match r {
        Ok(p) => Ok((p.0@, p.1)),
        Err(e) => Err(e),
    }
}

/// Gathers the candidates of all places.
pub fn gather_candidates<S: SearchBackend>(
    search: &S,
    args: &SearchArgs,
    places: &Vec<PlaceMatch>,
    keywords: &Vec<String>,
) -> (r: Result<(CandidatePool, bool), Error>)
    requires
        all_gathering_allowed(search, *args, place_views(places@), texts(keywords@)),
    ensures
        pool_gathered(search, *args, place_views(places@), texts(keywords@), pool_view(r)),
        r matches Ok(p) ==> p.0.wf(),
{
    let ghost views = place_views(places@);
    let ghost words = texts(keywords@);
    let mut pool = CandidatePool::new();
    let mut any = false;
    let ghost mut pools: Seq<Seq<CandidateView>> = seq![pool@];
    let ghost mut flags: Seq<bool> = Seq::empty();
    let mut k: usize = 0;
    while k < places.len()
        invariant
            k <= places.len(),
            views == place_views(places@),
            words == texts(keywords@),
            flags.len() == k,
            all_gathering_allowed(search, *args, views, words),
            pools_grow(search, *args, views, words, pools, flags),
            pool.wf(),
            pool@ == pools.last(),
            any == any_true(flags),
        decreases places.len() - k,
    {
        assert(views[k as int] == places@[k as int]@);
        let more = gather_place(search, args, &places[k], keywords, &mut pool);
        match more {
            Err(e) => {
                assert(place_gathered(
                    search,
                    *args,
                    views[flags.len() as int],
                    words,
                    pools.last(),
                    Err(e),
                    pool@,
                ));
                let r: Result<(CandidatePool, bool), Error> = Err(e);
                assert(pool_gathered(search, *args, views, words, pool_view(r)));
                return r;
            },
            Ok(flag) => {
                proof {
                    let before_pools = pools;
                    let before_flags = flags;
                    pools = pools.push(pool@);
                    flags = flags.push(flag);
                    assert forall|j: int| 0 <= j < flags.len() implies place_gathered(
                        search,
                        *args,
                        views[j],
                        words,
                        pools[j],
                        Ok(#[trigger] flags[j]),
                        pools[j + 1],
                    ) by {
                        if j < before_flags.len() {
                            assert(flags[j] == before_flags[j]);
                            assert(pools[j] == before_pools[j]);
                            assert(pools[j + 1] == before_pools[j + 1]);
                        }
                    }
                    if any_true(before_flags) {
                        let j = choose|j: int|
                            0 <= j < before_flags.len() && #[trigger] before_flags[j];
                        assert(flags[j]);
                    }
                    if flag {
                        assert(flags[k as int]);
                    }
                    if any_true(flags) && !flag {
                        let j = choose|j: int| 0 <= j < flags.len() && #[trigger] flags[j];
                        assert(before_flags[j]);
                    }
                }
                any = any || flag;
            },
        }
        k += 1;
    }
    Ok((pool, any))
}

// ---- without a language model -----------------------------------------------

/// The assets, each id once, as it is first seen.
pub open spec fn distinct_assets(list: Seq<Asset>) -> Seq<Asset>
    decreases list.len(),
{
    if list.len() == 0 {
        Seq::empty()
    } else {
        let before = distinct_assets(list.drop_last());
        if has_asset(before, list.last().id@) {
            before
        } else {
            before.push(list.last())
        }
    }
}

pub open spec fn has_asset(list: Seq<Asset>, id: Seq<char>) -> bool {
    exists|i: int| 0 <= i < list.len() && (#[trigger] list[i]).id@ == id
}

/// Assets in the order in which they come, each id once.
pub struct AssetList {
    pub items: Vec<Asset>,
    pub seen: IdSet,
}

impl AssetList {
    pub open spec fn wf(&self) -> bool {
        forall|id: Seq<char>| #[trigger] self.seen@.contains(id) == has_asset(self.items@, id)
    }

    pub fn new() -> (r: AssetList)
        ensures
            r.wf(),
            r.items@ == Seq::<Asset>::empty(),
    {
        AssetList { items: Vec::new(), seen: IdSet::new() }
    }

    /// Adds an asset, unless its id is there already.
    pub fn push(&mut self, asset: &Asset)
        requires
            old(self).wf(),
        ensures
            final(self).wf(),
            final(self).items@ == if has_asset(old(self).items@, asset.id@) {
                old(self).items@
            } else {
                old(self).items@.push(*asset)
            },
    {
        let ghost before = self.items@;
        let ghost was = self.seen@;
        assert(was.contains(asset.id@) == has_asset(before, asset.id@));
        if self.seen.insert(asset.id.as_str()) {
            self.items.push(asset.clone());
            assert forall|id: Seq<char>| #[trigger] self.seen@.contains(id) == has_asset(
                self.items@,
                id,
            ) by {
                assert(was.contains(id) == has_asset(before, id));
                if has_asset(before, id) {
                    let i = choose|i: int|
                        0 <= i < before.len() && (#[trigger] before[i]).id@ == id;
                    assert(self.items@[i].id@ == id);
                }
                if id == asset.id@ {
                    assert(self.items@[before.len() as int].id@ == id);
                }
                if has_asset(self.items@, id) && id != asset.id@ {
                    let i = choose|i: int|
                        0 <= i < self.items@.len() && (#[trigger] self.items@[i]).id@ == id;
                    assert(before[i].id@ == id);
                }
            }
        } else {
            assert(was.insert(asset.id@) =~= was);
        }
    }

    /// Adds assets, each unless its id is there already.
    pub(crate) fn push_all(&mut self, assets: &Vec<Asset>, Ghost(prior): Ghost<Seq<Asset>>)
        requires
            old(self).wf(),
            old(self).items@ == distinct_assets(prior),
        ensures
            final(self).wf(),
            final(self).items@ == distinct_assets(prior + assets@),
    {
        let mut i: usize = 0;
        assert(prior + assets@.take(0) =~= prior);
        while i < assets.len()
            invariant
                i <= assets.len(),
                self.wf(),
                self.items@ == distinct_assets(prior + assets@.take(i as int)),
            decreases assets.len() - i,
        {
            assert((prior + assets@.take(i + 1)).drop_last() =~= prior + assets@.take(i as int));
            self.push(&assets[i]);
            i += 1;
        }
        assert(assets@.take(i as int) =~= assets@);
    }
}

/// The assets of the results, one result after the other.
pub open spec fn all_assets(results: Seq<FetchResult>) -> Seq<Asset>
    decreases results.len(),
{
    if results.len() == 0 {
        Seq::empty()
    } else {
        all_assets(results.drop_last()) + results.last().assets@
    }
}

pub open spec fn any_truncated(results: Seq<FetchResult>) -> bool {
    exists|k: int| 0 <= k < results.len() && (#[trigger] results[k]).truncated
}

/// `results` are what fetching the first places came to.
pub open spec fn places_fetched<S: SearchBackend>(
    search: &S,
    args: SearchArgs,
    places: Seq<PlaceView>,
    results: Seq<FetchResult>,
) -> bool {
    &&& results.len() <= places.len()
    &&& forall|k: int|
        0 <= k < results.len() ==> fetched(
            search,
            args,
            PAGE_SIZE,
            places[k],
            Ok(#[trigger] results[k]),
        )
}

/// Fetching failed at the first place that `results` lack.
pub open spec fn fetch_failed<S: SearchBackend>(
    search: &S,
    args: SearchArgs,
    places: Seq<PlaceView>,
    results: Seq<FetchResult>,
    e: Error,
) -> bool {
    results.len() < places.len() && fetched(
        search,
        args,
        PAGE_SIZE,
        places[results.len() as int],
        Err(e),
    )
}

/// What a search by image similarity alone comes to: the first failure, or the
/// assets of all places, each once, up to the limit.
pub open spec fn smart_only<S: SearchBackend>(
    search: &S,
    args: SearchArgs,
    places: Seq<PlaceView>,
    r: Result<FetchResult, Error>,
) -> bool {
    exists|results: Seq<FetchResult>| #[trigger]
        places_fetched(search, args, places, results) && match r {
            Err(e) => fetch_failed(search, args, places, results, e),
            Ok(f) => {
                let found = distinct_assets(all_assets(results));
                let cap = args.cap() as nat;
                &&& results.len() == places.len()
                &&& f.assets@ == first(
                    found,
                    if cap == 0 {
                        1
                    } else {
                        cap
                    },
                )
                &&& f.truncated == (any_truncated(results) || found.len() > cap)
            },
        }
}

/// What fetching the places one after the other needs may be asked for.
pub open spec fn place_fetches_allowed<S: SearchBackend>(
    search: &S,
    args: SearchArgs,
    places: Seq<PlaceView>,
) -> bool {
    forall|results: Seq<FetchResult>| #[trigger]
        places_fetched(search, args, places, results) && results.len() < places.len()
            ==> fetching_allowed(search, args, PAGE_SIZE, places[results.len() as int])
}

/// Searches by image similarity alone.
pub fn collect_smart_only<S: SearchBackend>(
    search_be: &S,
    args: &SearchArgs,
    places: &Vec<PlaceMatch>,
) -> (r: Result<FetchResult, Error>)
    requires
        place_fetches_allowed(search_be, *args, place_views(places@)),
    ensures
        smart_only(search_be, *args, place_views(places@), r),
{
    let ghost views = place_views(places@);
    let limit: usize = args.effective_limit() as usize;
    let mut list = AssetList::new();
    let mut any = false;
    let ghost mut results: Seq<FetchResult> = Seq::empty();
    let mut k: usize = 0;
    while k < places.len()
        invariant
            limit == args.cap(),
            k <= places.len(),
            views == place_views(places@),
            results.len() == k,
            place_fetches_allowed(search_be, *args, views),
            places_fetched(search_be, *args, views, results),
            list.wf(),
            list.items@ == distinct_assets(all_assets(results)),
            any == any_truncated(results),
        decreases places.len() - k,
    {
        assert(views[k as int] == places@[k as int]@);
        let fetch = fetch_assets(search_be, args, &places[k]);
        match fetch {
            Err(e) => {
                assert(fetch_failed(search_be, *args, views, results, e));
                return Err(e);
            },
            Ok(f) => {
                let ghost before = results;
                proof {
                    results = results.push(f);
                    assert(results.drop_last() =~= before);
                    if any_truncated(before) {
                        let j = choose|j: int|
                            0 <= j < before.len() && (#[trigger] before[j]).truncated;
                        assert(results[j].truncated);
                    }
                    if f.truncated {
                        assert(results[k as int].truncated);
                    }
                    if any_truncated(results) && !f.truncated {
                        let j = choose|j: int|
                            0 <= j < results.len() && (#[trigger] results[j]).truncated;
                        assert(before[j].truncated);
                    }
                }
                list.push_all(&f.assets, Ghost(all_assets(before)));
                any = any || f.truncated;
            },
        }
        k += 1;
    }
    let total: usize = list.items.len();
    let mut assets = list.items;
    let keep: usize = if limit == 0 {
        1
    } else {
        limit
    };
    if total > keep {
        assets.truncate(keep);
    }
    Ok(FetchResult { assets, truncated: any || total > limit })
}

/// The distinct assets have distinct ids, and every id of the list is among
/// them.
pub proof fn law_distinct_assets(list: Seq<Asset>)
    ensures
        forall|i: int, j: int|
            0 <= i < j < distinct_assets(list).len() ==> (#[trigger] distinct_assets(list)[i]).id@
                != (#[trigger] distinct_assets(list)[j]).id@,
        forall|id: Seq<char>| #[trigger] has_asset(distinct_assets(list), id) == has_asset(list, id),
    decreases list.len(),
{
    if list.len() > 0 {
        let past = list.drop_last();
        let before = distinct_assets(past);
        let now = distinct_assets(list);
        law_distinct_assets(past);
        assert forall|i: int, j: int| 0 <= i < j < now.len() implies (#[trigger] now[i]).id@ != (
        #[trigger] now[j]).id@ by {
            if j < before.len() {
                assert(before[i].id@ != before[j].id@);
            } else {
                assert(before[i].id@ != list.last().id@);
            }
        }
        assert forall|id: Seq<char>| #[trigger] has_asset(now, id) == has_asset(list, id) by {
            assert(has_asset(before, id) == has_asset(past, id));
            if has_asset(now, id) {
                let k = choose|k: int| 0 <= k < now.len() && (#[trigger] now[k]).id@ == id;
                if k < before.len() {
                    assert(before[k].id@ == id);
                    let i = choose|i: int| 0 <= i < past.len() && (#[trigger] past[i]).id@ == id;
                    assert(list[i].id@ == id);
                } else {
                    assert(list[list.len() - 1].id@ == id);
                }
            }
            if has_asset(list, id) {
                let i = choose|i: int| 0 <= i < list.len() && (#[trigger] list[i]).id@ == id;
                if i < past.len() {
                    assert(past[i].id@ == id);
                    let k = choose|k: int|
                        0 <= k < before.len() && (#[trigger] before[k]).id@ == id;
                    assert(now[k].id@ == id);
                } else if !has_asset(before, list.last().id@) {
                    assert(now[before.len() as int].id@ == id);
                } else {
                    let k = choose|k: int|
                        0 <= k < before.len() && (#[trigger] before[k]).id@ == id;
                    assert(now[k].id@ == id);
                }
            }
        }
    }
}

// ---- a query in words -------------------------------------------------------

pub open spec fn ids_of(assets: Seq<Asset>) -> Seq<Seq<char>> {
    assets.map_values(|a: Asset| a.id@)
}

fn list_ids(assets: &Vec<Asset>) -> (r: Vec<String>)
    ensures
        texts(r@) == ids_of(assets@),
{
    let mut out: Vec<String> = Vec::new();
    let mut i: usize = 0;
    while i < assets.len()
        invariant
            i <= assets.len(),
            out.len() == i,
            forall|j: int| 0 <= j < i ==> (#[trigger] out@[j])@ == assets@[j].id@,
        decreases assets.len() - i,
    {
        out.push(assets[i].id.clone());
        i += 1;
    }
    assert(texts(out@) =~= ids_of(assets@));
    out
}

/// What is returned of the candidates that the model chose: each once, in its
/// order, and no more than the limit. The result counts as truncated where the
/// limit is reached and there was more to choose from.
pub open spec fn chosen(
    args: SearchArgs,
    rich: RichCandidates,
    more: bool,
    ids: Result<Vec<String>, Error>,
    r: Result<FetchResult, Error>,
) -> bool {
    match ids {
        Err(e) => r == Err::<FetchResult, Error>(e),
        Ok(ids) => {
            let cap = args.cap() as nat;
            &&& r is Ok
            &&& r->Ok_0.assets@ == first(
                assets_named(rich.prompts@, rich.assets@, distinct(texts(ids@))),
                cap,
            )
            &&& r->Ok_0.truncated == (r->Ok_0.assets@.len() >= cap && (more || rich.assets@.len()
                > cap))
        },
    }
}

/// What ranking the candidates comes to: their people are named, their
/// thumbnails fetched, and the model chooses.
pub open spec fn ranked<I: InfoBackend, T: CaptionBackend, L: MultiImageVisionLlm>(
    info: &I,
    thumbs: &T,
    llm: &L,
    people: Map<Seq<char>, Vec<String>>,
    lookup: Map<PlaceKey, Seq<char>>,
    args: SearchArgs,
    query: Seq<char>,
    pool: Seq<CandidateView>,
    more: bool,
    r: Result<FetchResult, Error>,
) -> bool {
    exists|built: Result<RichCandidates, Error>| #[trigger]
        candidates_built(info, people, lookup, pool, built) && match built {
            Err(e) => r == Err::<FetchResult, Error>(e),
            Ok(rich) => exists|images: Result<Vec<Vec<u8>>, Error>| #[trigger]
                thumbnails_fetched(thumbs, ids_of(rich.assets@), images) && match images {
                    Err(e) => r == Err::<FetchResult, Error>(e),
                    Ok(images) => exists|ids: Result<Vec<String>, Error>| #[trigger]
                        reranked(llm, query, args.cap() as nat, rich.prompts@, images@, ids)
                            && chosen(args, rich, more, ids, r),
                },
        }
}

/// What ranking the candidates needs may be asked for: their detail, then their
/// thumbnails, then the ranking itself.
pub open spec fn pool_ranking_allowed<I: InfoBackend, T: CaptionBackend, L: MultiImageVisionLlm>(
    info: &I,
    thumbs: &T,
    llm: &L,
    people: Map<Seq<char>, Vec<String>>,
    lookup: Map<PlaceKey, Seq<char>>,
    args: SearchArgs,
    query: Seq<char>,
    pool: Seq<CandidateView>,
) -> bool {
    &&& building_allowed(info, people, lookup, pool)
    &&& forall|rich: RichCandidates| #[trigger]
        candidates_built(info, people, lookup, pool, Ok(rich)) ==> {
            &&& thumbnails_allowed(thumbs, ids_of(rich.assets@))
            &&& forall|images: Vec<Vec<u8>>| #[trigger]
                thumbnails_fetched(thumbs, ids_of(rich.assets@), Ok(images)) ==> ranking_allowed(
                    llm,
                    query,
                    args.cap() as nat,
                    rich.prompts@,
                    images@,
                )
        }
}

fn rank_candidates<I: InfoBackend, T: CaptionBackend, L: MultiImageVisionLlm>(
    info: &I,
    thumbs: &T,
    llm: &L,
    people: &People,
    lookup: &Admin2Lookup,
    args: &SearchArgs,
    query: &str,
    pool: &CandidatePool,
    more: bool,
) -> (r: Result<FetchResult, Error>)
    requires
        pool_ranking_allowed(info, thumbs, llm, people@, lookup@, *args, query@, pool@),
    ensures
        ranked(info, thumbs, llm, people@, lookup@, *args, query@, pool@, more, r),
{
    let limit: usize = args.effective_limit() as usize;
    let built = build_rerank_candidates(info, people, lookup, pool);
    assert(candidates_built(info, people@, lookup@, pool@, built));
    match built {
        Err(e) => Err(e),
        Ok(rich) => {
            let images = fetch_thumbnails(thumbs, &list_ids(&rich.assets));
            assert(thumbnails_fetched(thumbs, ids_of(rich.assets@), images));
            match images {
                Err(e) => Err(e),
                Ok(images) => {
                    let ids = rerank_rich_vision(llm, query, limit, &rich.prompts, &images);
                    assert(reranked(
                        llm,
                        query@,
                        args.cap() as nat,
                        rich.prompts@,
                        images@,
                        ids,
                    ));
                    match ids {
                        Err(e) => Err(e),
                        Ok(ids) => Ok(conclude(args, &rich, more, &ids)),
                    }
                },
            }
        },
    }
}

/// Makes the result out of the ids that the model returned.
pub fn conclude(args: &SearchArgs, rich: &RichCandidates, more: bool, ids: &Vec<String>) -> (r:
    FetchResult)
    requires
        rich.prompts.len() == rich.assets.len(),
    ensures
        chosen(*args, *rich, more, Ok(*ids), Ok(r)),
{
    let limit: usize = args.effective_limit() as usize;
    let mut assets = choose_assets(rich, ids);
    if assets.len() > limit {
        assets.truncate(limit);
    }
    let truncated = assets.len() >= limit && (more || rich.assets.len() > limit);
    FetchResult { assets, truncated }
}

/// What searching by a query with a language model comes to.
pub open spec fn searched_with_llm<
    S: SearchBackend,
    I: InfoBackend,
    T: CaptionBackend,
    L: ChatBackend + MultiImageVisionLlm,
>(
    search: &S,
    info: &I,
    thumbs: &T,
    llm: &L,
    people: Map<Seq<char>, Vec<String>>,
    lookup: Map<PlaceKey, Seq<char>>,
    args: SearchArgs,
    places: Seq<PlaceView>,
    query: Seq<char>,
    r: Result<FetchResult, Error>,
) -> bool {
    exists|words: Result<Vec<String>, Error>| #[trigger]
        expanded(llm, KEYWORD_SYSTEM_PROMPT@, query, MAX_KEYWORDS as nat, words) && match words {
            Err(e) => r == Err::<FetchResult, Error>(e),
            Ok(words) => exists|pool: Result<(Seq<CandidateView>, bool), Error>| #[trigger]
                pool_gathered(search, args, places, texts(words@), pool) && match pool {
                    Err(e) => r == Err::<FetchResult, Error>(e),
                    Ok(p) => if p.0.len() == 0 {
                        r is Ok && r->Ok_0.assets@.len() == 0 && !r->Ok_0.truncated
                    } else {
                        ranked(info, thumbs, llm, people, lookup, args, query, p.0, p.1, r)
                    },
                },
        }
}

/// What searching by a query comes to. Without a language model only the
/// images can be searched.
pub open spec fn query_searched<
    S: SearchBackend,
    P,
    I: InfoBackend,
    T: CaptionBackend,
    L: ChatBackend + MultiImageVisionLlm,
>(
    backends: &Backends<'_, S, P, I, T, L>,
    people: Map<Seq<char>, Vec<String>>,
    lookup: Map<PlaceKey, Seq<char>>,
    args: SearchArgs,
    places: Seq<PlaceView>,
    query: Seq<char>,
    r: Result<FetchResult, Error>,
) -> bool {
    match backends.llm {
        None => if args.description_only {
            r == Err::<FetchResult, Error>(Error::DescriptionNeedsLlm)
        } else {
            smart_only(backends.search, args, places, r)
        },
        Some(llm) => searched_with_llm(
            backends.search,
            backends.info,
            backends.thumbs,
            llm,
            people,
            lookup,
            args,
            places,
            query,
            r,
        ),
    }
}

/// What searching by a query with a language model needs may be asked for: keywords,
/// then the searches, then a ranking where they found something.
pub open spec fn llm_search_allowed<
    S: SearchBackend,
    I: InfoBackend,
    T: CaptionBackend,
    L: ChatBackend + MultiImageVisionLlm,
>(
    search: &S,
    info: &I,
    thumbs: &T,
    llm: &L,
    people: Map<Seq<char>, Vec<String>>,
    lookup: Map<PlaceKey, Seq<char>>,
    args: SearchArgs,
    places: Seq<PlaceView>,
    query: Seq<char>,
) -> bool {
    &&& llm.may_chat(dialogue(KEYWORD_SYSTEM_PROMPT@, query))
    &&& forall|words: Vec<String>| #[trigger]
        expanded(llm, KEYWORD_SYSTEM_PROMPT@, query, MAX_KEYWORDS as nat, Ok(words)) ==> {
            &&& all_gathering_allowed(search, args, places, texts(words@))
            &&& forall|pool: (Seq<CandidateView>, bool)| #[trigger]
                pool_gathered(search, args, places, texts(words@), Ok(pool)) && pool.0.len() > 0
                    ==> pool_ranking_allowed(
                    info,
                    thumbs,
                    llm,
                    people,
                    lookup,
                    args,
                    query,
                    pool.0,
                )
        }
}

/// What searching by a query needs may be asked for.
pub open spec fn query_search_allowed<
    S: SearchBackend,
    P,
    I: InfoBackend,
    T: CaptionBackend,
    L: ChatBackend + MultiImageVisionLlm,
>(
    backends: &Backends<'_, S, P, I, T, L>,
    people: Map<Seq<char>, Vec<String>>,
    lookup: Map<PlaceKey, Seq<char>>,
    args: SearchArgs,
    places: Seq<PlaceView>,
    query: Seq<char>,
) -> bool {
    match backends.llm {
        None => !args.description_only ==> place_fetches_allowed(backends.search, args, places),
        Some(llm) => llm_search_allowed(
            backends.search,
            backends.info,
            backends.thumbs,
            llm,
            people,
            lookup,
            args,
            places,
            query,
        ),
    }
}

/// Searches by a query in words: gathers candidates in all places and lets the
/// model choose among them.
pub fn perform_query_search<
    S: SearchBackend,
    P,
    I: InfoBackend,
    T: CaptionBackend,
    L: ChatBackend + MultiImageVisionLlm,
>(
    cfg: &Config,
    backends: &Backends<'_, S, P, I, T, L>,
    admin2_lookup: &Admin2Lookup,
    args: &SearchArgs,
    places: &Vec<PlaceMatch>,
    query: &str,
) -> (r: Result<FetchResult, Error>)
    requires
        query_search_allowed(
            backends,
            cfg.people@,
            admin2_lookup@,
            *args,
            place_views(places@),
            query@,
        ),
    ensures
        query_searched(
            backends,
            cfg.people@,
            admin2_lookup@,
            *args,
            place_views(places@),
            query@,
            r,
        ),
{
    let llm = match backends.llm {
        Some(llm) => llm,
        None => {
            if args.description_only {
                return Err(Error::DescriptionNeedsLlm);
            }
            return collect_smart_only(backends.search, args, places);
        },
    };
    let words = expand_keywords(llm, query);
    assert(expanded(llm, KEYWORD_SYSTEM_PROMPT@, query@, MAX_KEYWORDS as nat, words));
    match words {
        Err(e) => Err(e),
        Ok(words) => {
            let gathered = gather_candidates(backends.search, args, places, &words);
            assert(pool_gathered(
                backends.search,
                *args,
                place_views(places@),
                texts(words@),
                pool_view(gathered),
            ));
            match gathered {
                Err(e) => Err(e),
                Ok((pool, more)) => {
                    if pool.items.len() == 0 {
                        return Ok(FetchResult { assets: Vec::new(), truncated: false });
                    }
                    rank_candidates(
                        backends.info,
                        backends.thumbs,
                        llm,
                        &cfg.people,
                        admin2_lookup,
                        args,
                        query,
                        &pool,
                        more,
                    )
                },
            }
        },
    }
}

/// The model cannot make a result longer than the limit.
pub proof fn law_choice_is_within_the_limit(
    args: SearchArgs,
    rich: RichCandidates,
    more: bool,
    ids: Vec<String>,
    r: FetchResult,
)
    requires
        chosen(args, rich, more, Ok(ids), Ok(r)),
    ensures
        r.assets@.len() <= args.cap(),
{
}

// ---- any search -------------------------------------------------------------

/// What resolving the place comes to: one place that filters nothing where no
/// place is given, and at least one place otherwise.
pub open spec fn places_resolved<P: PlacesBackend, L: ChatBackend>(
    places_be: &P,
    llm: Option<&L>,
    lookup: Map<PlaceKey, Seq<char>>,
    args: SearchArgs,
    r: Result<Vec<PlaceMatch>, Error>,
) -> bool {
    match clean_text(args.place) {
        None => r is Ok && place_views(r->Ok_0@) == seq![anywhere()],
        Some(input) => match llm {
            None => r == Err::<Vec<PlaceMatch>, Error>(Error::PlaceNeedsLlm),
            Some(llm) => exists|found: Result<Vec<PlaceMatch>, Error>| #[trigger]
                place_resolved(places_be, llm, input, lookup, found) && match found {
                    Err(e) => r == Err::<Vec<PlaceMatch>, Error>(e),
                    Ok(list) => if list@.len() == 0 {
                        r is Err && (r->Err_0 matches Error::PlaceUnknown { input: t } && t@
                            == input)
                    } else {
                        r == Ok::<Vec<PlaceMatch>, Error>(list)
                    },
                },
        },
    }
}

/// What resolving the place needs may be asked for: nothing where no place is given,
/// or no language model is there.
pub open spec fn places_allowed<P: PlacesBackend, L: ChatBackend>(
    places_be: &P,
    llm: Option<&L>,
    lookup: Map<PlaceKey, Seq<char>>,
    args: SearchArgs,
) -> bool {
    match (clean_text(args.place), llm) {
        (Some(input), Some(llm)) => place_allowed(places_be, llm, input, lookup),
        _ => true,
    }
}

pub fn resolve_places<P: PlacesBackend, L: ChatBackend>(
    places_be: &P,
    llm: Option<&L>,
    admin2_lookup: &Admin2Lookup,
    args: &SearchArgs,
) -> (r: Result<Vec<PlaceMatch>, Error>)
    requires
        places_allowed(places_be, llm, admin2_lookup@, *args),
    ensures
        places_resolved(places_be, llm, admin2_lookup@, *args, r),
{
    match cleaned(&args.place) {
        None => {
            let mut out: Vec<PlaceMatch> = Vec::new();
            out.push(PlaceMatch::default());
            assert(place_views(out@) =~= seq![anywhere()]);
            Ok(out)
        },
        Some(input) => match llm {
            None => Err(Error::PlaceNeedsLlm),
            Some(llm) => {
                let found = resolve_place(places_be, llm, input.as_str(), admin2_lookup);
                let ghost wanted = clean_text(args.place)->0;
                assert(wanted == input@);
                assert(place_resolved(places_be, llm, wanted, admin2_lookup@, found));
                let r = match found {
                    Err(e) => Err(e),
                    Ok(list) => if list.len() == 0 {
                        Err(Error::PlaceUnknown { input })
                    } else {
                        Ok(list)
                    },
                };
                assert(places_resolved(places_be, Some(llm), admin2_lookup@, *args, r));
                r
            },
        },
    }
}

pub open spec fn asset_lists(results: Seq<FetchResult>) -> Seq<Vec<Asset>> {
    results.map_values(|f: FetchResult| f.assets)
}

/// What merging the results of several places comes to: their fusion, up to
/// the limit.
pub open spec fn merged(args: SearchArgs, results: Seq<FetchResult>, r: FetchResult) -> bool {
    let cap = args.cap() as nat;
    exists|all: Seq<Asset>| #[trigger]
        fused(votes(asset_lists(results)), all) && r.assets@ == first(all, cap) && r.truncated == (
        any_truncated(results) || all.len() > cap)
}

/// What a search by filters alone comes to.
pub open spec fn filters_searched<S: SearchBackend>(
    search: &S,
    args: SearchArgs,
    places: Seq<PlaceView>,
    r: Result<FetchResult, Error>,
) -> bool {
    if places.len() == 1 {
        fetched(search, args, PAGE_SIZE, places[0], r)
    } else {
        exists|results: Seq<FetchResult>| #[trigger]
            places_fetched(search, args, places, results) && match r {
                Err(e) => fetch_failed(search, args, places, results, e),
                Ok(f) => results.len() == places.len() && merged(args, results, f),
            }
    }
}

/// Searches by filters alone, place by place.
pub fn search_by_filters<S: SearchBackend>(
    search: &S,
    args: &SearchArgs,
    places: &Vec<PlaceMatch>,
) -> (r: Result<FetchResult, Error>)
    requires
        place_fetches_allowed(search, *args, place_views(places@)),
    ensures
        filters_searched(search, *args, place_views(places@), r),
{
    let ghost views = place_views(places@);
    if places.len() == 1 {
        assert(views[0] == places@[0]@);
        assert(places_fetched(search, *args, views, Seq::empty()));
        return fetch_assets(search, args, &places[0]);
    }
    let mut lists: Vec<Vec<Asset>> = Vec::new();
    let mut any = false;
    let ghost mut results: Seq<FetchResult> = Seq::empty();
    let mut k: usize = 0;
    assert(lists@ =~= asset_lists(results));
    while k < places.len()
        invariant
            places.len() != 1,
            k <= places.len(),
            views == place_views(places@),
            results.len() == k,
            place_fetches_allowed(search, *args, views),
            places_fetched(search, *args, views, results),
            lists@ == asset_lists(results),
            any == any_truncated(results),
        decreases places.len() - k,
    {
        assert(views[k as int] == places@[k as int]@);
        let fetch = fetch_assets(search, args, &places[k]);
        match fetch {
            Err(e) => {
                assert(fetch_failed(search, *args, views, results, e));
                return Err(e);
            },
            Ok(f) => {
                let ghost before = results;
                let ghost lists_before = lists@;
                proof {
                    results = results.push(f);
                    if any_truncated(before) {
                        let j = choose|j: int|
                            0 <= j < before.len() && (#[trigger] before[j]).truncated;
                        assert(results[j].truncated);
                    }
                    if f.truncated {
                        assert(results[k as int].truncated);
                    }
                    if any_truncated(results) && !f.truncated {
                        let j = choose|j: int|
                            0 <= j < results.len() && (#[trigger] results[j]).truncated;
                        assert(before[j].truncated);
                    }
                    assert(asset_lists(results) =~= lists_before.push(f.assets));
                    assert(lists_before.push(f.assets).drop_last() =~= lists_before);
                    assert(places_fetched(search, *args, views, results));
                }
                any = any || f.truncated;
                lists.push(f.assets);
            },
        }
        k += 1;
    }
    let limit: usize = args.effective_limit() as usize;
    let mut assets = rrf_merge(&lists);
    let ghost all = assets@;
    assert(fused(votes(asset_lists(results)), all));
    let truncated = any || assets.len() > limit;
    if assets.len() > limit {
        assets.truncate(limit);
    }
    let r = FetchResult { assets, truncated };
    assert(merged(*args, results, r));
    Ok(r)
}

/// What a search comes to.
pub open spec fn searched<
    S: SearchBackend,
    P: PlacesBackend,
    I: InfoBackend,
    T: CaptionBackend,
    L: ChatBackend + MultiImageVisionLlm,
>(
    backends: &Backends<'_, S, P, I, T, L>,
    people: Map<Seq<char>, Vec<String>>,
    lookup: Map<PlaceKey, Seq<char>>,
    args: SearchArgs,
    r: Result<FetchResult, Error>,
) -> bool {
    exists|places: Result<Vec<PlaceMatch>, Error>| #[trigger]
        places_resolved(backends.places, backends.llm, lookup, args, places) && match places {
            Err(e) => r == Err::<FetchResult, Error>(e),
            Ok(places) => match clean_text(args.query) {
                Some(query) => query_searched(
                    backends,
                    people,
                    lookup,
                    args,
                    place_views(places@),
                    query,
                    r,
                ),
                None => filters_searched(backends.search, args, place_views(places@), r),
            },
        }
}

/// What a search needs may be asked for. Without a query that is what the place and
/// the filters need, and the model is asked for no keywords and no ranking.
pub open spec fn search_allowed<
    S: SearchBackend,
    P: PlacesBackend,
    I: InfoBackend,
    T: CaptionBackend,
    L: ChatBackend + MultiImageVisionLlm,
>(
    backends: &Backends<'_, S, P, I, T, L>,
    people: Map<Seq<char>, Vec<String>>,
    lookup: Map<PlaceKey, Seq<char>>,
    args: SearchArgs,
) -> bool {
    &&& places_allowed(backends.places, backends.llm, lookup, args)
    &&& forall|places: Vec<PlaceMatch>| #[trigger]
        places_resolved(backends.places, backends.llm, lookup, args, Ok(places)) ==> match clean_text(
            args.query,
        ) {
            Some(query) => query_search_allowed(
                backends,
                people,
                lookup,
                args,
                place_views(places@),
                query,
            ),
            None => place_fetches_allowed(backends.search, args, place_views(places@)),
        }
}

/// Resolves the place, and searches by the query or by the filters.
pub fn perform_search<
    S: SearchBackend,
    P: PlacesBackend,
    I: InfoBackend,
    T: CaptionBackend,
    L: ChatBackend + MultiImageVisionLlm,
>(
    cfg: &Config,
    backends: &Backends<'_, S, P, I, T, L>,
    admin2_lookup: &Admin2Lookup,
    args: &SearchArgs,
) -> (r: Result<FetchResult, Error>)
    requires
        search_allowed(backends, cfg.people@, admin2_lookup@, *args),
    ensures
        searched(backends, cfg.people@, admin2_lookup@, *args, r),
{
    let places = resolve_places(backends.places, backends.llm, admin2_lookup, args);
    assert(places_resolved(backends.places, backends.llm, admin2_lookup@, *args, places));
    match places {
        Err(e) => Err(e),
        Ok(places) => match cleaned(&args.query) {
            Some(query) => perform_query_search(
                cfg,
                backends,
                admin2_lookup,
                args,
                &places,
                query.as_str(),
            ),
            None => search_by_filters(backends.search, args, &places),
        },
    }
}

/// A search whose arguments are accepted returns no more results than the limit,
/// whichever way it goes.
pub proof fn law_results_are_within_the_limit<
    S: SearchBackend,
    P: PlacesBackend,
    I: InfoBackend,
    T: CaptionBackend,
    L: ChatBackend + MultiImageVisionLlm,
>(
    backends: &Backends<'_, S, P, I, T, L>,
    people: Map<Seq<char>, Vec<String>>,
    lookup: Map<PlaceKey, Seq<char>>,
    args: SearchArgs,
    r: FetchResult,
)
    requires
        args.refusal() is None,
        searched(backends, people, lookup, args, Ok(r)),
    ensures
        r.assets@.len() <= args.cap(),
{
    let places = choose|places: Result<Vec<PlaceMatch>, Error>| #[trigger]
        places_resolved(backends.places, backends.llm, lookup, args, places) && match places {
            Err(_) => false,
            Ok(places) => match clean_text(args.query) {
                Some(query) => query_searched(
                    backends,
                    people,
                    lookup,
                    args,
                    place_views(places@),
                    query,
                    Ok(r),
                ),
                None => filters_searched(backends.search, args, place_views(places@), Ok(r)),
            },
        };
    let views = place_views(places->Ok_0@);
    match clean_text(args.query) {
        Some(query) => match backends.llm {
            None => {},
            Some(llm) => {
                assert(searched_with_llm(
                    backends.search,
                    backends.info,
                    backends.thumbs,
                    llm,
                    people,
                    lookup,
                    args,
                    views,
                    query,
                    Ok(r),
                ));
            },
        },
        None => {
            if views.len() == 1 {
                law_limit_is_respected(backends.search, args, PAGE_SIZE, views[0], r);
            }
        },
    }
}

/// Without a query a search asks the model to map the place at most: leave to search
/// and to map the place is enough, whatever else the model refuses.
pub proof fn law_filters_need_no_keywords<
    S: SearchBackend,
    P: PlacesBackend,
    I: InfoBackend,
    T: CaptionBackend,
    L: ChatBackend + MultiImageVisionLlm,
>(
    backends: &Backends<'_, S, P, I, T, L>,
    people: Map<Seq<char>, Vec<String>>,
    lookup: Map<PlaceKey, Seq<char>>,
    args: SearchArgs,
)
    requires
        clean_text(args.query) is None,
        places_allowed(backends.places, backends.llm, lookup, args),
        forall|request: RequestView| #[trigger] backends.search.may_search(request),
    ensures
        search_allowed(backends, people, lookup, args),
{
}

} // verus!
