//! Fetching the assets that match, page by page.
use crate::client::SearchBackend;
use crate::commands::search::args::{
    api_name, clean_text, cleaned, date_bound, read_bound, refuses_date, SearchArgs,
};
use crate::description_search::{search_reply, HardFilters};
use crate::error::Error;
use crate::keywords::first;
use crate::models::{Asset, RequestView, SearchRequest, SearchResponse};
use crate::places::{PlaceMatch, PlaceView};
use crate::text::opt_text;
use vstd::prelude::*;
use vstd::string::*;

verus! {

/// How many assets are asked for at once at most; the server allows no more.
pub const PAGE_SIZE: u32 = 1000;

/// The assets that were kept, and whether the server had more.
#[derive(Debug)]
pub struct FetchResult {
    pub assets: Vec<Asset>,
    pub truncated: bool,
}

// ---- requests ---------------------------------------------------------------

pub open spec fn type_filter(args: SearchArgs) -> Option<Seq<char>> {
    match args.asset_type {
        Some(t) => Some(api_name(t)),
        None => None,
    }
}

pub open spec fn visibility_filter(args: SearchArgs) -> Option<Seq<char>> {
    if args.include_archived {
        Some("archive"@)
    } else {
        None
    }
}

/// The request for one page of a search.
pub open spec fn page_request(
    args: SearchArgs,
    place: PlaceView,
    after: Option<Seq<char>>,
    before: Option<Seq<char>>,
    page: nat,
    size: u32,
) -> RequestView {
    RequestView {
        query: clean_text(args.query),
        original_file_name: None,
        city: place.city,
        state: place.state,
        country: place.country,
        ocr: clean_text(args.ocr),
        description: None,
        taken_after: after,
        taken_before: before,
        asset_type: type_filter(args),
        visibility: visibility_filter(args),
        page: Some(page as u32),
        size: Some(size),
        with_exif: Some(true),
    }
}

/// How many assets are asked for at once: no more than are wanted.
pub open spec fn size_of_page(max: u32, cap: u32) -> u32 {
    let size = if max < cap {
        max
    } else {
        cap
    };
    if size == 0 {
        1
    } else {
        size
    }
}

// ---- pages ------------------------------------------------------------------

/// The assets of the pages, one page after the other.
pub open spec fn gathered(pages: Seq<SearchResponse>) -> Seq<Asset>
    decreases pages.len(),
{
    if pages.len() == 0 {
        Seq::empty()
    } else {
        gathered(pages.drop_last()) + pages.last().assets.items@
    }
}

/// The server goes on behind the last page: it names a further page, and the last
/// one was not empty. A page whose assets are all hidden is not empty.
pub open spec fn goes_on(pages: Seq<SearchResponse>) -> bool {
    pages.last().more() && pages.last().holds_assets()
}

/// Whether another page is asked for: at the start, and then as long as more
/// assets are wanted, the server goes on, and the page has a number.
pub open spec fn wants_more(pages: Seq<SearchResponse>, cap: nat) -> bool {
    pages.len() == 0 || (gathered(pages).len() < cap && goes_on(pages) && pages.len() < u32::MAX)
}

/// Whether the server had more than was kept: assets beyond the limit, or a
/// further page.
pub open spec fn more_than(pages: Seq<SearchResponse>, cap: nat) -> bool {
    ||| gathered(pages).len() > cap
    ||| gathered(pages).len() == cap && pages.last().more()
    ||| gathered(pages).len() < cap && goes_on(pages)
}

/// Page `k` was wanted, and it is the answer to the request for it.
pub open spec fn page_read<B: SearchBackend>(
    backend: &B,
    args: SearchArgs,
    place: PlaceView,
    after: Option<Seq<char>>,
    before: Option<Seq<char>>,
    size: u32,
    pages: Seq<SearchResponse>,
    k: int,
) -> bool {
    wants_more(pages.take(k), args.cap() as nat) && search_reply(
        backend,
        page_request(args, place, after, before, (k + 1) as nat, size),
        Ok(pages[k]),
    )
}

/// `pages` are the answers to the requests for the first pages, and each was
/// wanted.
pub open spec fn pages_read<B: SearchBackend>(
    backend: &B,
    args: SearchArgs,
    place: PlaceView,
    after: Option<Seq<char>>,
    before: Option<Seq<char>>,
    size: u32,
    pages: Seq<SearchResponse>,
) -> bool {
    forall|k: int|
        0 <= k < pages.len() ==> #[trigger] page_read(
            backend,
            args,
            place,
            after,
            before,
            size,
            pages,
            k,
        )
}

/// What fetching comes to once the dates are read: the first failure, or the
/// assets of the pages up to the limit.
pub open spec fn fetched_between<B: SearchBackend>(
    backend: &B,
    args: SearchArgs,
    max_page: u32,
    place: PlaceView,
    after: Option<Seq<char>>,
    before: Option<Seq<char>>,
    r: Result<FetchResult, Error>,
) -> bool {
    let cap = args.cap() as nat;
    let size = size_of_page(max_page, args.cap());
    exists|pages: Seq<SearchResponse>| #[trigger]
        pages_read(backend, args, place, after, before, size, pages) && match r {
            Err(e) => wants_more(pages, cap) && search_reply(
                backend,
                page_request(args, place, after, before, (pages.len() + 1) as nat, size),
                Err(e),
            ),
            Ok(f) => {
                &&& !wants_more(pages, cap)
                &&& f.assets@ == first(gathered(pages), cap)
                &&& f.truncated == more_than(pages, cap)
            },
        }
}

/// What fetching comes to.
pub open spec fn fetched<B: SearchBackend>(
    backend: &B,
    args: SearchArgs,
    max_page: u32,
    place: PlaceView,
    r: Result<FetchResult, Error>,
) -> bool {
    match (date_bound(args.taken_after, false), date_bound(args.taken_before, true)) {
        (None, _) => r is Err && refuses_date(r->Err_0, args.taken_after),
        (Some(_), None) => r is Err && refuses_date(r->Err_0, args.taken_before),
        (Some(after), Some(before)) => fetched_between(
            backend,
            args,
            max_page,
            place,
            after,
            before,
            r,
        ),
    }
}

/// Every page that is wanted may be asked for.
pub open spec fn pages_allowed<B: SearchBackend>(
    backend: &B,
    args: SearchArgs,
    max_page: u32,
    place: PlaceView,
    after: Option<Seq<char>>,
    before: Option<Seq<char>>,
) -> bool {
    let size = size_of_page(max_page, args.cap());
    forall|pages: Seq<SearchResponse>| #[trigger]
        pages_read(backend, args, place, after, before, size, pages) && wants_more(
            pages,
            args.cap() as nat,
        ) ==> backend.may_search(
            page_request(args, place, after, before, (pages.len() + 1) as nat, size),
        )
}

/// What fetching needs may be asked for: nothing where a date is refused.
pub open spec fn fetching_allowed<B: SearchBackend>(
    backend: &B,
    args: SearchArgs,
    max_page: u32,
    place: PlaceView,
) -> bool {
    match (date_bound(args.taken_after, false), date_bound(args.taken_before, true)) {
        (Some(after), Some(before)) => pages_allowed(
            backend,
            args,
            max_page,
            place,
            after,
            before,
        ),
        _ => true,
    }
}

/// What all pages of a search are asked with.
struct PageQuery {
    query: Option<String>,
    ocr: Option<String>,
    taken_after: Option<String>,
    taken_before: Option<String>,
    size: u32,
}

/// Asks for one page.
fn ask_for_page<B: SearchBackend>(
    backend: &B,
    args: &SearchArgs,
    place: &PlaceMatch,
    q: &PageQuery,
    page: u32,
) -> (r: Result<SearchResponse, Error>)
    requires
        opt_text(q.query) == clean_text(args.query),
        opt_text(q.ocr) == clean_text(args.ocr),
        backend.may_search(
            page_request(
                *args,
                place@,
                opt_text(q.taken_after),
                opt_text(q.taken_before),
                page as nat,
                q.size,
            ),
        ),
    ensures
        search_reply(
            backend,
            page_request(
                *args,
                place@,
                opt_text(q.taken_after),
                opt_text(q.taken_before),
                page as nat,
                q.size,
            ),
            r,
        ),
{
    let request = SearchRequest {
        query: q.query.clone(),
        original_file_name: None,
        city: place.city.clone(),
        state: place.state.clone(),
        country: place.country.clone(),
        ocr: q.ocr.clone(),
        description: None,
        taken_after: q.taken_after.clone(),
        taken_before: q.taken_before.clone(),
        asset_type: match args.asset_type {
            Some(t) => Some(t.as_api_str().to_owned()),
            None => None,
        },
        visibility: if args.include_archived {
            Some("archive".to_owned())
        } else {
            None
        },
        page: Some(page),
        size: Some(q.size),
        with_exif: Some(true),
    };
    assert(request@ =~= page_request(
        *args,
        place@,
        opt_text(q.taken_after),
        opt_text(q.taken_before),
        page as nat,
        q.size,
    ));
    backend.search(&request)
}

proof fn lemma_page_added<B: SearchBackend>(
    backend: &B,
    args: SearchArgs,
    place: PlaceView,
    after: Option<Seq<char>>,
    before: Option<Seq<char>>,
    size: u32,
    pages: Seq<SearchResponse>,
    answer: SearchResponse,
)
    requires
        pages_read(backend, args, place, after, before, size, pages),
        wants_more(pages, args.cap() as nat),
        search_reply(
            backend,
            page_request(args, place, after, before, (pages.len() + 1) as nat, size),
            Ok(answer),
        ),
    ensures
        pages_read(backend, args, place, after, before, size, pages.push(answer)),
        gathered(pages.push(answer)) == gathered(pages) + answer.assets.items@,
{
    let now = pages.push(answer);
    assert(now.drop_last() =~= pages);
    assert forall|k: int| 0 <= k < now.len() implies #[trigger] page_read(
        backend,
        args,
        place,
        after,
        before,
        size,
        now,
        k,
    ) by {
        assert(now.take(k) =~= pages.take(k));
        if k == pages.len() {
            assert(pages.take(k) =~= pages);
        } else {
            assert(page_read(backend, args, place, after, before, size, pages, k));
            assert(now[k] == pages[k]);
        }
    }
}

/// Fetches the assets of one place, up to the limit, in pages of at most
/// `page_size` assets.
pub fn fetch_assets_inner<B: SearchBackend>(
    backend: &B,
    args: &SearchArgs,
    page_size: u32,
    place: &PlaceMatch,
) -> (r: Result<FetchResult, Error>)
    requires
        fetching_allowed(backend, *args, page_size, place@),
    ensures
        fetched(backend, *args, page_size, place@, r),
{
    let taken_after = match read_bound(&args.taken_after, false) {
        Ok(text) => text,
        Err(e) => {
            return Err(e);
        },
    };
    let taken_before = match read_bound(&args.taken_before, true) {
        Ok(text) => text,
        Err(e) => {
            return Err(e);
        },
    };
    let limit: u32 = args.effective_limit();
    let size: u32 = if page_size < limit && page_size > 0 {
        page_size
    } else if page_size > 0 && limit > 0 {
        limit
    } else {
        1
    };
    let q = PageQuery {
        query: cleaned(&args.query),
        ocr: cleaned(&args.ocr),
        taken_after,
        taken_before,
        size,
    };
    assert(size == size_of_page(page_size, limit));
    fetch_pages(backend, args, place, page_size, &q)
}

/// Asks for page after page until no more is wanted.
fn fetch_pages<B: SearchBackend>(
    backend: &B,
    args: &SearchArgs,
    place: &PlaceMatch,
    page_size: u32,
    q: &PageQuery,
) -> (r: Result<FetchResult, Error>)
    requires
        opt_text(q.query) == clean_text(args.query),
        opt_text(q.ocr) == clean_text(args.ocr),
        q.size == size_of_page(page_size, args.cap()),
        pages_allowed(
            backend,
            *args,
            page_size,
            place@,
            opt_text(q.taken_after),
            opt_text(q.taken_before),
        ),
    ensures
        fetched_between(
            backend,
            *args,
            page_size,
            place@,
            opt_text(q.taken_after),
            opt_text(q.taken_before),
            r,
        ),
{
    let limit: u32 = args.effective_limit();
    let ghost (after, before) = (opt_text(q.taken_after), opt_text(q.taken_before));
    let ghost cap = limit as nat;
    let ghost mut pages: Seq<SearchResponse> = Seq::empty();
    let mut collected: Vec<Asset> = Vec::new();
    let mut page: u32 = 1;
    loop
        invariant
            limit == args.cap(),
            cap == limit,
            opt_text(q.query) == clean_text(args.query),
            opt_text(q.ocr) == clean_text(args.ocr),
            q.size == size_of_page(page_size, limit),
            after == opt_text(q.taken_after),
            before == opt_text(q.taken_before),
            page == pages.len() + 1,
            pages_allowed(backend, *args, page_size, place@, after, before),
            pages_read(backend, *args, place@, after, before, q.size, pages),
            wants_more(pages, cap),
            collected@ == gathered(pages),
            collected.len() <= limit,
        decreases u32::MAX - page,
    {
        let reply = ask_for_page(backend, args, place, q, page);
        assert(search_reply(
            backend,
            page_request(*args, place@, after, before, (pages.len() + 1) as nat, q.size),
            reply,
        ));
        match reply {
            Err(e) => {
                return Err(e);
            },
            Ok(answer) => {
                let ghost now = pages.push(answer);
                proof {
                    lemma_page_added(
                        backend,
                        *args,
                        place@,
                        after,
                        before,
                        q.size,
                        pages,
                        answer,
                    );
                }
                let has_more = answer.has_more();
                let has_assets = answer.has_assets();
                let count: usize = answer.assets.items.len();
                let remaining: usize = limit as usize - collected.len();
                let mut items = answer.assets.items;
                let leftover = count > remaining;
                if leftover {
                    items.truncate(remaining);
                }
                collected.append(&mut items);
                assert(collected@ =~= first(gathered(now), cap));
                if collected.len() >= limit as usize {
                    return Ok(FetchResult { assets: collected, truncated: leftover || has_more });
                }
                if !has_more || !has_assets {
                    return Ok(FetchResult { assets: collected, truncated: false });
                }
                if page == u32::MAX {
                    return Ok(FetchResult { assets: collected, truncated: true });
                }
                proof {
                    pages = now;
                }
            },
        }
        page += 1;
    }
}

/// Fetches the assets of one place, up to the limit.
pub fn fetch_assets<B: SearchBackend>(
    backend: &B,
    args: &SearchArgs,
    place: &PlaceMatch,
) -> (r: Result<FetchResult, Error>)
    requires
        fetching_allowed(backend, *args, PAGE_SIZE, place@),
    ensures
        fetched(backend, *args, PAGE_SIZE, place@, r),
{
    fetch_assets_inner(backend, args, PAGE_SIZE, place)
}

/// `pages` are the answers to the requests of a search, from the first page on.
pub open spec fn pages_of<B: SearchBackend>(
    backend: &B,
    args: SearchArgs,
    max_page: u32,
    place: PlaceView,
    pages: Seq<SearchResponse>,
) -> bool {
    match (date_bound(args.taken_after, false), date_bound(args.taken_before, true)) {
        (Some(after), Some(before)) => pages_read(
            backend,
            args,
            place,
            after,
            before,
            size_of_page(max_page, args.cap()),
            pages,
        ),
        _ => false,
    }
}

/// At most as many assets come back as were asked for, and a result is called
/// truncated only where all of them are there, or no page was left to ask for.
pub proof fn law_limit_is_respected<B: SearchBackend>(
    backend: &B,
    args: SearchArgs,
    max_page: u32,
    place: PlaceView,
    f: FetchResult,
)
    requires
        fetched(backend, args, max_page, place, Ok(f)),
    ensures
        f.assets@.len() <= args.cap(),
        f.truncated ==> f.assets@.len() == args.cap() || exists|pages: Seq<SearchResponse>|
            pages.len() == u32::MAX && #[trigger] pages_of(backend, args, max_page, place, pages)
                && f.assets@ == gathered(pages),
{
    let (after, before) = (
        date_bound(args.taken_after, false)->0,
        date_bound(args.taken_before, true)->0,
    );
    let (cap, size) = (args.cap() as nat, size_of_page(max_page, args.cap()));
    let pages = choose|pages: Seq<SearchResponse>| #[trigger]
        pages_read(backend, args, place, after, before, size, pages) && !wants_more(pages, cap)
            && f.assets@ == first(gathered(pages), cap) && f.truncated == more_than(pages, cap);
    if gathered(pages).len() < cap && f.truncated {
        assert(pages.len() >= u32::MAX);
        if pages.len() > u32::MAX {
            let k = pages.len() - 1;
            assert(page_read(backend, args, place, after, before, size, pages, k));
            assert(pages.take(k).len() >= u32::MAX);
        }
        assert(pages_of(backend, args, max_page, place, pages));
    }
}

/// A result that is not truncated is complete: the server names no further page
/// behind the last that was read, or that page was empty; and every asset of the
/// pages is there. In particular a page whose assets are all hidden does not end
/// the walk.
pub proof fn law_complete_results_hold_all_pages<B: SearchBackend>(
    backend: &B,
    args: SearchArgs,
    max_page: u32,
    place: PlaceView,
    f: FetchResult,
)
    requires
        fetched(backend, args, max_page, place, Ok(f)),
        !f.truncated,
    ensures
        exists|pages: Seq<SearchResponse>|
            pages.len() > 0 && #[trigger] pages_of(backend, args, max_page, place, pages)
                && f.assets@ == gathered(pages) && !(pages.last().more()
                && pages.last().holds_assets()),
{
    let (after, before) = (
        date_bound(args.taken_after, false)->0,
        date_bound(args.taken_before, true)->0,
    );
    let (cap, size) = (args.cap() as nat, size_of_page(max_page, args.cap()));
    let pages = choose|pages: Seq<SearchResponse>| #[trigger]
        pages_read(backend, args, place, after, before, size, pages) && !wants_more(pages, cap)
            && f.assets@ == first(gathered(pages), cap) && f.truncated == more_than(pages, cap);
    assert(first(gathered(pages), cap) =~= gathered(pages));
    assert(pages_of(backend, args, max_page, place, pages));
}

// ---- filters of the search for descriptions ---------------------------------

/// The filters that go with a query: the same as in the search itself.
pub open spec fn hard_filters(
    args: SearchArgs,
    place: PlaceView,
    after: Option<Seq<char>>,
    before: Option<Seq<char>>,
    r: HardFilters,
) -> bool {
    &&& opt_text(r.city) == place.city
    &&& opt_text(r.state) == place.state
    &&& opt_text(r.country) == place.country
    &&& opt_text(r.taken_after) == after
    &&& opt_text(r.taken_before) == before
    &&& opt_text(r.asset_type) == type_filter(args)
    &&& opt_text(r.ocr) == clean_text(args.ocr)
    &&& opt_text(r.visibility) == visibility_filter(args)
}

/// What building the filters comes to.
pub open spec fn filters_built(
    args: SearchArgs,
    place: PlaceView,
    r: Result<HardFilters, Error>,
) -> bool {
    match (date_bound(args.taken_after, false), date_bound(args.taken_before, true)) {
        (None, _) => r is Err && refuses_date(r->Err_0, args.taken_after),
        (Some(_), None) => r is Err && refuses_date(r->Err_0, args.taken_before),
        (Some(after), Some(before)) => r is Ok && hard_filters(
            args,
            place,
            after,
            before,
            r->Ok_0,
        ),
    }
}

pub fn build_hard_filters(args: &SearchArgs, place: &PlaceMatch) -> (r: Result<HardFilters, Error>)
    ensures
        filters_built(*args, place@, r),
{
    let taken_after = match read_bound(&args.taken_after, false) {
        Ok(text) => text,
        Err(e) => {
            return Err(e);
        },
    };
    let taken_before = match read_bound(&args.taken_before, true) {
        Ok(text) => text,
        Err(e) => {
            return Err(e);
        },
    };
    Ok(
        HardFilters {
            city: place.city.clone(),
            state: place.state.clone(),
            country: place.country.clone(),
            taken_after,
            taken_before,
            asset_type: match args.asset_type {
                Some(t) => Some(t.as_api_str().to_owned()),
                None => None,
            },
            ocr: cleaned(&args.ocr),
            visibility: if args.include_archived {
                Some("archive".to_owned())
            } else {
                None
            },
        },
    )
}

} // verus!
