//! Finding the asset behind a local file.
use crate::client::{InfoBackend, SearchBackend};
use crate::commands::info::prune::field_views;
use crate::commands::search::candidates::detail_reply;
use crate::config::PathMapEntry;
use crate::description_search::search_reply;
use crate::error::Error;
use crate::json::{lemma_fields_view, lemma_list_view, Json, JsonView};
use crate::models::{empty_request, Asset, RequestView, SearchRequest, SearchResponse};
use crate::path_map::{join_path, joined_path, reverse_translate, server_of};
use crate::text::{after_last, after_prefix, begins_with, from_last, opt_slice, rest_after, same};
use vstd::prelude::*;
use vstd::string::*;

verus! {

// ---- the local path ---------------------------------------------------------

/// What a path that was given stands for. `~` is the home directory, and a
/// relative path starts at the working directory.
pub open spec fn resolved_path(
    input: Seq<char>,
    home: Option<Seq<char>>,
    cwd: Result<Seq<char>, Seq<char>>,
    r: Result<String, Error>,
) -> bool {
    let under_home = after_prefix(input, "~/"@);
    if under_home is Some && home is None {
        r == Err::<String, Error>(Error::NoHomeForTilde)
    } else if under_home is None && input == "~"@ && home is None {
        r == Err::<String, Error>(Error::NoHome)
    } else {
        let path = if under_home is Some {
            join_path(home->0, under_home->0)
        } else if input == "~"@ {
            home->0
        } else {
            input
        };
        if path.len() > 0 && path[0] == '/' {
            r is Ok && r->Ok_0@ == path
        } else {
            match cwd {
                Ok(cwd) => r is Ok && r->Ok_0@ == join_path(cwd, path),
                Err(e) => r is Err && (r->Err_0 matches Error::NoWorkingDirectory { cause }
                    && cause@ == e),
            }
        }
    }
}

/// The working directory, or why there is none.
pub open spec fn directory(cwd: Result<&str, &str>) -> Result<Seq<char>, Seq<char>> {
    match cwd {
        Ok(path) => Ok(path@),
        Err(cause) => Err(cause@),
    }
}

pub fn resolve_local_path(input: &str, home: Option<&str>, cwd: Result<&str, &str>) -> (r: Result<
    String,
    Error,
>)
    ensures
        resolved_path(input@, opt_slice(home), directory(cwd), r),
{
    let path = if let Some(rest) = rest_after(input, "~/") {
        match home {
            Some(home) => joined_path(home, rest),
            None => {
                return Err(Error::NoHomeForTilde);
            },
        }
    } else if same(input, "~") {
        match home {
            Some(home) => home.to_owned(),
            None => {
                return Err(Error::NoHome);
            },
        }
    } else {
        input.to_owned()
    };
    if begins_with(path.as_str(), '/') {
        return Ok(path);
    }
    match cwd {
        Ok(cwd) => Ok(joined_path(cwd, path.as_str())),
        Err(cause) => Err(Error::NoWorkingDirectory { cause: cause.to_owned() }),
    }
}

// ---- the file name ----------------------------------------------------------

/// The last component of a path. Slashes at the end do not count, nor do
/// components that are a single dot, except for the first of a relative path.
pub open spec fn last_component(path: Seq<char>) -> Seq<char>
    decreases path.len(),
{
    if path.len() > 0 && path.last() == '/' {
        last_component(path.drop_last())
    } else if path.len() >= 2 && path.last() == '.' && path[path.len() - 2] == '/' {
        last_component(path.take(path.len() - 2))
    } else {
        from_last(path, '/')
    }
}

/// The name of the file that a path leads to; there is none where the path ends
/// in `..`, or has no component but a dot.
pub open spec fn file_name_of(path: Seq<char>) -> Option<Seq<char>> {
    let name = last_component(path);
    if name.len() == 0 || name == "."@ || name == ".."@ {
        None
    } else {
        Some(name)
    }
}

pub fn file_name(path: &str) -> (r: Option<&str>)
    ensures
        opt_slice(r) == file_name_of(path@),
{
    let mut n: usize = path.unicode_len();
    assert(path@.take(n as int) =~= path@);
    loop
        invariant
            n <= path@.len(),
            last_component(path@) == last_component(path@.take(n as int)),
        ensures
            n <= path@.len(),
            last_component(path@) == from_last(path@.take(n as int), '/'),
        decreases n,
    {
        let ghost part = path@.take(n as int);
        if n > 0 && path.get_char(n - 1) == '/' {
            assert(part.drop_last() =~= path@.take(n - 1));
            n -= 1;
        } else if n >= 2 && path.get_char(n - 1) == '.' && path.get_char(n - 2) == '/' {
            assert(part.take(part.len() - 2) =~= path@.take(n - 2));
            n -= 2;
        } else {
            break;
        }
    }
    assert(path@.take(n as int) =~= path@.subrange(0, n as int));
    let name = after_last(path.substring_char(0, n), '/');
    if name.is_empty() || same(name, ".") || same(name, "..") {
        None
    } else {
        Some(name)
    }
}

// ---- the asset --------------------------------------------------------------

/// The assets at a path, by their index.
pub open spec fn matches_at(items: Seq<Asset>, path: Seq<char>) -> Seq<int>
    decreases items.len(),
{
    if items.len() == 0 {
        Seq::empty()
    } else {
        let before = matches_at(items.drop_last(), path);
        if items.last().original_path@ == path {
            before.push(items.len() - 1)
        } else {
            before
        }
    }
}

/// The search for a file by its name.
pub open spec fn name_request(name: Seq<char>) -> RequestView {
    RequestView { original_file_name: Some(name), size: Some(250), ..empty_request() }
}

/// The id of the one asset at a path, given the assets with its file name.
pub open spec fn only_match(
    items: Seq<Asset>,
    path: Seq<char>,
    name: Seq<char>,
    r: Result<String, Error>,
) -> bool {
    let found = matches_at(items, path);
    if found.len() == 0 {
        r is Err && (r->Err_0 matches Error::AssetNotFound { path: p, filename } && p@ == path
            && filename@ == name)
    } else if found.len() == 1 {
        r is Ok && r->Ok_0@ == items[found[0]].id@
    } else {
        r is Err && (r->Err_0 matches Error::PathShared { count, path: p } && count == found.len()
            && p@ == path)
    }
}

/// Picks the asset at a path among those with its file name.
pub fn pick_match(items: &Vec<Asset>, path: &str, name: &str) -> (r: Result<String, Error>)
    ensures
        only_match(items@, path@, name@, r),
{
    let mut count: usize = 0;
    let mut last: usize = 0;
    let mut i: usize = 0;
    while i < items.len()
        invariant
            i <= items.len(),
            count == matches_at(items@.take(i as int), path@).len(),
            count <= i,
            count > 0 ==> last < i && matches_at(items@.take(i as int), path@).last() == last,
        decreases items.len() - i,
    {
        assert(items@.take(i + 1).drop_last() =~= items@.take(i as int));
        if same(items[i].original_path.as_str(), path) {
            count += 1;
            last = i;
        }
        i += 1;
    }
    assert(items@.take(i as int) =~= items@);
    if count == 0 {
        Err(Error::AssetNotFound { path: path.to_owned(), filename: name.to_owned() })
    } else if count == 1 {
        Ok(items[last].id.clone())
    } else {
        Err(Error::PathShared { count, path: path.to_owned() })
    }
}

/// What looking up the asset at a server path comes to.
pub open spec fn asset_found<S: SearchBackend>(
    search: &S,
    server_path: Seq<char>,
    r: Result<String, Error>,
) -> bool {
    match file_name_of(server_path) {
        None => r is Err && (r->Err_0 matches Error::NoFileName { path } && path@ == server_path),
        Some(name) => exists|reply: Result<SearchResponse, Error>| #[trigger]
            search_reply(search, name_request(name), reply) && match reply {
                Err(e) => r == Err::<String, Error>(e),
                Ok(page) => only_match(page.assets.items@, server_path, name, r),
            },
    }
}

/// The search for the file name may be asked for, where there is one.
pub open spec fn finding_allowed<S: SearchBackend>(search: &S, server_path: Seq<char>) -> bool {
    file_name_of(server_path) matches Some(name) ==> search.may_search(name_request(name))
}

/// Looks the asset at a server path up: by its file name, and then by the path.
pub fn find_asset_id<S: SearchBackend>(search: &S, server_path: &str) -> (r: Result<String, Error>)
    requires
        finding_allowed(search, server_path@),
    ensures
        asset_found(search, server_path@, r),
{
    match file_name(server_path) {
        None => Err(Error::NoFileName { path: server_path.to_owned() }),
        Some(name) => {
            let mut request = SearchRequest::default();
            request.original_file_name = Some(name.to_owned());
            request.size = Some(250);
            assert(request@ =~= name_request(name@));
            let reply = search.search(&request);
            assert(search_reply(search, name_request(name@), reply));
            match reply {
                Err(e) => Err(e),
                Ok(page) => pick_match(&page.assets.items, server_path, name),
            }
        },
    }
}

// ---- the detail -------------------------------------------------------------

/// The detail of an asset, with its albums and the text recognised in it.
#[derive(Debug)]
pub struct InfoBundle {
    pub asset: Json,
    pub albums: Json,
    pub ocr: Json,
}

/// Members with one of them set: in its place, or at the end.
pub open spec fn with_member(
    fields: Seq<(Seq<char>, JsonView)>,
    key: Seq<char>,
    value: JsonView,
) -> Seq<(Seq<char>, JsonView)>
    decreases fields.len(),
{
    if fields.len() == 0 {
        seq![(key, value)]
    } else if fields[0].0 == key {
        seq![(key, value)] + fields.drop_first()
    } else {
        seq![fields[0]] + with_member(fields.drop_first(), key, value)
    }
}

/// The detail with what the user cares for besides: where the file lies, the
/// albums and the recognised text.
pub open spec fn augmented(
    asset: JsonView,
    local: Seq<char>,
    albums: JsonView,
    ocr: JsonView,
) -> JsonView {
    match asset {
        JsonView::Fields(fields) => JsonView::Fields(
            with_member(
                with_member(
                    with_member(fields, "localPath"@, JsonView::Text(local)),
                    "albums"@,
                    albums,
                ),
                "ocr"@,
                ocr,
            ),
        ),
        _ => asset,
    }
}

fn set_member(fields: &mut Vec<(String, Json)>, key: &str, value: Json)
    ensures
        field_views(final(fields)@) == with_member(field_views(old(fields)@), key@, value@),
{
    let ghost all = field_views(fields@);
    let ghost v = value@;
    let n: usize = fields.len();
    let mut i: usize = 0;
    assert(all.take(0) + with_member(all.skip(0), key@, v) =~= with_member(all, key@, v)) by {
        assert(all.skip(0) =~= all);
    }
    while i < n
        invariant
            n == fields.len(),
            fields@ == old(fields)@,
            all == field_views(fields@),
            i <= n,
            v == value@,
            all.take(i as int) + with_member(all.skip(i as int), key@, v) == with_member(
                all,
                key@,
                v,
            ),
        decreases n - i,
    {
        let ghost rest = all.skip(i as int);
        assert(rest[0] == (fields@[i as int].0@, fields@[i as int].1@));
        assert(rest.drop_first() =~= all.skip(i + 1));
        if same(fields[i].0.as_str(), key) {
            let name = fields[i].0.clone();
            fields.set(i, (name, value));
            assert(field_views(fields@) =~= all.take(i as int) + (seq![(key@, v)]
                + rest.drop_first()));
            return;
        }
        assert(all.take(i + 1) + with_member(all.skip(i + 1), key@, v) =~= all.take(i as int)
            + with_member(rest, key@, v));
        i += 1;
    }
    fields.push((key.to_owned(), value));
    assert(all.skip(n as int) =~= Seq::empty());
    assert(field_views(fields@) =~= all.take(n as int) + seq![(key@, v)]);
}

fn augment(asset: Json, local: &str, albums: &Json, ocr: &Json) -> (r: Json)
    ensures
        r@ == augmented(asset@, local@, albums@, ocr@),
{
    match asset {
        Json::Fields(fields) => {
            proof {
                lemma_fields_view(fields);
            }
            let mut fields = fields;
            set_member(&mut fields, "localPath", Json::Text(local.to_owned()));
            set_member(&mut fields, "albums", albums.copy());
            set_member(&mut fields, "ocr", ocr.copy());
            proof {
                lemma_fields_view(fields);
            }
            Json::Fields(fields)
        },
        other => other,
    }
}

pub open spec fn albums_reply<I: InfoBackend>(
    backend: &I,
    id: Seq<char>,
    reply: Result<Json, Error>,
) -> bool {
    exists|asked: &str|
        asked@ == id && #[trigger] call_ensures(I::albums_for_asset, (backend, asked), reply)
}

pub open spec fn ocr_reply<I: InfoBackend>(
    backend: &I,
    id: Seq<char>,
    reply: Result<Json, Error>,
) -> bool {
    exists|asked: &str|
        asked@ == id && #[trigger] call_ensures(I::ocr_for_asset, (backend, asked), reply)
}

/// An answer, or an empty list in its place.
pub open spec fn or_empty_list(reply: Result<Json, Error>) -> JsonView {
    match reply {
        Ok(doc) => doc@,
        Err(_) => JsonView::List(Seq::empty()),
    }
}

/// What fetching the detail of an asset comes to. Only the detail itself has to
/// be there.
pub open spec fn detail_fetched<I: InfoBackend>(
    info: &I,
    id: Seq<char>,
    local: Seq<char>,
    r: Result<InfoBundle, Error>,
) -> bool {
    exists|detail: Result<Json, Error>| #[trigger]
        detail_reply(info, id, detail) && match detail {
            Err(e) => r == Err::<InfoBundle, Error>(e),
            Ok(asset) => exists|albums: Result<Json, Error>, ocr: Result<Json, Error>|
                #[trigger] albums_reply(info, id, albums) && #[trigger] ocr_reply(info, id, ocr)
                    && r is Ok && r->Ok_0.albums@ == or_empty_list(albums) && r->Ok_0.ocr@
                    == or_empty_list(ocr) && r->Ok_0.asset@ == augmented(
                    asset@,
                    local,
                    or_empty_list(albums),
                    or_empty_list(ocr),
                ),
        }
}

/// What looking up a local file comes to.
pub open spec fn looked_up<S: SearchBackend, I: InfoBackend>(
    path_map: Seq<PathMapEntry>,
    search: &S,
    info: &I,
    local: Seq<char>,
    r: Result<InfoBundle, Error>,
) -> bool {
    match server_of(local, path_map) {
        None => r is Err && (r->Err_0 matches Error::NoMapping { path } && path@ == local),
        Some(server) => exists|found: Result<String, Error>| #[trigger]
            asset_found(search, server, found) && match found {
                Err(e) => r == Err::<InfoBundle, Error>(e),
                Ok(id) => detail_fetched(info, id@, local, r),
            },
    }
}

/// The detail of the asset may be asked for, and the rest once it is there.
pub open spec fn detail_allowed<I: InfoBackend>(info: &I, id: Seq<char>) -> bool {
    &&& info.may_get(id)
    &&& forall|asset: Json| #[trigger] detail_reply(info, id, Ok(asset)) ==> info.may_get_more(id)
}

/// What looking up a local file needs may be asked for: nothing where the path
/// lies in no mapped directory, and the detail only of the asset that was found.
pub open spec fn lookup_allowed<S: SearchBackend, I: InfoBackend>(
    path_map: Seq<PathMapEntry>,
    search: &S,
    info: &I,
    local: Seq<char>,
) -> bool {
    server_of(local, path_map) matches Some(server) ==> {
        &&& finding_allowed(search, server)
        &&& forall|id: String| #[trigger]
            asset_found(search, server, Ok(id)) ==> detail_allowed(info, id@)
    }
}

fn empty_list() -> (r: Json)
    ensures
        r@ == JsonView::List(Seq::empty()),
{
    let items: Vec<Json> = Vec::new();
    proof {
        lemma_list_view(items);
        assert(items@.map_values(|j: Json| j@) =~= Seq::<JsonView>::empty());
    }
    Json::List(items)
}

fn fetch_detail<I: InfoBackend>(info: &I, id: &str, local: &str) -> (r: Result<InfoBundle, Error>)
    requires
        detail_allowed(info, id@),
    ensures
        detail_fetched(info, id@, local@, r),
{
    let detail = info.get_asset(id);
    assert(detail_reply(info, id@, detail));
    match detail {
        Err(e) => Err(e),
        Ok(asset) => {
            let albums = info.albums_for_asset(id);
            assert(albums_reply(info, id@, albums));
            let ocr = info.ocr_for_asset(id);
            assert(ocr_reply(info, id@, ocr));
            let albums = match albums {
                Ok(doc) => doc,
                Err(_) => empty_list(),
            };
            let ocr = match ocr {
                Ok(doc) => doc,
                Err(_) => empty_list(),
            };
            let asset = augment(asset, local, &albums, &ocr);
            Ok(InfoBundle { asset, albums, ocr })
        },
    }
}

/// Finds the asset behind a local file and fetches all that is known of it.
pub fn run_with<S: SearchBackend, I: InfoBackend>(
    path_map: &Vec<PathMapEntry>,
    search: &S,
    info: &I,
    local_path: &str,
) -> (r: Result<InfoBundle, Error>)
    requires
        lookup_allowed(path_map@, search, info, local_path@),
    ensures
        looked_up(path_map@, search, info, local_path@, r),
{
    match reverse_translate(local_path, path_map) {
        None => Err(Error::NoMapping { path: local_path.to_owned() }),
        Some(server) => {
            let found = find_asset_id(search, server.as_str());
            let ghost path = server_of(local_path@, path_map@)->0;
            assert(path == server@);
            assert(asset_found(search, path, found));
            let r = match found {
                Err(e) => Err(e),
                Ok(id) => fetch_detail(info, id.as_str(), local_path),
            };
            assert(looked_up(path_map@, search, info, local_path@, r));
            r
        },
    }
}

} // verus!
