//! The server, as the commands see it.
//!
//! Each trait says by a spec function which questions may be put to it, and its
//! methods require that of theirs. A backend allows all of them unless it says
//! otherwise. A function that works with any backend can rely on no more than its
//! own `requires` grants, so that clause bounds what it asks.
use crate::error::Error;
use crate::json::{has_member, law_members_by_name, lemma_list_view, member, Json, JsonView};
use crate::models::{Degrees, DuplicateGroup, RequestView, SearchRequest, SearchResponse, Stack};
use crate::places::CityVocabEntry;
use crate::text::texts;
use vstd::prelude::*;
use vstd::string::*;

verus! {

/// Runs searches.
pub trait SearchBackend {
    /// Whether the search may be asked for.
    open spec fn may_search(&self, req: RequestView) -> bool {
        true
    }

    fn search(&self, req: &SearchRequest) -> Result<SearchResponse, Error>
        requires
            self.may_search(req@),
    ;
}

/// Hands out thumbnails and stores descriptions.
pub trait CaptionBackend {
    /// Whether the thumbnail may be asked for.
    open spec fn may_fetch(&self, id: Seq<char>) -> bool {
        true
    }

    /// Whether the description may be replaced.
    open spec fn may_describe(&self, id: Seq<char>, description: Seq<char>) -> bool {
        true
    }

    /// A small JPEG of the asset.
    fn thumbnail(&self, id: &str) -> Result<Vec<u8>, Error>
        requires
            self.may_fetch(id@),
    ;

    /// Replaces the description of the asset.
    fn update_description(&self, id: &str, description: &str) -> Result<(), Error>
        requires
            self.may_describe(id@, description@),
    ;
}

/// Lists the places that the library knows: one entry per distinct city, state
/// and country.
pub trait PlacesBackend {
    /// Whether the places may be asked for.
    open spec fn may_list_places(&self) -> bool {
        true
    }

    fn cities_vocabulary(&self) -> Result<Vec<CityVocabEntry>, Error>
        requires
            self.may_list_places(),
    ;
}

/// Gives the details of one asset, as raw JSON.
pub trait InfoBackend {
    /// Whether the detail of the asset may be asked for.
    open spec fn may_get(&self, id: Seq<char>) -> bool {
        true
    }

    /// Whether the albums and the recognised text may be asked for.
    open spec fn may_get_more(&self, id: Seq<char>) -> bool {
        true
    }

    fn get_asset(&self, id: &str) -> Result<Json, Error>
        requires
            self.may_get(id@),
    ;

    /// The albums that hold the asset.
    fn albums_for_asset(&self, id: &str) -> Result<Json, Error>
        requires
            self.may_get_more(id@),
    ;

    /// The text regions that were recognised in the asset.
    fn ocr_for_asset(&self, id: &str) -> Result<Json, Error>
        requires
            self.may_get_more(id@),
    ;
}

/// Lists the stacks.
pub trait StacksBackend {
    /// Whether the stacks may be asked for.
    open spec fn may_list_stacks(&self) -> bool {
        true
    }

    fn stacks(&self) -> Result<Vec<Stack>, Error>
        requires
            self.may_list_stacks(),
    ;
}

/// Lists the groups of duplicates.
pub trait DuplicatesBackend {
    fn duplicates(&self) -> Result<Vec<DuplicateGroup>, Error>;
}

/// One change on the server.
#[verifier::ext_equal]
pub ghost enum WriteView {
    SetLocation((Seq<char>, Degrees, Degrees)),
    Delete(Seq<Seq<char>>),
    Dismiss(Seq<char>),
    /// The first asset becomes the cover.
    Stack(Seq<Seq<char>>),
}

/// Makes the changes that `dedup` asks for.
pub trait DedupWriteBackend {
    /// Whether the change may be asked for.
    open spec fn allows(&self, write: WriteView) -> bool {
        true
    }

    /// Gives the asset coordinates.
    fn update_asset_location(
        &self,
        id: &str,
        latitude: &Degrees,
        longitude: &Degrees,
    ) -> Result<(), Error>
        requires
            self.allows(WriteView::SetLocation((id@, *latitude, *longitude))),
    ;

    /// Stacks the assets; the first is the cover.
    fn create_stack(&self, asset_ids: &Vec<String>) -> Result<Stack, Error>
        requires
            self.allows(WriteView::Stack(texts(asset_ids@))),
    ;

    fn delete_assets(&self, asset_ids: &Vec<String>) -> Result<(), Error>
        requires
            self.allows(WriteView::Delete(texts(asset_ids@))),
    ;

    /// Ends the grouping of the duplicates; the assets stay as they are.
    fn dismiss_duplicate_group(&self, duplicate_id: &str) -> Result<(), Error>
        requires
            self.allows(WriteView::Dismiss(duplicate_id@)),
    ;
}

/// The backend answered `reply` when asked for the thumbnail of `id`.
pub open spec fn thumbnail_reply<C: CaptionBackend>(
    backend: &C,
    id: Seq<char>,
    reply: Result<Vec<u8>, Error>,
) -> bool {
    exists|asked: &str|
        asked@ == id && #[trigger] call_ensures(C::thumbnail, (backend, asked), reply)
}

// ---- requests and answers ---------------------------------------------------

/// Where a search is posted: with a query it is a smart search.
pub fn search_endpoint(req: &SearchRequest) -> (r: &'static str)
    ensures
        r@ == if req.query is Some {
            "/api/search/smart"@
        } else {
            "/api/search/metadata"@
        },
{
    if req.query.is_some() {
        "/api/search/smart"
    } else {
        "/api/search/metadata"
    }
}

/// Where an asset is found.
pub fn asset_endpoint(id: &str) -> (r: String)
    ensures
        r@ == "/api/assets/"@ + id@,
{
    let mut out = "/api/assets/".to_owned();
    out.append(id);
    out
}

/// Where the thumbnail of an asset is found.
pub fn thumbnail_endpoint(id: &str) -> (r: String)
    ensures
        r@ == "/api/assets/"@ + id@ + "/thumbnail"@,
{
    let mut out = asset_endpoint(id);
    out.append("/thumbnail");
    out
}

/// Where the recognised texts of an asset are found.
pub fn ocr_endpoint(id: &str) -> (r: String)
    ensures
        r@ == "/api/assets/"@ + id@ + "/ocr"@,
{
    let mut out = asset_endpoint(id);
    out.append("/ocr");
    out
}

/// The text under `key` of the EXIF data of an asset; empty where there is none.
pub open spec fn exif_text(asset: JsonView, key: Seq<char>) -> Seq<char> {
    match member(asset, "exifInfo"@) {
        Some(exif) => match member(exif, key) {
            Some(JsonView::Text(text)) => text,
            _ => Seq::empty(),
        },
        None => Seq::empty(),
    }
}

/// The country, state and city of each asset that has all three. One that lacks
/// any of them cannot be matched exactly, so it is left out.
pub open spec fn places_in(assets: Seq<JsonView>) -> Seq<(Seq<char>, Seq<char>, Seq<char>)>
    decreases assets.len(),
{
    if assets.len() == 0 {
        Seq::empty()
    } else {
        let past = places_in(assets.drop_last());
        let country = exif_text(assets.last(), "country"@);
        let state = exif_text(assets.last(), "state"@);
        let city = exif_text(assets.last(), "city"@);
        if country.len() > 0 && state.len() > 0 && city.len() > 0 {
            past.push((country, state, city))
        } else {
            past
        }
    }
}

/// Every place that is read is complete.
pub proof fn law_places_are_complete(assets: Seq<JsonView>)
    ensures
        forall|i: int|
            0 <= i < places_in(assets).len() ==> (#[trigger] places_in(assets)[i]).0.len() > 0
                && places_in(assets)[i].1.len() > 0 && places_in(assets)[i].2.len() > 0,
    decreases assets.len(),
{
    if assets.len() > 0 {
        let past = places_in(assets.drop_last());
        law_places_are_complete(assets.drop_last());
        assert forall|i: int| 0 <= i < places_in(assets).len() implies (
        #[trigger] places_in(assets)[i]).0.len() > 0 && places_in(assets)[i].1.len() > 0
            && places_in(assets)[i].2.len() > 0 by {
            if i < past.len() {
                assert(places_in(assets)[i] == past[i]);
            }
        }
    }
}

/// The entries name these places, and no second-level division.
pub open spec fn are_places(
    entries: Seq<CityVocabEntry>,
    places: Seq<(Seq<char>, Seq<char>, Seq<char>)>,
) -> bool {
    &&& entries.len() == places.len()
    &&& forall|i: int|
        0 <= i < entries.len() ==> {
            &&& (#[trigger] entries[i]).country@ == places[i].0
            &&& entries[i].state@ == places[i].1
            &&& entries[i].city@ == places[i].2
            &&& entries[i].admin2 is None
        }
}

fn read_exif_text(asset: &Json, key: &str) -> (r: String)
    ensures
        r@ == exif_text(asset@, key@),
{
    if let Some(exif) = asset.get("exifInfo") {
        if let Some(Json::Text(text)) = exif.get(key) {
            return text.clone();
        }
    }
    String::new()
}

/// Reads the places of the library from the answer of the server, which is a list
/// of assets. Any other answer is an error.
pub fn vocabulary_from(answer: &Json) -> (r: Result<Vec<CityVocabEntry>, Error>)
    ensures
        match answer@ {
            JsonView::List(assets) => r matches Ok(entries) && are_places(
                entries@,
                places_in(assets),
            ),
            _ => r matches Err(e) && e is CitiesNotAList,
        },
{
    match answer {
        Json::List(assets) => {
            let ghost views = assets@.map_values(|a: Json| a@);
            proof {
                lemma_list_view(*assets);
                assert(views.take(0) =~= Seq::empty());
            }
            let mut out: Vec<CityVocabEntry> = Vec::new();
            let mut i: usize = 0;
            while i < assets.len()
                invariant
                    i <= assets.len(),
                    views == assets@.map_values(|a: Json| a@),
                    are_places(out@, places_in(views.take(i as int))),
                decreases assets.len() - i,
            {
                proof {
                    assert(views.take(i + 1).drop_last() =~= views.take(i as int));
                    assert(views.take(i + 1).last() == assets@[i as int]@);
                }
                let city = read_exif_text(&assets[i], "city");
                let state = read_exif_text(&assets[i], "state");
                let country = read_exif_text(&assets[i], "country");
                if !(filled(&city) && filled(&state) && filled(&country)) {
                    i += 1;
                    continue;
                }
                out.push(CityVocabEntry { country, state, city, admin2: None });
                i += 1;
            }
            assert(views.take(views.len() as int) =~= views);
            Ok(out)
        },
        _ => Err(Error::CitiesNotAList),
    }
}

fn filled(text: &String) -> (r: bool)
    ensures
        r == (text@.len() > 0),
{
    text.as_str().unicode_len() > 0
}

/// One more asset of an answer adds its place, with its country, state and city as they are,
/// where it has all three.
pub proof fn law_places_are_read_by_name(
    assets: Seq<JsonView>,
    asset: JsonView,
    exif: JsonView,
    country: Seq<char>,
    state: Seq<char>,
    city: Seq<char>,
)
    ensures
        has_member(asset, "exifInfo"@, exif) && has_member(exif, "country"@, JsonView::Text(country))
            && has_member(exif, "state"@, JsonView::Text(state)) && has_member(
            exif,
            "city"@,
            JsonView::Text(city),
        ) && country.len() > 0 && state.len() > 0 && city.len() > 0 ==> places_in(assets.push(asset))
            == places_in(assets).push((country, state, city)),
        member(asset, "exifInfo"@) is None ==> places_in(assets.push(asset)) == places_in(assets),
        has_member(asset, "exifInfo"@, exif) && (member(exif, "country"@) is None || member(
            exif,
            "state"@,
        ) is None || member(exif, "city"@) is None) ==> places_in(assets.push(asset)) == places_in(
            assets,
        ),
{
    assert(assets.push(asset).drop_last() =~= assets);
    law_members_by_name(asset, "exifInfo"@, exif);
    law_members_by_name(exif, "country"@, JsonView::Text(country));
    law_members_by_name(exif, "state"@, JsonView::Text(state));
    law_members_by_name(exif, "city"@, JsonView::Text(city));
}

/// The entries of the vocabulary have the country, the state and the city of their place.
pub proof fn law_entries_name_their_places(
    entries: Seq<CityVocabEntry>,
    places: Seq<(Seq<char>, Seq<char>, Seq<char>)>,
    i: int,
)
    requires
        are_places(entries, places),
        0 <= i < places.len(),
    ensures
        entries.len() == places.len(),
        entries[i].country@ == places[i].0,
        entries[i].state@ == places[i].1,
        entries[i].city@ == places[i].2,
        entries[i].admin2 is None,
{
    assert(entries[i].country@ == places[i].0);
}

/// Where requests go: searches with a query to the smart search and others to the metadata,
/// and what concerns an asset below its own address.
pub proof fn law_where_requests_go(
    req: &SearchRequest,
    id: &str,
    to: &'static str,
    asset: String,
    thumbnail: String,
    ocr: String,
)
    requires
        call_ensures(search_endpoint, (req,), to),
        call_ensures(asset_endpoint, (id,), asset),
        call_ensures(thumbnail_endpoint, (id,), thumbnail),
        call_ensures(ocr_endpoint, (id,), ocr),
    ensures
        req.query is Some ==> to@ == "/api/search/smart"@,
        req.query is None ==> to@ == "/api/search/metadata"@,
        asset@ == "/api/assets/"@ + id@,
        thumbnail@ == asset@ + "/thumbnail"@,
        ocr@ == asset@ + "/ocr"@,
{
}

} // verus!
