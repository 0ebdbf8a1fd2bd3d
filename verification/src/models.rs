//! What the server is asked for and what it answers, as plain values.
use crate::json::Json;
use crate::text::opt_text;
use vstd::prelude::*;

verus! {

/// Request body of the two search endpoints. `query` is what smart search
/// ranks by; a request without it is a metadata search.
#[derive(Debug, Clone)]
pub struct SearchRequest {
    pub query: Option<String>,
    /// Exact-match filter on the file name.
    pub original_file_name: Option<String>,
    pub city: Option<String>,
    pub state: Option<String>,
    pub country: Option<String>,
    /// Substring filter on the text that was recognised in the image.
    pub ocr: Option<String>,
    /// Substring filter on the description; metadata search only.
    pub description: Option<String>,
    pub taken_after: Option<String>,
    pub taken_before: Option<String>,
    pub asset_type: Option<String>,
    pub visibility: Option<String>,
    pub page: Option<u32>,
    pub size: Option<u32>,
    pub with_exif: Option<bool>,
}

/// What a [`SearchRequest`] says, with its strings as characters.
#[verifier::ext_equal]
pub ghost struct RequestView {
    pub query: Option<Seq<char>>,
    pub original_file_name: Option<Seq<char>>,
    pub city: Option<Seq<char>>,
    pub state: Option<Seq<char>>,
    pub country: Option<Seq<char>>,
    pub ocr: Option<Seq<char>>,
    pub description: Option<Seq<char>>,
    pub taken_after: Option<Seq<char>>,
    pub taken_before: Option<Seq<char>>,
    pub asset_type: Option<Seq<char>>,
    pub visibility: Option<Seq<char>>,
    pub page: Option<u32>,
    pub size: Option<u32>,
    pub with_exif: Option<bool>,
}

impl View for SearchRequest {
    type V = RequestView;

    open spec fn view(&self) -> RequestView {
        RequestView {
            query: opt_text(self.query),
            original_file_name: opt_text(self.original_file_name),
            city: opt_text(self.city),
            state: opt_text(self.state),
            country: opt_text(self.country),
            ocr: opt_text(self.ocr),
            description: opt_text(self.description),
            taken_after: opt_text(self.taken_after),
            taken_before: opt_text(self.taken_before),
            asset_type: opt_text(self.asset_type),
            visibility: opt_text(self.visibility),
            page: self.page,
            size: self.size,
            with_exif: self.with_exif,
        }
    }
}

/// A request that filters on nothing.
pub open spec fn empty_request() -> RequestView {
    RequestView {
        query: None,
        original_file_name: None,
        city: None,
        state: None,
        country: None,
        ocr: None,
        description: None,
        taken_after: None,
        taken_before: None,
        asset_type: None,
        visibility: None,
        page: None,
        size: None,
        with_exif: None,
    }
}

impl Default for SearchRequest {
    fn default() -> (r: SearchRequest)
        ensures
            r@ == empty_request(),
    {
        SearchRequest {
            query: None,
            original_file_name: None,
            city: None,
            state: None,
            country: None,
            ocr: None,
            description: None,
            taken_after: None,
            taken_before: None,
            asset_type: None,
            visibility: None,
            page: None,
            size: None,
            with_exif: None,
        }
    }
}

/// Answer of the search endpoints.
#[derive(Debug)]
pub struct SearchResponse {
    pub assets: AssetsBucket,
}

#[derive(Debug)]
pub struct AssetsBucket {
    pub total: u32,
    pub count: u32,
    pub items: Vec<Asset>,
    /// The page to ask for next: absent or null when there is none.
    pub next_page: Option<Json>,
}

impl SearchResponse {
    /// Whether the server has a further page.
    pub open spec fn more(self) -> bool {
        self.assets.next_page is Some && self.assets.next_page->0 !is Null
    }

    /// Whether the server found assets for this page. The count is the server's
    /// own, so that it tells of assets that were taken out of the page, too.
    pub open spec fn holds_assets(self) -> bool {
        self.assets.items@.len() > 0 || self.assets.count > 0
    }

    pub fn has_assets(&self) -> (r: bool)
        ensures
            r == self.holds_assets(),
    {
        self.assets.items.len() > 0 || self.assets.count > 0
    }

    pub fn has_more(&self) -> (r: bool)
        ensures
            r == self.more(),
    {
        match &self.assets.next_page {
            None => false,
            Some(Json::Null) => false,
            Some(_) => true,
        }
    }
}

/// A photo or a video.
#[derive(Debug)]
pub struct Asset {
    pub id: String,
    pub original_path: String,
    pub original_file_name: String,
    pub asset_type: String,
    pub file_created_at: Option<String>,
    pub local_date_time: Option<String>,
    /// Base64 of the file's SHA-1.
    pub checksum: String,
    pub exif_info: Option<ExifInfo>,
}

#[derive(Debug)]
pub struct ExifInfo {
    pub city: Option<String>,
    pub state: Option<String>,
    pub country: Option<String>,
    pub latitude: Option<Degrees>,
    pub longitude: Option<Degrees>,
    /// Free-form text.
    pub description: Option<String>,
    pub date_time_original: Option<String>,
    pub file_size_in_byte: Option<u64>,
}

/// A coordinate in decimal degrees: as a JSON number, and rounded to six
/// decimals for people to read.
#[derive(Debug, PartialEq, Eq)]
pub struct Degrees {
    pub number: String,
    pub six_decimals: String,
}

impl Clone for Degrees {
    fn clone(&self) -> (r: Degrees)
        ensures
            r == *self,
    {
        Degrees { number: self.number.clone(), six_decimals: self.six_decimals.clone() }
    }
}

impl Clone for ExifInfo {
    fn clone(&self) -> (r: ExifInfo)
        ensures
            r == *self,
    {
        ExifInfo {
            city: self.city.clone(),
            state: self.state.clone(),
            country: self.country.clone(),
            latitude: self.latitude.clone(),
            longitude: self.longitude.clone(),
            description: self.description.clone(),
            date_time_original: self.date_time_original.clone(),
            file_size_in_byte: self.file_size_in_byte,
        }
    }
}

impl Clone for Asset {
    fn clone(&self) -> (r: Asset)
        ensures
            r == *self,
    {
        Asset {
            id: self.id.clone(),
            original_path: self.original_path.clone(),
            original_file_name: self.original_file_name.clone(),
            asset_type: self.asset_type.clone(),
            file_created_at: self.file_created_at.clone(),
            local_date_time: self.local_date_time.clone(),
            checksum: self.checksum.clone(),
            exif_info: self.exif_info.clone(),
        }
    }
}

/// A stack: assets shown as one, with the primary asset as the cover.
#[derive(Debug)]
pub struct Stack {
    pub primary_asset_id: String,
    pub assets: Vec<StackMember>,
}

#[derive(Debug)]
pub struct StackMember {
    pub id: String,
}

/// Assets that the server holds to be duplicates of each other.
#[derive(Debug)]
pub struct DuplicateGroup {
    pub duplicate_id: String,
    pub assets: Vec<Asset>,
}

/// The view of a request has each of its fields under the same name.
pub proof fn law_request_is_viewed_field_by_field(r: SearchRequest)
    ensures
        r@.query is Some == r.query is Some && (r.query matches Some(t) ==> r@.query == Some(t@)),
        r@.original_file_name is Some == r.original_file_name is Some && (
        r.original_file_name matches Some(t) ==> r@.original_file_name == Some(t@)),
        r@.city is Some == r.city is Some && (r.city matches Some(t) ==> r@.city == Some(t@)),
        r@.state is Some == r.state is Some && (r.state matches Some(t) ==> r@.state == Some(t@)),
        r@.country is Some == r.country is Some && (r.country matches Some(t) ==> r@.country == Some(
            t@,
        )),
        r@.ocr is Some == r.ocr is Some && (r.ocr matches Some(t) ==> r@.ocr == Some(t@)),
        r@.description is Some == r.description is Some && (r.description matches Some(t)
            ==> r@.description == Some(t@)),
        r@.taken_after is Some == r.taken_after is Some && (r.taken_after matches Some(t)
            ==> r@.taken_after == Some(t@)),
        r@.taken_before is Some == r.taken_before is Some && (r.taken_before matches Some(t)
            ==> r@.taken_before == Some(t@)),
        r@.asset_type is Some == r.asset_type is Some && (r.asset_type matches Some(t)
            ==> r@.asset_type == Some(t@)),
        r@.visibility is Some == r.visibility is Some && (r.visibility matches Some(t)
            ==> r@.visibility == Some(t@)),
        r@.page == r.page,
        r@.size == r.size,
        r@.with_exif == r.with_exif,
{
}

} // verus!
