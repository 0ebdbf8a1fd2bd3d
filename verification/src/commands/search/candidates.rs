//! The candidates of a query: where they come from, and what is told of them.
use crate::client::InfoBackend;
use crate::commands::search::args::{clean_text, cleaned};
use crate::config::People;
use crate::description_search::{hit_views, KeywordHit, RerankCandidate, RerankLocation};
use crate::error::Error;
use crate::json::{lemma_list_view, member, Json, JsonView};
use crate::keywords::{dedup_preserving_order, distinct, law_distinct};
use crate::models::Asset;
use crate::moments::zero_padded;
use crate::places::{Admin2Lookup, PlaceKey};
use crate::text::{
    blank, decimal, is_blank, join, joined, numeral, opt_text, same, texts, trim, trimmed,
};
use vstd::hash_map::StringHashMap;
use vstd::prelude::*;
use vstd::string::*;

verus! {

// ---- the pool ---------------------------------------------------------------

/// An asset that a search found, and how.
#[derive(Debug)]
pub struct QueryCandidate {
    pub asset: Asset,
    /// The smart search found it.
    pub smart: bool,
    /// The keywords that found it.
    pub matched_keywords: Vec<String>,
}

#[verifier::ext_equal]
pub ghost struct CandidateView {
    pub asset: Asset,
    pub smart: bool,
    pub keywords: Seq<Seq<char>>,
}

impl View for QueryCandidate {
    type V = CandidateView;

    open spec fn view(&self) -> CandidateView {
        CandidateView {
            asset: self.asset,
            smart: self.smart,
            keywords: texts(self.matched_keywords@),
        }
    }
}

pub open spec fn has_id(pool: Seq<CandidateView>, id: Seq<char>) -> bool {
    exists|i: int| 0 <= i < pool.len() && (#[trigger] pool[i]).asset.id@ == id
}

/// The pool after the smart search found an asset.
pub open spec fn with_smart(pool: Seq<CandidateView>, asset: Asset) -> Seq<CandidateView> {
    if has_id(pool, asset.id@) {
        pool.map_values(
            |c: CandidateView|
                if c.asset.id@ == asset.id@ {
                    CandidateView { smart: true, ..c }
                } else {
                    c
                },
        )
    } else {
        pool.push(CandidateView { asset, smart: true, keywords: Seq::empty() })
    }
}

pub open spec fn with_word(words: Seq<Seq<char>>, word: Seq<char>) -> Seq<Seq<char>> {
    if words.contains(word) {
        words
    } else {
        words.push(word)
    }
}

/// The pool after a keyword found an asset.
pub open spec fn with_keyword(
    pool: Seq<CandidateView>,
    asset: Asset,
    word: Seq<char>,
) -> Seq<CandidateView> {
    if has_id(pool, asset.id@) {
        pool.map_values(
            |c: CandidateView|
                if c.asset.id@ == asset.id@ {
                    CandidateView { keywords: with_word(c.keywords, word), ..c }
                } else {
                    c
                },
        )
    } else {
        pool.push(CandidateView { asset, smart: false, keywords: seq![word] })
    }
}

pub open spec fn candidate_views(items: Seq<QueryCandidate>) -> Seq<CandidateView> {
    items.map_values(|c: QueryCandidate| c@)
}

/// The candidates in the order in which they were found, each asset once.
pub struct CandidatePool {
    pub items: Vec<QueryCandidate>,
    /// Where each asset stands.
    pub index: StringHashMap<usize>,
}

impl View for CandidatePool {
    type V = Seq<CandidateView>;

    open spec fn view(&self) -> Seq<CandidateView> {
        candidate_views(self.items@)
    }
}

impl CandidatePool {
    /// The index tells where each asset stands.
    pub open spec fn wf(&self) -> bool {
        &&& forall|i: int|
            0 <= i < self.items@.len() ==> {
                &&& self.index@.contains_key((#[trigger] self.items@[i]).asset.id@)
                &&& self.index@[self.items@[i].asset.id@] == i
            }
        &&& forall|id: Seq<char>| #[trigger]
            self.index@.contains_key(id) ==> self.index@[id] < self.items@.len()
                && self.items@[self.index@[id] as int].asset.id@ == id
    }

    pub fn new() -> (r: CandidatePool)
        ensures
            r.wf(),
            r@ == Seq::<CandidateView>::empty(),
    {
        let r = CandidatePool { items: Vec::new(), index: StringHashMap::new() };
        assert(r@ =~= Seq::<CandidateView>::empty());
        r
    }

    proof fn lemma_has_id(&self, id: Seq<char>)
        requires
            self.wf(),
        ensures
            has_id(self@, id) == self.index@.contains_key(id),
    {
        if self.index@.contains_key(id) {
            let i = self.index@[id] as int;
            assert(self@[i].asset.id@ == id);
        }
        if has_id(self@, id) {
            let i = choose|i: int| 0 <= i < self@.len() && (#[trigger] self@[i]).asset.id@ == id;
            assert(self.items@[i].asset.id@ == id);
        }
    }

    /// The smart search found an asset.
    pub fn add_smart_candidate(&mut self, asset: &Asset)
        requires
            old(self).wf(),
        ensures
            final(self).wf(),
            final(self)@ == with_smart(old(self)@, *asset),
    {
        proof {
            self.lemma_has_id(asset.id@);
        }
        let found: Option<usize> = match self.index.get(asset.id.as_str()) {
            Some(i) => Some(*i),
            None => None,
        };
        let ghost before = self.items@;
        match found {
            Some(i) => {
                self.items[i].smart = true;
                assert(self@ =~= with_smart(old(self)@, *asset));
            },
            None => {
                let place: usize = self.items.len();
                self.items.push(
                    QueryCandidate {
                        asset: asset.clone(),
                        smart: true,
                        matched_keywords: Vec::new(),
                    },
                );
                self.index.insert(asset.id.clone(), place);
                assert(texts(self.items@[place as int].matched_keywords@) =~= Seq::empty());
                assert(self@ =~= with_smart(old(self)@, *asset));
            },
        }
    }

    /// A keyword found an asset.
    pub fn add_keyword_candidate(&mut self, asset: &Asset, keyword: &str)
        requires
            old(self).wf(),
        ensures
            final(self).wf(),
            final(self)@ == with_keyword(old(self)@, *asset, keyword@),
    {
        proof {
            self.lemma_has_id(asset.id@);
        }
        let found: Option<usize> = match self.index.get(asset.id.as_str()) {
            Some(i) => Some(*i),
            None => None,
        };
        match found {
            Some(i) => {
                let ghost before = texts(self.items@[i as int].matched_keywords@);
                if !has_text(&self.items[i].matched_keywords, keyword) {
                    self.items[i].matched_keywords.push(keyword.to_owned());
                }
                assert(texts(self.items@[i as int].matched_keywords@) =~= with_word(
                    before,
                    keyword@,
                ));
                assert(self@ =~= with_keyword(old(self)@, *asset, keyword@));
            },
            None => {
                let place: usize = self.items.len();
                let mut words: Vec<String> = Vec::new();
                words.push(keyword.to_owned());
                assert(texts(words@) =~= seq![keyword@]);
                self.items.push(
                    QueryCandidate { asset: asset.clone(), smart: false, matched_keywords: words },
                );
                self.index.insert(asset.id.clone(), place);
                assert(self@ =~= with_keyword(old(self)@, *asset, keyword@));
            },
        }
    }
}

fn has_text(list: &Vec<String>, text: &str) -> (r: bool)
    ensures
        r == texts(list@).contains(text@),
{
    let mut i: usize = 0;
    while i < list.len()
        invariant
            i <= list.len(),
            forall|j: int| 0 <= j < i ==> #[trigger] texts(list@)[j] != text@,
        decreases list.len() - i,
    {
        if same(list[i].as_str(), text) {
            assert(texts(list@)[i as int] == text@);
            return true;
        }
        i += 1;
    }
    false
}

/// No asset is in the pool twice.
pub proof fn law_pool_holds_each_asset_once(pool: CandidatePool)
    requires
        pool.wf(),
    ensures
        forall|i: int, j: int|
            0 <= i < j < pool@.len() ==> (#[trigger] pool@[i]).asset.id@ != (
            #[trigger] pool@[j]).asset.id@,
{
    assert forall|i: int, j: int| 0 <= i < j < pool@.len() implies (
    #[trigger] pool@[i]).asset.id@ != (#[trigger] pool@[j]).asset.id@ by {
        assert(pool.index@[pool.items@[i].asset.id@] == i);
        assert(pool.index@[pool.items@[j].asset.id@] == j);
    }
}

/// The pool after the smart search found some assets.
pub open spec fn with_all_smart(pool: Seq<CandidateView>, assets: Seq<Asset>) -> Seq<CandidateView>
    decreases assets.len(),
{
    if assets.len() == 0 {
        pool
    } else {
        with_smart(with_all_smart(pool, assets.drop_last()), assets.last())
    }
}

/// The pool after keywords found some assets.
pub open spec fn with_all_hits(
    pool: Seq<CandidateView>,
    hits: Seq<(Seq<char>, Asset)>,
) -> Seq<CandidateView>
    decreases hits.len(),
{
    if hits.len() == 0 {
        pool
    } else {
        with_keyword(with_all_hits(pool, hits.drop_last()), hits.last().1, hits.last().0)
    }
}

impl CandidatePool {
    pub fn add_all_smart(&mut self, assets: &Vec<Asset>)
        requires
            old(self).wf(),
        ensures
            final(self).wf(),
            final(self)@ == with_all_smart(old(self)@, assets@),
    {
        let ghost start = self@;
        let mut i: usize = 0;
        while i < assets.len()
            invariant
                i <= assets.len(),
                self.wf(),
                self@ == with_all_smart(start, assets@.take(i as int)),
            decreases assets.len() - i,
        {
            assert(assets@.take(i + 1).drop_last() =~= assets@.take(i as int));
            self.add_smart_candidate(&assets[i]);
            i += 1;
        }
        assert(assets@.take(i as int) =~= assets@);
    }

    pub fn add_all_hits(&mut self, hits: &Vec<KeywordHit>)
        requires
            old(self).wf(),
        ensures
            final(self).wf(),
            final(self)@ == with_all_hits(old(self)@, hit_views(hits@)),
    {
        let ghost start = self@;
        let ghost all = hit_views(hits@);
        let mut i: usize = 0;
        while i < hits.len()
            invariant
                i <= hits.len(),
                all == hit_views(hits@),
                self.wf(),
                self@ == with_all_hits(start, all.take(i as int)),
            decreases hits.len() - i,
        {
            assert(all.take(i + 1).drop_last() =~= all.take(i as int));
            self.add_keyword_candidate(&hits[i].asset, hits[i].keyword.as_str());
            i += 1;
        }
        assert(all.take(i as int) =~= all);
    }
}

// ---- people -----------------------------------------------------------------

/// The name of a person in the detail of an asset.
pub open spec fn name_in(person: JsonView) -> Option<Seq<char>> {
    match member(person, "name"@) {
        Some(JsonView::Text(name)) => if is_blank(name) {
            None
        } else {
            Some(trim(name))
        },
        _ => None,
    }
}

/// The names among the people that are configured.
pub open spec fn configured_names(
    items: Seq<JsonView>,
    people: Map<Seq<char>, Vec<String>>,
) -> Seq<Seq<char>>
    decreases items.len(),
{
    if items.len() == 0 {
        Seq::empty()
    } else {
        let before = configured_names(items.drop_last(), people);
        match name_in(items.last()) {
            Some(name) => if people.contains_key(name) {
                before.push(name)
            } else {
                before
            },
            None => before,
        }
    }
}

/// A person with their roles.
pub open spec fn person_label(name: Seq<char>, roles: Seq<Seq<char>>) -> Seq<char> {
    if roles.len() == 0 {
        name
    } else {
        name + "（"@ + join(roles, "/"@) + "）"@
    }
}

/// The people of an asset that are configured, each once.
pub open spec fn people_labels(
    detail: JsonView,
    people: Map<Seq<char>, Vec<String>>,
) -> Seq<Seq<char>> {
    match member(detail, "people"@) {
        Some(JsonView::List(items)) => distinct(configured_names(items, people)).map_values(
            |name: Seq<char>| person_label(name, texts(people[name]@)),
        ),
        _ => Seq::empty(),
    }
}

fn read_name(person: &Json) -> (r: Option<&str>)
    ensures
        match r {
            Some(name) => name_in(person@) == Some(name@),
            None => name_in(person@) is None,
        },
{
    match person.get("name") {
        Some(Json::Text(name)) => if blank(name.as_str()) {
            None
        } else {
            Some(trimmed(name.as_str()))
        },
        _ => None,
    }
}

/// Names the configured people of an asset, given its detail.
pub fn label_people(detail: &Json, people: &People) -> (r: Vec<String>)
    ensures
        texts(r@) == people_labels(detail@, people@),
{
    let mut out: Vec<String> = Vec::new();
    assert(texts(out@) =~= Seq::<Seq<char>>::empty());
    if let Some(Json::List(items)) = detail.get("people") {
        let ghost views = items@.map_values(|j: Json| j@);
        proof {
            lemma_list_view(*items);
        }
        let mut names: Vec<String> = Vec::new();
        let mut i: usize = 0;
        assert(texts(names@) =~= configured_names(views.take(0), people@));
        while i < items.len()
            invariant
                i <= items.len(),
                views == items@.map_values(|j: Json| j@),
                texts(names@) == configured_names(views.take(i as int), people@),
            decreases items.len() - i,
        {
            assert(views.take(i + 1).drop_last() =~= views.take(i as int));
            assert(views.take(i + 1).last() == items@[i as int]@);
            if let Some(name) = read_name(&items[i]) {
                if people.get(name).is_some() {
                    let ghost before = texts(names@);
                    names.push(name.to_owned());
                    assert(texts(names@) =~= before.push(name@));
                }
            }
            i += 1;
        }
        assert(views.take(i as int) =~= views);
        let once = dedup_preserving_order(&names);
        let ghost wanted = texts(once@).map_values(
            |name: Seq<char>| person_label(name, texts(people@[name]@)),
        );
        proof {
            law_distinct(texts(names@));
            lemma_configured(views, people@);
        }
        let mut k: usize = 0;
        assert(texts(out@) =~= wanted.take(0));
        while k < once.len()
            invariant
                k <= once.len(),
                texts(once@) == distinct(configured_names(views, people@)),
                wanted == texts(once@).map_values(
                    |name: Seq<char>| person_label(name, texts(people@[name]@)),
                ),
                forall|x: Seq<char>|
                    distinct(configured_names(views, people@)).contains(x)
                        ==> #[trigger] people@.contains_key(x),
                texts(out@) == wanted.take(k as int),
            decreases once.len() - k,
        {
            let name = &once[k];
            let ghost before = texts(out@);
            assert(texts(once@)[k as int] == name@);
            assert(distinct(configured_names(views, people@)).contains(name@));
            assert(people@.contains_key(name@));
            if let Some(roles) = people.get(name.as_str()) {
                let mut label = name.clone();
                if roles.len() > 0 {
                    label.append("（");
                    label.append(joined(roles, "/").as_str());
                    label.append("）");
                }
                let ghost l = label@;
                out.push(label);
                assert(l == wanted[k as int]);
                assert(texts(out@) =~= before.push(l));
                assert(wanted.take(k + 1) =~= wanted.take(k as int).push(l));
            }
            k += 1;
        }
        assert(wanted.take(k as int) =~= wanted);
    }
    out
}

proof fn lemma_configured(items: Seq<JsonView>, people: Map<Seq<char>, Vec<String>>)
    ensures
        forall|x: Seq<char>|
            distinct(configured_names(items, people)).contains(x) ==> #[trigger] people.contains_key(
                x,
            ),
{
    law_distinct(configured_names(items, people));
    lemma_configured_names(items, people);
    assert forall|x: Seq<char>|
        distinct(configured_names(items, people)).contains(x) implies #[trigger] people.contains_key(
        x,
    ) by {
        let names = configured_names(items, people);
        assert(names.contains(x));
        let k = choose|k: int| 0 <= k < names.len() && names[k] == x;
        assert(people.contains_key(names[k]));
    }
}

proof fn lemma_configured_names(items: Seq<JsonView>, people: Map<Seq<char>, Vec<String>>)
    ensures
        forall|k: int|
            0 <= k < configured_names(items, people).len() ==> people.contains_key(
                #[trigger] configured_names(items, people)[k],
            ),
    decreases items.len(),
{
    if items.len() > 0 {
        let before = configured_names(items.drop_last(), people);
        let now = configured_names(items, people);
        lemma_configured_names(items.drop_last(), people);
        assert forall|k: int| 0 <= k < now.len() implies people.contains_key(
            #[trigger] now[k],
        ) by {
            if k < before.len() {
                assert(now[k] == before[k]);
            }
        }
    }
}

/// The backend answered `reply` when asked for the detail of an asset.
pub open spec fn detail_reply<I: InfoBackend>(
    backend: &I,
    id: Seq<char>,
    reply: Result<Json, Error>,
) -> bool {
    exists|asked: &str|
        asked@ == id && #[trigger] call_ensures(I::get_asset, (backend, asked), reply)
}

/// What naming the people of an asset comes to. The server is asked only where
/// people are configured.
pub open spec fn people_named<I: InfoBackend>(
    backend: &I,
    people: Map<Seq<char>, Vec<String>>,
    id: Seq<char>,
    r: Result<Vec<String>, Error>,
) -> bool {
    if people.is_empty() {
        r is Ok && texts(r->Ok_0@) == Seq::<Seq<char>>::empty()
    } else {
        exists|reply: Result<Json, Error>| #[trigger]
            detail_reply(backend, id, reply) && match reply {
                Err(e) => r is Err && (r->Err_0 matches Error::During { what, cause } && what@
                    == "failed to fetch full asset detail for "@ + id && cause@ == e.full_text()),
                Ok(detail) => r is Ok && texts(r->Ok_0@) == people_labels(detail@, people),
            }
    }
}

pub fn configured_people_for_asset<I: InfoBackend>(
    info_be: &I,
    people: &People,
    asset_id: &str,
) -> (r: Result<Vec<String>, Error>)
    requires
        !people@.is_empty() ==> info_be.may_get(asset_id@),
    ensures
        people_named(info_be, people@, asset_id@, r),
{
    if people.is_empty() {
        let none: Vec<String> = Vec::new();
        assert(texts(none@) =~= Seq::<Seq<char>>::empty());
        return Ok(none);
    }
    let reply = info_be.get_asset(asset_id);
    assert(detail_reply(info_be, asset_id@, reply));
    match reply {
        Err(e) => {
            let mut what = "failed to fetch full asset detail for ".to_owned();
            what.append(asset_id);
            Err(e.during(what))
        },
        Ok(detail) => Ok(label_people(&detail, people)),
    }
}

// ---- places -----------------------------------------------------------------

/// Where an asset was taken: its place, cleaned, and the second-level division
/// where the place is complete and known.
pub open spec fn location_of(
    asset: Asset,
    lookup: Map<PlaceKey, Seq<char>>,
    r: Option<RerankLocation>,
) -> bool {
    match asset.exif_info {
        None => r is None,
        Some(e) => {
            let country = clean_text(e.country);
            let state = clean_text(e.state);
            let city = clean_text(e.city);
            if country is None && state is None && city is None {
                r is None
            } else {
                &&& r is Some
                &&& opt_text(r->0.country) == country
                &&& opt_text(r->0.state) == state
                &&& opt_text(r->0.city) == city
                &&& opt_text(r->0.admin2) == if country is Some && state is Some && city is Some
                    && lookup.contains_key((country->0, state->0, city->0)) {
                    Some(lookup[(country->0, state->0, city->0)])
                } else {
                    None
                }
            }
        },
    }
}

pub fn rerank_location(asset: &Asset, lookup: &Admin2Lookup) -> (r: Option<RerankLocation>)
    ensures
        location_of(*asset, lookup@, r),
{
    match &asset.exif_info {
        None => None,
        Some(e) => {
            let country = cleaned(&e.country);
            let state = cleaned(&e.state);
            let city = cleaned(&e.city);
            if country.is_none() && state.is_none() && city.is_none() {
                return None;
            }
            let admin2 = match (&country, &state, &city) {
                (Some(country), Some(state), Some(city)) => match lookup.get(
                    country.as_str(),
                    state.as_str(),
                    city.as_str(),
                ) {
                    Some(a) => Some(a.clone()),
                    None => None,
                },
                _ => None,
            };
            Some(RerankLocation { country, state, admin2, city })
        },
    }
}

// ---- candidates as they are ranked ------------------------------------------

/// The short id of the `n`th candidate: `c001`, `c002` and so on.
pub open spec fn short_id(n: nat) -> Seq<char> {
    "c"@ + zero_padded(n, 3)
}

fn write_short_id(n: u128) -> (r: String)
    ensures
        r@ == short_id(n as nat),
{
    let digits = numeral(n);
    let width: usize = digits.as_str().unicode_len();
    let mut out = "c".to_owned();
    let ghost head = out@;
    let mut k: usize = width;
    assert(out@ =~= head + Seq::new(0, |i: int| '0'));
    while k < 3
        invariant
            width == digits@.len(),
            width <= k,
            k <= 3 || k == width,
            out@ == head + Seq::new((k - width) as nat, |i: int| '0'),
        decreases 3 - k,
    {
        out.push('0');
        k += 1;
        assert(out@ =~= head + Seq::new((k - width) as nat, |i: int| '0'));
    }
    out.append(digits.as_str());
    assert(out@ =~= short_id(n as nat));
    out
}

/// Which searches found a candidate.
pub open spec fn sources_of(c: CandidateView) -> Seq<Seq<char>> {
    (if c.smart {
        seq!["smart"@]
    } else {
        Seq::empty()
    }) + (if c.keywords.len() > 0 {
        seq!["description"@]
    } else {
        Seq::empty()
    })
}

/// What the model is told of the `n`th candidate.
pub open spec fn described_as(
    c: CandidateView,
    n: nat,
    people: Seq<Seq<char>>,
    lookup: Map<PlaceKey, Seq<char>>,
    r: RerankCandidate,
) -> bool {
    &&& r.id@ == short_id(n)
    &&& r.asset_type@ == c.asset.asset_type@
    &&& opt_text(r.taken_at) == opt_text(c.asset.local_date_time)
    &&& location_of(c.asset, lookup, r.location)
    &&& texts(r.people@) == people
    &&& texts(r.sources@) == sources_of(c)
    &&& texts(r.matched_keywords@) == c.keywords
}

/// The candidates as they are shown to the model.
#[derive(Debug)]
pub struct RichCandidates {
    pub prompts: Vec<RerankCandidate>,
    pub assets: Vec<Asset>,
}

/// The prompt tells of the `n`th candidate, with its people as the server
/// names them.
pub open spec fn prompt_fits<I: InfoBackend>(
    info_be: &I,
    people: Map<Seq<char>, Vec<String>>,
    lookup: Map<PlaceKey, Seq<char>>,
    c: CandidateView,
    n: nat,
    prompt: RerankCandidate,
) -> bool {
    exists|named: Result<Vec<String>, Error>| #[trigger]
        people_named(info_be, people, c.asset.id@, named) && named is Ok && described_as(
            c,
            n,
            texts(named->Ok_0@),
            lookup,
            prompt,
        )
}

/// `rich` are the first candidates as they are shown to the model.
pub open spec fn rich_of<I: InfoBackend>(
    info_be: &I,
    people: Map<Seq<char>, Vec<String>>,
    lookup: Map<PlaceKey, Seq<char>>,
    pool: Seq<CandidateView>,
    rich: RichCandidates,
) -> bool {
    &&& rich.prompts@.len() == rich.assets@.len()
    &&& rich.assets@.len() <= pool.len()
    &&& forall|i: int|
        0 <= i < rich.assets@.len() ==> (#[trigger] rich.assets@[i]) == pool[i].asset
    &&& forall|i: int|
        0 <= i < rich.prompts@.len() ==> prompt_fits(
            info_be,
            people,
            lookup,
            pool[i],
            (i + 1) as nat,
            #[trigger] rich.prompts@[i],
        )
}

/// What preparing the candidates comes to: the first failure, or all of them.
pub open spec fn candidates_built<I: InfoBackend>(
    info_be: &I,
    people: Map<Seq<char>, Vec<String>>,
    lookup: Map<PlaceKey, Seq<char>>,
    pool: Seq<CandidateView>,
    r: Result<RichCandidates, Error>,
) -> bool {
    match r {
        Ok(rich) => rich.assets@.len() == pool.len() && rich_of(
            info_be,
            people,
            lookup,
            pool,
            rich,
        ),
        Err(e) => exists|rich: RichCandidates| #[trigger]
            rich_of(info_be, people, lookup, pool, rich) && rich.assets@.len() < pool.len()
                && people_named(
                info_be,
                people,
                pool[rich.assets@.len() as int].asset.id@,
                Err(e),
            ),
    }
}

/// What preparing the candidates needs may be asked for: the detail of each, once
/// those before it are prepared, and nothing where no people are configured.
pub open spec fn building_allowed<I: InfoBackend>(
    info_be: &I,
    people: Map<Seq<char>, Vec<String>>,
    lookup: Map<PlaceKey, Seq<char>>,
    pool: Seq<CandidateView>,
) -> bool {
    !people.is_empty() ==> forall|rich: RichCandidates| #[trigger]
        rich_of(info_be, people, lookup, pool, rich) && rich.assets@.len() < pool.len()
            ==> info_be.may_get(pool[rich.assets@.len() as int].asset.id@)
}

fn copy_texts(list: &Vec<String>) -> (r: Vec<String>)
    ensures
        r@ == list@,
{
    let mut out: Vec<String> = Vec::new();
    let mut i: usize = 0;
    while i < list.len()
        invariant
            i <= list.len(),
            out@ == list@.take(i as int),
        decreases list.len() - i,
    {
        out.push(list[i].clone());
        i += 1;
    }
    out
}

/// Prepares the candidates for the model.
pub fn build_rerank_candidates<I: InfoBackend>(
    info_be: &I,
    people: &People,
    lookup: &Admin2Lookup,
    pool: &CandidatePool,
) -> (r: Result<RichCandidates, Error>)
    requires
        building_allowed(info_be, people@, lookup@, pool@),
    ensures
        candidates_built(info_be, people@, lookup@, pool@, r),
{
    let mut rich = RichCandidates { prompts: Vec::new(), assets: Vec::new() };
    let mut i: usize = 0;
    while i < pool.items.len()
        invariant
            i <= pool.items.len(),
            rich.assets.len() == i,
            building_allowed(info_be, people@, lookup@, pool@),
            rich_of(info_be, people@, lookup@, pool@, rich),
        decreases pool.items.len() - i,
    {
        let c = &pool.items[i];
        assert(pool@[i as int] == c@);
        let named = configured_people_for_asset(info_be, people, c.asset.id.as_str());
        assert(people_named(info_be, people@, pool@[i as int].asset.id@, named));
        match named {
            Err(e) => {
                return Err(e);
            },
            Ok(names) => {
                let mut sources: Vec<String> = Vec::new();
                if c.smart {
                    sources.push("smart".to_owned());
                }
                if c.matched_keywords.len() > 0 {
                    sources.push("description".to_owned());
                }
                assert(texts(sources@) =~= sources_of(c@));
                let ghost before = rich;
                let prompt = RerankCandidate {
                    id: write_short_id(i as u128 + 1),
                    asset_type: c.asset.asset_type.clone(),
                    taken_at: c.asset.local_date_time.clone(),
                    location: rerank_location(&c.asset, lookup),
                    people: names,
                    sources,
                    matched_keywords: copy_texts(&c.matched_keywords),
                };
                assert(described_as(
                    pool@[i as int],
                    (i + 1) as nat,
                    texts(named->Ok_0@),
                    lookup@,
                    prompt,
                ));
                rich.prompts.push(prompt);
                rich.assets.push(c.asset.clone());
                proof {
                    assert forall|k: int| 0 <= k < rich.prompts@.len() implies prompt_fits(
                        info_be,
                        people@,
                        lookup@,
                        pool@[k],
                        (k + 1) as nat,
                        #[trigger] rich.prompts@[k],
                    ) by {
                        if k < before.prompts@.len() {
                            assert(rich.prompts@[k] == before.prompts@[k]);
                        }
                    }
                    assert forall|k: int| 0 <= k < rich.assets@.len() implies (
                    #[trigger] rich.assets@[k]) == pool@[k].asset by {
                        if k < before.assets@.len() {
                            assert(rich.assets@[k] == before.assets@[k]);
                        }
                    }
                }
            },
        }
        i += 1;
    }
    Ok(rich)
}

// ---- choosing ---------------------------------------------------------------

/// The asset of the last candidate with the short id.
pub open spec fn asset_with(
    prompts: Seq<RerankCandidate>,
    assets: Seq<Asset>,
    id: Seq<char>,
) -> Option<Asset>
    decreases prompts.len(),
{
    if prompts.len() == 0 {
        None
    } else if prompts.last().id@ == id {
        Some(assets[prompts.len() - 1])
    } else {
        asset_with(prompts.drop_last(), assets, id)
    }
}

/// The assets that the ids name, in the order of the ids; an id that names no
/// candidate is passed over.
pub open spec fn assets_named(
    prompts: Seq<RerankCandidate>,
    assets: Seq<Asset>,
    ids: Seq<Seq<char>>,
) -> Seq<Asset>
    decreases ids.len(),
{
    if ids.len() == 0 {
        Seq::empty()
    } else {
        let before = assets_named(prompts, assets, ids.drop_last());
        match asset_with(prompts, assets, ids.last()) {
            Some(a) => before.push(a),
            None => before,
        }
    }
}

fn find_candidate(rich: &RichCandidates, id: &str) -> (r: Option<usize>)
    requires
        rich.prompts.len() == rich.assets.len(),
    ensures
        match r {
            Some(k) => k < rich.assets.len() && asset_with(rich.prompts@, rich.assets@, id@)
                == Some(rich.assets@[k as int]),
            None => asset_with(rich.prompts@, rich.assets@, id@) is None,
        },
{
    let mut i: usize = rich.prompts.len();
    assert(rich.prompts@.take(i as int) =~= rich.prompts@);
    while i > 0
        invariant
            i <= rich.prompts.len(),
            rich.prompts.len() == rich.assets.len(),
            asset_with(rich.prompts@, rich.assets@, id@) == asset_with(
                rich.prompts@.take(i as int),
                rich.assets@,
                id@,
            ),
        decreases i,
    {
        i -= 1;
        assert(rich.prompts@.take(i + 1).drop_last() =~= rich.prompts@.take(i as int));
        if same(rich.prompts[i].id.as_str(), id) {
            return Some(i);
        }
    }
    None
}

/// Takes the assets that the model chose, each once and in its order.
pub fn choose_assets(rich: &RichCandidates, ids: &Vec<String>) -> (r: Vec<Asset>)
    requires
        rich.prompts.len() == rich.assets.len(),
    ensures
        r@ == assets_named(rich.prompts@, rich.assets@, distinct(texts(ids@))),
{
    let once = dedup_preserving_order(ids);
    let ghost all = texts(once@);
    let mut out: Vec<Asset> = Vec::new();
    let mut i: usize = 0;
    while i < once.len()
        invariant
            rich.prompts.len() == rich.assets.len(),
            i <= once.len(),
            all == texts(once@),
            out@ == assets_named(rich.prompts@, rich.assets@, all.take(i as int)),
        decreases once.len() - i,
    {
        assert(all.take(i + 1).drop_last() =~= all.take(i as int));
        assert(all.take(i + 1).last() == once@[i as int]@);
        if let Some(k) = find_candidate(rich, once[i].as_str()) {
            out.push(rich.assets[k].clone());
        }
        i += 1;
    }
    assert(all.take(i as int) =~= all);
    out
}

/// The number that a run of digits writes.
spec fn number_of(digits: Seq<char>) -> int
    decreases digits.len(),
{
    if digits.len() == 0 {
        0
    } else {
        number_of(digits.drop_last()) * 10 + (digits.last() as int - '0' as int)
    }
}

proof fn lemma_number_of_decimal(n: nat)
    ensures
        number_of(decimal(n)) == n,
    decreases n,
{
    reveal_with_fuel(number_of, 2);
    if n >= 10 {
        lemma_number_of_decimal(n / 10);
        assert(decimal(n).drop_last() =~= decimal(n / 10));
    } else {
        assert(decimal(n).drop_last() =~= Seq::<char>::empty());
    }
}

proof fn lemma_leading_zeros(k: nat, digits: Seq<char>)
    ensures
        number_of(Seq::new(k, |i: int| '0') + digits) == number_of(digits),
    decreases k + digits.len(),
{
    let zeros = Seq::new(k, |i: int| '0');
    let whole = zeros + digits;
    if digits.len() > 0 {
        assert(whole.drop_last() =~= zeros + digits.drop_last());
        lemma_leading_zeros(k, digits.drop_last());
    } else if k > 0 {
        assert(whole.drop_last() =~= Seq::new((k - 1) as nat, |i: int| '0') + digits);
        lemma_leading_zeros((k - 1) as nat, digits);
    }
}

proof fn lemma_short_id_number(n: nat)
    ensures
        number_of(short_id(n).skip(1)) == n,
{
    reveal_strlit("c");
    let digits = decimal(n);
    lemma_number_of_decimal(n);
    assert(short_id(n).skip(1) =~= zero_padded(n, 3));
    if digits.len() < 3 {
        lemma_leading_zeros((3 - digits.len()) as nat, digits);
    }
}

/// The short id under which a candidate is shown names that candidate and no
/// other.
pub proof fn law_short_ids_name_their_candidates<I: InfoBackend>(
    info_be: &I,
    people: Map<Seq<char>, Vec<String>>,
    lookup: Map<PlaceKey, Seq<char>>,
    pool: Seq<CandidateView>,
    rich: RichCandidates,
    i: int,
)
    requires
        rich_of(info_be, people, lookup, pool, rich),
        0 <= i < rich.assets@.len(),
    ensures
        rich.prompts@[i].id@ == short_id((i + 1) as nat),
        asset_with(rich.prompts@, rich.assets@, short_id((i + 1) as nat)) == Some(
            rich.assets@[i],
        ),
{
    assert(prompt_fits(info_be, people, lookup, pool[i], (i + 1) as nat, rich.prompts@[i]));
    assert forall|k: int| 0 <= k < rich.prompts@.len() implies (#[trigger] rich.prompts@[k]).id@
        == short_id((k + 1) as nat) by {
        assert(prompt_fits(info_be, people, lookup, pool[k], (k + 1) as nat, rich.prompts@[k]));
    }
    lemma_asset_with(rich.prompts@, rich.assets@, rich.prompts@.len() as int, i);
    assert(rich.prompts@.take(rich.prompts@.len() as int) =~= rich.prompts@);
}

proof fn lemma_asset_with(prompts: Seq<RerankCandidate>, assets: Seq<Asset>, n: int, i: int)
    requires
        0 <= i < n <= prompts.len(),
        forall|k: int|
            0 <= k < prompts.len() ==> (#[trigger] prompts[k]).id@ == short_id((k + 1) as nat),
    ensures
        asset_with(prompts.take(n), assets, short_id((i + 1) as nat)) == Some(assets[i]),
    decreases n,
{
    let part = prompts.take(n);
    assert(part.last() == prompts[n - 1]);
    if i < n - 1 {
        lemma_short_id_number((i + 1) as nat);
        lemma_short_id_number(n as nat);
        assert(part.drop_last() =~= prompts.take(n - 1));
        lemma_asset_with(prompts, assets, n - 1, i);
    }
}

} // verus!
