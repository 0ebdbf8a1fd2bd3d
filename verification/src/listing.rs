//! What is shown of an asset in a list.
use crate::models::{Asset, Degrees};
use crate::text::{before_first, join, joined, opt_text, texts, up_to_first};
use vstd::prelude::*;
use vstd::string::*;

verus! {

/// The day on which an asset was taken: its local time up to the `T`.
pub open spec fn day_of(asset: Asset) -> Seq<char> {
    match asset.local_date_time {
        Some(t) => up_to_first(t@, 'T'),
        None => Seq::empty(),
    }
}

pub fn taken_day(asset: &Asset) -> (r: String)
    ensures
        r@ == day_of(*asset),
{
    match &asset.local_date_time {
        Some(t) => before_first(t.as_str(), 'T').to_owned(),
        None => {
            let out = String::new();
            assert(out@ =~= Seq::<char>::empty());
            out
        },
    }
}

pub open spec fn city_of(asset: Asset) -> Option<Seq<char>> {
    match asset.exif_info {
        Some(e) => opt_text(e.city),
        None => None,
    }
}

pub open spec fn state_of(asset: Asset) -> Option<Seq<char>> {
    match asset.exif_info {
        Some(e) => opt_text(e.state),
        None => None,
    }
}

pub open spec fn country_of(asset: Asset) -> Option<Seq<char>> {
    match asset.exif_info {
        Some(e) => opt_text(e.country),
        None => None,
    }
}

pub open spec fn description_of(asset: Asset) -> Option<Seq<char>> {
    match asset.exif_info {
        Some(e) => opt_text(e.description),
        None => None,
    }
}

/// A name that is there and not empty, as a list of one.
pub open spec fn named(name: Option<Seq<char>>) -> Seq<Seq<char>> {
    if name is Some && name->0.len() > 0 {
        seq![name->0]
    } else {
        Seq::empty()
    }
}

/// City, state and country, as far as they are known.
pub open spec fn place_of(asset: Asset) -> Seq<char> {
    join(
        named(city_of(asset)) + named(state_of(asset)) + named(country_of(asset)),
        ", "@,
    )
}

fn push_named(out: &mut Vec<String>, name: &Option<String>)
    ensures
        texts(final(out)@) == texts(old(out)@) + named(opt_text(*name)),
{
    if let Some(n) = name {
        if !n.as_str().is_empty() {
            out.push(n.clone());
        }
    }
    assert(texts(out@) =~= texts(old(out)@) + named(opt_text(*name)));
}

pub fn taken_where(asset: &Asset) -> (r: String)
    ensures
        r@ == place_of(*asset),
{
    let mut names: Vec<String> = Vec::new();
    assert(texts(names@) =~= Seq::<Seq<char>>::empty());
    if let Some(e) = &asset.exif_info {
        push_named(&mut names, &e.city);
        assert(texts(names@) =~= named(opt_text(e.city)));
        push_named(&mut names, &e.state);
        push_named(&mut names, &e.country);
    }
    assert(texts(names@) =~= named(city_of(*asset)) + named(state_of(*asset)) + named(
        country_of(*asset),
    ));
    joined(&names, ", ")
}

/// A coordinate as a JSON number, or `null`.
pub open spec fn json_degrees(d: Option<Degrees>) -> Seq<char> {
    match d {
        Some(d) => d.number@,
        None => "null"@,
    }
}

pub fn write_degrees(d: &Option<Degrees>) -> (r: String)
    ensures
        r@ == json_degrees(*d),
{
    match d {
        Some(d) => d.number.clone(),
        None => "null".to_owned(),
    }
}

/// The warning about an asset that no path mapping covers.
pub open spec fn unmapped_warning(asset: Asset) -> Seq<char> {
    "warn: no path mapping for "@ + asset.original_path@ + " (asset "@ + asset.id@ + ")\n"@
}

pub fn warn_unmapped(asset: &Asset) -> (r: String)
    ensures
        r@ == unmapped_warning(*asset),
{
    let mut out = "warn: no path mapping for ".to_owned();
    out.append(asset.original_path.as_str());
    out.append(" (asset ");
    out.append(asset.id.as_str());
    out.append(")\n");
    out
}

/// The warning about a local file that is missing.
pub open spec fn missing_warning(asset: Asset, local: Seq<char>) -> Seq<char> {
    "warn: local file missing for asset "@ + asset.id@ + ": "@ + local + "\n"@
}

pub fn warn_missing(asset: &Asset, local: &str) -> (r: String)
    ensures
        r@ == missing_warning(*asset, local@),
{
    let mut out = "warn: local file missing for asset ".to_owned();
    out.append(asset.id.as_str());
    out.append(": ");
    out.append(local);
    out.append("\n");
    out
}

/// What a command prints, and what it warns of.
#[derive(Debug)]
pub struct Emission {
    pub out: String,
    pub warnings: String,
}

/// The `Option` of a string as that of a slice.
pub fn as_slice(text: &Option<String>) -> (r: Option<&str>)
    ensures
        crate::text::opt_slice(r) == opt_text(*text),
{
    match text {
        Some(t) => Some(t.as_str()),
        None => None,
    }
}

/// The place of an asset names its city, its state and its country in this order, those
/// that it has.
pub proof fn law_place_names_city_state_country(asset: Asset, city: String, state: String, country: String)
    requires
        asset.exif_info is Some,
    ensures
        ({
            let e = asset.exif_info->0;
            let full = city@.len() > 0 && state@.len() > 0 && country@.len() > 0;
            &&& full && e.city == Some(city) && e.state == Some(state) && e.country == Some(country)
                ==> place_of(asset) == city@ + ", "@ + state@ + ", "@ + country@
            &&& full && e.city is None && e.state == Some(state) && e.country == Some(country)
                ==> place_of(asset) == state@ + ", "@ + country@
            &&& full && e.city == Some(city) && e.state is None && e.country == Some(country)
                ==> place_of(asset) == city@ + ", "@ + country@
            &&& full && e.city == Some(city) && e.state == Some(state) && e.country is None
                ==> place_of(asset) == city@ + ", "@ + state@
            &&& full && e.city is None && e.state is None && e.country == Some(country)
                ==> place_of(asset) == country@
            &&& full && e.city == Some(city) && e.state is None && e.country is None ==> place_of(
                asset,
            ) == city@
            &&& full && e.city is None && e.state == Some(state) && e.country is None ==> place_of(
                asset,
            ) == state@
            &&& e.city is None && e.state is None && e.country is None ==> place_of(asset).len()
                == 0
        }),
{
    reveal_with_fuel(join, 4);
    let (c, s, l) = (named(city_of(asset)), named(state_of(asset)), named(country_of(asset)));
    let all = c + s + l;
    if all.len() == 3 {
        assert(all.drop_last() =~= c + s);
        assert(all.drop_last().drop_last() =~= c);
    } else if all.len() == 2 {
        assert(all.drop_last() =~= seq![all[0]]);
    }
}

/// What is told of an asset without EXIF data is empty, and its day is its local time up to
/// the `T`.
pub proof fn law_what_is_told_of_an_asset(asset: Asset, day: Seq<char>, rest: Seq<char>)
    ensures
        asset.exif_info is None ==> city_of(asset) is None && state_of(asset) is None && country_of(
            asset,
        ) is None && description_of(asset) is None && place_of(asset).len() == 0,
        asset.exif_info matches Some(e) ==> city_of(asset) == opt_text(e.city) && state_of(asset)
            == opt_text(e.state) && country_of(asset) == opt_text(e.country) && description_of(
            asset,
        ) == opt_text(e.description),
        asset.local_date_time is Some && asset.local_date_time->0@ == day + "T"@ + rest
            && !day.contains('T') ==> day_of(asset) == day,
{
    if asset.exif_info is None {
        assert(named(city_of(asset)) + named(state_of(asset)) + named(country_of(asset))
            =~= Seq::<Seq<char>>::empty());
    }
    if let Some(t) = asset.local_date_time {
        reveal_strlit("T");
        if t@ == day + "T"@ + rest && !day.contains('T') {
            let n = day.len() as int;
            assert(t@[n] == 'T');
            assert forall|i: int| 0 <= i < n implies #[trigger] t@[i] != 'T' by {
                assert(t@[i] == day[i]);
                assert(day.contains(day[i]));
            }
            crate::text::lemma_up_to_first(t@, 'T', n);
            assert(t@.take(n) =~= day);
        }
    }
}

} // verus!
