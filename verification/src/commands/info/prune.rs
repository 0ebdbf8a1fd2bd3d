//! Cutting the detail of an asset down to what is shown.
use crate::commands::info::text::{
    at, camera_section, count_at, detail_text, dimensions_line, duration_line, exif, file_section,
    filled_at, has_camera, height_of, location_section, number_at, people_section, size_line,
    tags_section, time_section, width_of,
};
use crate::json::{first_member, lemma_fields_view, Json, JsonView};
use crate::text::same;
use vstd::prelude::*;
use vstd::string::*;

verus! {

/// The fields of an asset that are kept. Unknown fields are dropped, so that
/// the two formats show the same.
pub open spec fn is_kept(key: Seq<char>) -> bool {
    ||| key == "localPath"@
    ||| key == "albums"@
    ||| key == "ocr"@
    ||| key == "localDateTime"@
    ||| key == "originalMimeType"@
    ||| key == "width"@
    ||| key == "height"@
    ||| key == "duration"@
    ||| key == "exifInfo"@
    ||| key == "people"@
    ||| key == "unassignedFaces"@
    ||| key == "tags"@
}

/// The EXIF fields that are kept.
pub open spec fn is_kept_exif(key: Seq<char>) -> bool {
    ||| key == "timeZone"@
    ||| key == "latitude"@
    ||| key == "longitude"@
    ||| key == "city"@
    ||| key == "state"@
    ||| key == "country"@
    ||| key == "make"@
    ||| key == "model"@
    ||| key == "lensModel"@
    ||| key == "fNumber"@
    ||| key == "focalLength"@
    ||| key == "iso"@
    ||| key == "exposureTime"@
    ||| key == "orientation"@
    ||| key == "projectionType"@
    ||| key == "fileSizeInByte"@
}

fn keeps(key: &str) -> (r: bool)
    ensures
        r == is_kept(key@),
{
    same(key, "localPath") || same(key, "albums") || same(key, "ocr") || same(key, "localDateTime")
        || same(key, "originalMimeType") || same(key, "width") || same(key, "height") || same(
        key,
        "duration",
    ) || same(key, "exifInfo") || same(key, "people") || same(key, "unassignedFaces") || same(
        key,
        "tags",
    )
}

fn keeps_exif(key: &str) -> (r: bool)
    ensures
        r == is_kept_exif(key@),
{
    same(key, "timeZone") || same(key, "latitude") || same(key, "longitude") || same(key, "city")
        || same(key, "state") || same(key, "country") || same(key, "make") || same(key, "model")
        || same(key, "lensModel") || same(key, "fNumber") || same(key, "focalLength") || same(
        key,
        "iso",
    ) || same(key, "exposureTime") || same(key, "orientation") || same(key, "projectionType")
        || same(key, "fileSizeInByte")
}

/// The EXIF members that are kept, in their order.
pub open spec fn pruned_exif(fields: Seq<(Seq<char>, JsonView)>) -> Seq<(Seq<char>, JsonView)>
    decreases fields.len(),
{
    if fields.len() == 0 {
        Seq::empty()
    } else {
        let before = pruned_exif(fields.drop_last());
        if is_kept_exif(fields.last().0) {
            before.push(fields.last())
        } else {
            before
        }
    }
}

/// The value of a member, cut down where it holds the EXIF data.
pub open spec fn pruned_value(key: Seq<char>, value: JsonView) -> JsonView {
    match value {
        JsonView::Fields(fields) => if key == "exifInfo"@ {
            JsonView::Fields(pruned_exif(fields))
        } else {
            value
        },
        _ => value,
    }
}

/// The members of an asset that are kept, in their order.
pub open spec fn pruned_fields(fields: Seq<(Seq<char>, JsonView)>) -> Seq<(Seq<char>, JsonView)>
    decreases fields.len(),
{
    if fields.len() == 0 {
        Seq::empty()
    } else {
        let before = pruned_fields(fields.drop_last());
        let (key, value) = fields.last();
        if is_kept(key) {
            before.push((key, pruned_value(key, value)))
        } else {
            before
        }
    }
}

/// The detail of an asset with nothing but the fields that are kept.
pub open spec fn pruned(asset: JsonView) -> JsonView {
    match asset {
        JsonView::Fields(fields) => JsonView::Fields(pruned_fields(fields)),
        _ => asset,
    }
}

pub open spec fn field_views(fields: Seq<(String, Json)>) -> Seq<(Seq<char>, JsonView)> {
    fields.map_values(|f: (String, Json)| (f.0@, f.1@))
}

fn prune_exif(fields: &Vec<(String, Json)>) -> (r: Vec<(String, Json)>)
    ensures
        field_views(r@) == pruned_exif(field_views(fields@)),
{
    let ghost all = field_views(fields@);
    let mut out: Vec<(String, Json)> = Vec::new();
    let mut i: usize = 0;
    assert(field_views(out@) =~= pruned_exif(all.take(0)));
    while i < fields.len()
        invariant
            i <= fields.len(),
            all == field_views(fields@),
            field_views(out@) == pruned_exif(all.take(i as int)),
        decreases fields.len() - i,
    {
        assert(all.take(i + 1).drop_last() =~= all.take(i as int));
        assert(all.take(i + 1).last() == (fields@[i as int].0@, fields@[i as int].1@));
        if keeps_exif(fields[i].0.as_str()) {
            let ghost before = field_views(out@);
            let value = fields[i].1.copy();
            out.push((fields[i].0.clone(), value));
            assert(field_views(out@) =~= before.push(all[i as int]));
        }
        i += 1;
    }
    assert(all.take(i as int) =~= all);
    out
}

/// Cuts the detail of an asset down to the fields that the text shows too.
pub fn prune_for_json(asset: &Json) -> (r: Json)
    ensures
        r@ == pruned(asset@),
{
    match asset {
        Json::Fields(fields) => {
            let ghost all = field_views(fields@);
            proof {
                lemma_fields_view(*fields);
            }
            let mut out: Vec<(String, Json)> = Vec::new();
            let mut i: usize = 0;
            assert(field_views(out@) =~= pruned_fields(all.take(0)));
            while i < fields.len()
                invariant
                    i <= fields.len(),
                    all == field_views(fields@),
                    field_views(out@) == pruned_fields(all.take(i as int)),
                decreases fields.len() - i,
            {
                assert(all.take(i + 1).drop_last() =~= all.take(i as int));
                assert(all.take(i + 1).last() == (fields@[i as int].0@, fields@[i as int].1@));
                let key = &fields[i].0;
                if keeps(key.as_str()) {
                    let ghost before = field_views(out@);
                    let value = match &fields[i].1 {
                        Json::Fields(inner) => {
                            proof {
                                lemma_fields_view(*inner);
                            }
                            if same(key.as_str(), "exifInfo") {
                                let kept = prune_exif(inner);
                                proof {
                                    lemma_fields_view(kept);
                                }
                                Json::Fields(kept)
                            } else {
                                fields[i].1.copy()
                            }
                        },
                        _ => fields[i].1.copy(),
                    };
                    let ghost v = value@;
                    assert(v == pruned_value(key@, fields@[i as int].1@));
                    out.push((key.clone(), value));
                    assert(field_views(out@) =~= before.push((key@, v)));
                }
                i += 1;
            }
            assert(all.take(i as int) =~= all);
            proof {
                lemma_fields_view(out);
            }
            Json::Fields(out)
        },
        _ => asset.copy(),
    }
}

// ---- what pruning guarantees ------------------------------------------------

proof fn lemma_pruned_exif_kept(fields: Seq<(Seq<char>, JsonView)>)
    ensures
        forall|i: int|
            0 <= i < pruned_exif(fields).len() ==> is_kept_exif(
                (#[trigger] pruned_exif(fields)[i]).0,
            ),
        pruned_exif(pruned_exif(fields)) == pruned_exif(fields),
    decreases fields.len(),
{
    if fields.len() > 0 {
        let before = pruned_exif(fields.drop_last());
        let now = pruned_exif(fields);
        lemma_pruned_exif_kept(fields.drop_last());
        assert forall|i: int| 0 <= i < now.len() implies is_kept_exif((#[trigger] now[i]).0) by {
            if i < before.len() {
                assert(now[i] == before[i]);
            }
        }
        if is_kept_exif(fields.last().0) {
            assert(now.drop_last() =~= before);
        }
    }
}

proof fn lemma_pruned_fields_kept(fields: Seq<(Seq<char>, JsonView)>)
    ensures
        forall|i: int|
            0 <= i < pruned_fields(fields).len() ==> is_kept(
                (#[trigger] pruned_fields(fields)[i]).0,
            ),
        pruned_fields(pruned_fields(fields)) == pruned_fields(fields),
    decreases fields.len(),
{
    if fields.len() > 0 {
        let before = pruned_fields(fields.drop_last());
        let now = pruned_fields(fields);
        let (key, value) = fields.last();
        lemma_pruned_fields_kept(fields.drop_last());
        assert forall|i: int| 0 <= i < now.len() implies is_kept((#[trigger] now[i]).0) by {
            if i < before.len() {
                assert(now[i] == before[i]);
            }
        }
        if is_kept(key) {
            assert(now.drop_last() =~= before);
            if let JsonView::Fields(inner) = value {
                lemma_pruned_exif_kept(inner);
            }
            assert(pruned_value(key, pruned_value(key, value)) == pruned_value(key, value));
        }
    }
}

/// Nothing but the fields that are kept is left, and pruning again changes
/// nothing.
pub proof fn law_only_kept_fields_remain(asset: JsonView)
    ensures
        pruned(pruned(asset)) == pruned(asset),
        pruned(asset) matches JsonView::Fields(fields) ==> forall|i: int|
            0 <= i < fields.len() ==> is_kept((#[trigger] fields[i]).0),
{
    if let JsonView::Fields(fields) = asset {
        lemma_pruned_fields_kept(fields);
    }
}

pub proof fn lemma_first_member_push(
    fields: Seq<(Seq<char>, JsonView)>,
    last: (Seq<char>, JsonView),
    key: Seq<char>,
)
    ensures
        first_member(fields.push(last), key) == if first_member(fields, key) is Some {
            first_member(fields, key)
        } else if last.0 == key {
            Some(last.1)
        } else {
            None
        },
    decreases fields.len(),
{
    reveal_with_fuel(first_member, 2);
    let longer = fields.push(last);
    if fields.len() > 0 {
        assert(longer.drop_first() =~= fields.drop_first().push(last));
        lemma_first_member_push(fields.drop_first(), last, key);
    } else {
        assert(longer.drop_first() =~= Seq::<(Seq<char>, JsonView)>::empty());
    }
}

pub proof fn lemma_exif_member(fields: Seq<(Seq<char>, JsonView)>, key: Seq<char>)
    requires
        is_kept_exif(key),
    ensures
        first_member(pruned_exif(fields), key) == first_member(fields, key),
    decreases fields.len(),
{
    if fields.len() > 0 {
        let past = fields.drop_last();
        lemma_exif_member(past, key);
        assert(fields =~= past.push(fields.last()));
        lemma_first_member_push(past, fields.last(), key);
        lemma_first_member_push(pruned_exif(past), fields.last(), key);
    }
}

pub proof fn lemma_kept_member(fields: Seq<(Seq<char>, JsonView)>, key: Seq<char>)
    requires
        is_kept(key),
    ensures
        first_member(pruned_fields(fields), key) == match first_member(fields, key) {
            Some(v) => Some(pruned_value(key, v)),
            None => None,
        },
    decreases fields.len(),
{
    if fields.len() > 0 {
        let past = fields.drop_last();
        let (k, v) = fields.last();
        lemma_kept_member(past, key);
        assert(fields =~= past.push(fields.last()));
        lemma_first_member_push(past, fields.last(), key);
        lemma_first_member_push(pruned_fields(past), (k, pruned_value(k, v)), key);
    }
}

proof fn lemma_kept_at(asset: JsonView, key: Seq<char>)
    requires
        is_kept(key),
    ensures
        at(pruned(asset), key) == pruned_value(key, at(asset, key)),
{
    if let JsonView::Fields(fields) = asset {
        lemma_kept_member(fields, key);
    }
}

proof fn lemma_exif_at(asset: JsonView, key: Seq<char>)
    requires
        is_kept_exif(key),
    ensures
        at(exif(pruned(asset)), key) == at(exif(asset), key),
{
    lemma_kept_at(asset, "exifInfo"@);
    if let JsonView::Fields(inner) = exif(asset) {
        lemma_exif_member(inner, key);
    }
}

/// Dimensions that are shown stand in the asset itself, not in its EXIF data alone.
pub open spec fn has_own_dimensions(asset: JsonView) -> bool {
    width_of(asset) is Some && height_of(asset) is Some ==> count_at(asset, "width"@) is Some
        && count_at(asset, "height"@) is Some
}

/// The JSON loses nothing that the text shows: the text of the pruned detail is
/// that of the detail. Dimensions that stand in the EXIF data alone are shown
/// in the text and are not kept in the JSON, and are left out here.
pub proof fn law_json_keeps_what_the_text_shows(
    asset: JsonView,
    albums: JsonView,
    ocr: JsonView,
    percents: Seq<Option<String>>,
)
    requires
        has_own_dimensions(asset),
    ensures
        detail_text(pruned(asset), albums, ocr, percents) == detail_text(
            asset,
            albums,
            ocr,
            percents,
        ),
{
    lemma_same_file(asset);
    lemma_same_time(asset);
    lemma_same_location(asset);
    lemma_same_camera(asset);
    lemma_same_people(asset);
    lemma_same_tags(asset);
}

#[verifier::spinoff_prover]
#[verifier::rlimit(60)]
proof fn lemma_same_file(asset: JsonView)
    requires
        has_own_dimensions(asset),
    ensures
        file_section(pruned(asset)) == file_section(asset),
{
    let p = pruned(asset);
    lemma_literals_differ();
    lemma_kept_at(asset, "originalMimeType"@);
    lemma_kept_at(asset, "width"@);
    lemma_kept_at(asset, "height"@);
    lemma_kept_at(asset, "duration"@);
    lemma_exif_at(asset, "fileSizeInByte"@);
    lemma_dimension_dropped(asset, "exifImageWidth"@);
    lemma_dimension_dropped(asset, "exifImageHeight"@);
    assert(size_line(p) == size_line(asset));
    assert(dimensions_line(p) == dimensions_line(asset));
    assert(duration_line(p) == duration_line(asset));
}

#[verifier::spinoff_prover]
#[verifier::rlimit(60)]
proof fn lemma_same_time(asset: JsonView)
    ensures
        time_section(pruned(asset)) == time_section(asset),
{
    lemma_literals_differ();
    lemma_kept_at(asset, "localDateTime"@);
    lemma_exif_at(asset, "timeZone"@);
}

#[verifier::spinoff_prover]
#[verifier::rlimit(60)]
proof fn lemma_same_location(asset: JsonView)
    ensures
        location_section(pruned(asset)) == location_section(asset),
{
    lemma_exif_at(asset, "latitude"@);
    lemma_exif_at(asset, "longitude"@);
    lemma_exif_at(asset, "city"@);
    lemma_exif_at(asset, "state"@);
    lemma_exif_at(asset, "country"@);
}

#[verifier::spinoff_prover]
#[verifier::rlimit(60)]
proof fn lemma_same_value(asset: JsonView, key: Seq<char>)
    requires
        is_kept_exif(key),
    ensures
        filled_at(exif(pruned(asset)), key) == filled_at(exif(asset), key),
        number_at(exif(pruned(asset)), key) == number_at(exif(asset), key),
{
    lemma_exif_at(asset, key);
}

#[verifier::spinoff_prover]
#[verifier::rlimit(60)]
proof fn lemma_same_camera(asset: JsonView)
    ensures
        camera_section(pruned(asset)) == camera_section(asset),
{
    lemma_same_value(asset, "make"@);
    lemma_same_value(asset, "model"@);
    lemma_same_value(asset, "lensModel"@);
    lemma_same_value(asset, "fNumber"@);
    lemma_same_value(asset, "focalLength"@);
    lemma_same_value(asset, "iso"@);
    lemma_same_value(asset, "exposureTime"@);
    lemma_same_value(asset, "orientation"@);
    lemma_same_value(asset, "projectionType"@);
    assert(has_camera(pruned(asset)) == has_camera(asset));
}

#[verifier::spinoff_prover]
#[verifier::rlimit(60)]
proof fn lemma_same_people(asset: JsonView)
    ensures
        people_section(pruned(asset)) == people_section(asset),
{
    lemma_literals_differ();
    lemma_kept_at(asset, "people"@);
    lemma_kept_at(asset, "unassignedFaces"@);
}

#[verifier::spinoff_prover]
#[verifier::rlimit(60)]
proof fn lemma_same_tags(asset: JsonView)
    ensures
        tags_section(pruned(asset)) == tags_section(asset),
{
    lemma_literals_differ();
    lemma_kept_at(asset, "tags"@);
}

/// The keys that are read are not `exifInfo`.
proof fn lemma_literals_differ()
    ensures
        "originalMimeType"@ != "exifInfo"@,
        "width"@ != "exifInfo"@,
        "height"@ != "exifInfo"@,
        "duration"@ != "exifInfo"@,
        "localDateTime"@ != "exifInfo"@,
        "people"@ != "exifInfo"@,
        "unassignedFaces"@ != "exifInfo"@,
        "tags"@ != "exifInfo"@,
{
    reveal_strlit("exifInfo");
    reveal_strlit("originalMimeType");
    reveal_strlit("width");
    reveal_strlit("height");
    reveal_strlit("duration");
    reveal_strlit("localDateTime");
    reveal_strlit("people");
    reveal_strlit("unassignedFaces");
    reveal_strlit("tags");
    assert("duration"@[0] == 'd');
    assert("exifInfo"@[0] == 'e');
}

/// A key that the pruned EXIF data lacks is not there at all.
proof fn lemma_exif_absent(fields: Seq<(Seq<char>, JsonView)>, key: Seq<char>)
    requires
        !is_kept_exif(key),
    ensures
        first_member(pruned_exif(fields), key) is None,
    decreases fields.len(),
{
    if fields.len() > 0 {
        let past = fields.drop_last();
        lemma_exif_absent(past, key);
        lemma_first_member_push(pruned_exif(past), fields.last(), key);
    }
}

proof fn lemma_dimensions_not_kept(key: Seq<char>)
    requires
        key == "exifImageWidth"@ || key == "exifImageHeight"@,
    ensures
        !is_kept_exif(key),
{
    reveal_strlit("exifImageWidth");
    reveal_strlit("exifImageHeight");
    assert(key.len() == 14 || key.len() == 15);
    assert(key[0] == 'e');
    reveal_strlit("timeZone");
    assert("timeZone"@.len() == 8);
    reveal_strlit("latitude");
    assert("latitude"@.len() == 8);
    reveal_strlit("longitude");
    assert("longitude"@.len() == 9);
    reveal_strlit("city");
    assert("city"@.len() == 4);
    reveal_strlit("state");
    assert("state"@.len() == 5);
    reveal_strlit("country");
    assert("country"@.len() == 7);
    reveal_strlit("make");
    assert("make"@.len() == 4);
    reveal_strlit("model");
    assert("model"@.len() == 5);
    reveal_strlit("lensModel");
    assert("lensModel"@.len() == 9);
    reveal_strlit("fNumber");
    assert("fNumber"@.len() == 7);
    reveal_strlit("focalLength");
    assert("focalLength"@.len() == 11);
    reveal_strlit("iso");
    assert("iso"@.len() == 3);
    reveal_strlit("exposureTime");
    assert("exposureTime"@.len() == 12);
    reveal_strlit("orientation");
    assert("orientation"@.len() == 11);
    reveal_strlit("projectionType");
    assert("projectionType"@[0] == 'p');
    reveal_strlit("fileSizeInByte");
    assert("fileSizeInByte"@[0] == 'f');
}

proof fn lemma_dimension_dropped(asset: JsonView, key: Seq<char>)
    requires
        key == "exifImageWidth"@ || key == "exifImageHeight"@,
    ensures
        count_at(exif(pruned(asset)), key) is None,
{
    lemma_kept_at(asset, "exifInfo"@);
    lemma_dimensions_not_kept(key);
    if let JsonView::Fields(inner) = exif(asset) {
        lemma_exif_absent(inner, key);
    }
}

} // verus!
