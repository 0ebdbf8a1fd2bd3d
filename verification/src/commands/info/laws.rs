//! What `info` guarantees.
use crate::client::{InfoBackend, SearchBackend};
use crate::commands::info::lookup::{
    albums_reply, asset_found, augmented, detail_fetched, file_name_of, last_component, looked_up,
    lookup_allowed, matches_at, name_request, ocr_reply, only_match, or_empty_list, resolved_path,
    run_with, with_member, InfoBundle,
};
use crate::commands::info::prune::{
    is_kept, is_kept_exif, lemma_exif_member, lemma_kept_member, prune_for_json, pruned,
    pruned_exif, pruned_fields, pruned_value,
};
use crate::commands::info::report::{reported, OutputFormat, ReportView};
use crate::commands::info::text::{
    album_line, albums_section, at, camera_section, count_at, counted_title, decorated, detail_text,
    dimensions_line, duration_line, emit_text, exif, file_section, filled_at, has_camera,
    has_location, items_of, kv, kv_opt, list_lines, location_section, number_at, ocr_line,
    ocr_lines, ocr_section, or_else, people_section, person_extras, person_line, score_numbers,
    score_text, size_line, tag_line, tags_section, text_at, time_section,
};
use crate::commands::search::candidates::detail_reply;
use crate::config::PathMapEntry;
use crate::description_search::search_reply;
use crate::error::Error;
use crate::json::{first_at, first_member, has_member, law_members_by_name, member, Json, JsonView};
use crate::models::{Asset, SearchResponse};
use crate::moments::readable_time;
use crate::path_map::server_of;
use crate::sizes::size_text;
use crate::text::{
    concat, decimal, from_last, holds, join, law_join_keeps_order, lemma_concat_push, lemma_holds,
    lemma_holds_joined, lemma_holds_piece, lemma_holds_through, lemma_holds_within, lemma_sum_assoc,
    lemma_trim_empty, opt_text, pad_start, trim,
};
use vstd::prelude::*;
use vstd::string::*;

verus! {

// ---- reading a document -----------------------------------------------------

#[verifier::spinoff_prover]
#[verifier::rlimit(60)]
proof fn lemma_text(doc: JsonView, key: Seq<char>, t: Seq<char>)
    ensures
        has_member(doc, key, JsonView::Text(t)) ==> at(doc, key) == JsonView::Text(t) && text_at(
            doc,
            key,
        ) == Some(t) && (trim(t).len() > 0 ==> filled_at(doc, key) == Some(trim(t))),
{
    law_members_by_name(doc, key, JsonView::Text(t));
    lemma_trim_empty(t);
}

#[verifier::spinoff_prover]
#[verifier::rlimit(60)]
proof fn lemma_number(doc: JsonView, key: Seq<char>, t: Seq<char>, n: Option<u64>)
    ensures
        has_member(doc, key, JsonView::Number { text: t, unsigned: n }) ==> number_at(doc, key)
            == Some(t) && count_at(doc, key) == n,
{
    law_members_by_name(doc, key, JsonView::Number { text: t, unsigned: n });
}

/// A line has its label at the left, and its value in a column of its own behind it.
#[verifier::spinoff_prover]
#[verifier::rlimit(60)]
pub proof fn law_lines_are_labelled(key: Seq<char>, value: Seq<char>)
    ensures
        ("  "@ + key + ":"@).is_prefix_of(kv(key, value)),
        (value + "\n"@).is_suffix_of(kv(key, value)),
        key.len() < 18 ==> kv(key, value).len() == 20 + value.len() + 1,
{
    reveal_strlit("  ");
    reveal_strlit(":");
    reveal_strlit("\n");
    let line = kv(key, value);
    let head = "  "@ + key + ":"@;
    assert(line.take(head.len() as int) =~= head);
    let tail = value + "\n"@;
    assert(line.skip(line.len() - tail.len()) =~= tail);
}

// ---- the text ---------------------------------------------------------------

#[verifier::spinoff_prover]
#[verifier::rlimit(60)]
proof fn lemma_sections(
    asset: JsonView,
    albums: JsonView,
    ocr: JsonView,
    percents: Seq<Option<String>>,
)
    ensures
        holds(detail_text(asset, albums, ocr, percents), file_section(asset)),
        holds(detail_text(asset, albums, ocr, percents), time_section(asset)),
        holds(detail_text(asset, albums, ocr, percents), location_section(asset)),
        holds(detail_text(asset, albums, ocr, percents), camera_section(asset)),
        holds(detail_text(asset, albums, ocr, percents), people_section(asset)),
        holds(detail_text(asset, albums, ocr, percents), tags_section(asset)),
        holds(detail_text(asset, albums, ocr, percents), ocr_section(ocr, percents)),
        holds(detail_text(asset, albums, ocr, percents), albums_section(albums)),
{
    let p0 = file_section(asset);
    let p1 = time_section(asset);
    let p2 = location_section(asset);
    let p3 = camera_section(asset);
    let p4 = people_section(asset);
    let p5 = tags_section(asset);
    let p6 = ocr_section(ocr, percents);
    let p7 = albums_section(albums);
    let q0 = seq![p0];
    assert(q0.drop_last() =~= Seq::<Seq<char>>::empty());
    assert(concat(q0.drop_last()) =~= Seq::<char>::empty());
    assert(concat(q0) =~= p0);
    let q1 = q0.push(p1);
    lemma_concat_push(q0, p1);
    let q2 = q1.push(p2);
    lemma_concat_push(q1, p2);
    let q3 = q2.push(p3);
    lemma_concat_push(q2, p3);
    let q4 = q3.push(p4);
    lemma_concat_push(q3, p4);
    let q5 = q4.push(p5);
    lemma_concat_push(q4, p5);
    let q6 = q5.push(p6);
    lemma_concat_push(q5, p6);
    let q7 = q6.push(p7);
    lemma_concat_push(q6, p7);
    assert(concat(q7) == detail_text(asset, albums, ocr, percents));
    lemma_holds_piece(q7, 0);
    assert(q7[0] == p0);
    lemma_holds_piece(q7, 1);
    assert(q7[1] == p1);
    lemma_holds_piece(q7, 2);
    assert(q7[2] == p2);
    lemma_holds_piece(q7, 3);
    assert(q7[3] == p3);
    lemma_holds_piece(q7, 4);
    assert(q7[4] == p4);
    lemma_holds_piece(q7, 5);
    assert(q7[5] == p5);
    lemma_holds_piece(q7, 6);
    assert(q7[6] == p6);
    lemma_holds_piece(q7, 7);
    assert(q7[7] == p7);
}

#[verifier::spinoff_prover]
#[verifier::rlimit(60)]
proof fn lemma_location(asset: JsonView)
    requires
        has_location(asset),
    ensures
        ({
            let e = exif(asset);
            let text = location_section(asset);
            &&& holds(text, "\nLocation\n"@)
            &&& holds(text, kv_opt("Latitude"@, number_at(e, "latitude"@)))
            &&& holds(text, kv_opt("Longitude"@, number_at(e, "longitude"@)))
            &&& holds(text, kv_opt("City"@, filled_at(e, "city"@)))
            &&& holds(text, kv_opt("State"@, filled_at(e, "state"@)))
            &&& holds(text, kv_opt("Country"@, filled_at(e, "country"@)))
            &&& holds(text, kv_opt("Latitude"@, number_at(e, "latitude"@)) + kv_opt("Longitude"@, number_at(e, "longitude"@)))
        }),
{
    let e = exif(asset);
    let text = location_section(asset);
    let p0 = "\nLocation\n"@;
    let p1 = kv_opt("Latitude"@, number_at(e, "latitude"@));
    let p2 = kv_opt("Longitude"@, number_at(e, "longitude"@));
    let p3 = kv_opt("City"@, filled_at(e, "city"@));
    let p4 = kv_opt("State"@, filled_at(e, "state"@));
    let p5 = kv_opt("Country"@, filled_at(e, "country"@));
    let q0 = seq![p0];
    assert(q0.drop_last() =~= Seq::<Seq<char>>::empty());
    assert(concat(q0.drop_last()) =~= Seq::<char>::empty());
    assert(concat(q0) =~= p0);
    let q1 = q0.push(p1);
    lemma_concat_push(q0, p1);
    let q2 = q1.push(p2);
    lemma_concat_push(q1, p2);
    let q3 = q2.push(p3);
    lemma_concat_push(q2, p3);
    let q4 = q3.push(p4);
    lemma_concat_push(q3, p4);
    let q5 = q4.push(p5);
    lemma_concat_push(q4, p5);
    assert(concat(q5) == text);
    lemma_holds_piece(q5, 0);
    assert(q5[0] == p0);
    lemma_holds_piece(q5, 1);
    assert(q5[1] == p1);
    lemma_holds_piece(q5, 2);
    assert(q5[2] == p2);
    lemma_holds_piece(q5, 3);
    assert(q5[3] == p3);
    lemma_holds_piece(q5, 4);
    assert(q5[4] == p4);
    lemma_holds_piece(q5, 5);
    assert(q5[5] == p5);
    assert(p0 + p1 + p2 =~= p0 + (p1 + p2));
    let more = p3 + p4 + p5;
    assert(text =~= p0 + (p1 + p2) + more);
    lemma_holds(p0, p1 + p2, more);
}

/// The coordinates of a photo are shown under their names, the latitude first, and so are
/// its city, state and country where they are not blank.
#[verifier::spinoff_prover]
#[verifier::rlimit(60)]
pub proof fn law_location_is_shown(
    asset: JsonView,
    e: JsonView,
    albums: JsonView,
    ocr: JsonView,
    percents: Seq<Option<String>>,
    x: Seq<char>,
    y: Seq<char>,
    m: Option<u64>,
    n: Option<u64>,
    t: Seq<char>,
)
    requires
        has_member(asset, "exifInfo"@, e),
    ensures
        ({
            let text = detail_text(asset, albums, ocr, percents);
            let latitude = has_member(e, "latitude"@, JsonView::Number { text: x, unsigned: m });
            let longitude = has_member(e, "longitude"@, JsonView::Number { text: y, unsigned: n });
            &&& latitude && longitude ==> holds(text, kv("Latitude"@, x) + kv("Longitude"@, y))
            &&& latitude ==> holds(text, kv("Latitude"@, x))
            &&& longitude ==> holds(text, kv("Longitude"@, y))
            &&& trim(t).len() > 0 && has_member(e, "city"@, JsonView::Text(t)) ==> holds(
                text,
                kv("City"@, trim(t)),
            )
            &&& trim(t).len() > 0 && latitude && has_member(e, "state"@, JsonView::Text(t))
                ==> holds(text, kv("State"@, trim(t)))
            &&& trim(t).len() > 0 && latitude && has_member(e, "country"@, JsonView::Text(t))
                ==> holds(text, kv("Country"@, trim(t)))
        }),
{
    law_members_by_name(asset, "exifInfo"@, e);
    lemma_number(e, "latitude"@, x, m);
    lemma_number(e, "longitude"@, y, n);
    lemma_text(e, "city"@, t);
    lemma_text(e, "state"@, t);
    lemma_text(e, "country"@, t);
    lemma_sections(asset, albums, ocr, percents);
    if has_location(asset) {
        lemma_location(asset);
        let text = detail_text(asset, albums, ocr, percents);
        let section = location_section(asset);
        lemma_holds_through(text, section, kv_opt("Latitude"@, number_at(e, "latitude"@)));
        lemma_holds_through(text, section, kv_opt("Longitude"@, number_at(e, "longitude"@)));
        lemma_holds_through(text, section, kv_opt("City"@, filled_at(e, "city"@)));
        lemma_holds_through(text, section, kv_opt("State"@, filled_at(e, "state"@)));
        lemma_holds_through(text, section, kv_opt("Country"@, filled_at(e, "country"@)));
        lemma_holds_through(text, section, kv_opt("Latitude"@, number_at(e, "latitude"@)) + kv_opt("Longitude"@, number_at(e, "longitude"@)));
    }
}

#[verifier::spinoff_prover]
#[verifier::rlimit(60)]
proof fn lemma_camera(asset: JsonView)
    requires
        has_camera(asset),
    ensures
        ({
            let e = exif(asset);
            let text = camera_section(asset);
            &&& holds(text, "\nCamera\n"@)
            &&& holds(text, kv_opt("Make"@, filled_at(e, "make"@)))
            &&& holds(text, kv_opt("Model"@, filled_at(e, "model"@)))
            &&& holds(text, kv_opt("Lens"@, filled_at(e, "lensModel"@)))
            &&& holds(text, kv_opt("Aperture"@, decorated("f/"@, number_at(e, "fNumber"@), Seq::empty())))
            &&& holds(text, kv_opt("Focal length"@, decorated(Seq::empty(), number_at(e, "focalLength"@), " mm"@)))
            &&& holds(text, kv_opt("ISO"@, number_at(e, "iso"@)))
            &&& holds(text, kv_opt("Exposure"@, filled_at(e, "exposureTime"@)))
            &&& holds(text, kv_opt("Orientation"@, filled_at(e, "orientation"@)))
            &&& holds(text, kv_opt("Projection"@, filled_at(e, "projectionType"@)))
        }),
{
    let e = exif(asset);
    let text = camera_section(asset);
    let p0 = "\nCamera\n"@;
    let p1 = kv_opt("Make"@, filled_at(e, "make"@));
    let p2 = kv_opt("Model"@, filled_at(e, "model"@));
    let p3 = kv_opt("Lens"@, filled_at(e, "lensModel"@));
    let p4 = kv_opt("Aperture"@, decorated("f/"@, number_at(e, "fNumber"@), Seq::empty()));
    let p5 = kv_opt("Focal length"@, decorated(Seq::empty(), number_at(e, "focalLength"@), " mm"@));
    let p6 = kv_opt("ISO"@, number_at(e, "iso"@));
    let p7 = kv_opt("Exposure"@, filled_at(e, "exposureTime"@));
    let p8 = kv_opt("Orientation"@, filled_at(e, "orientation"@));
    let p9 = kv_opt("Projection"@, filled_at(e, "projectionType"@));
    let q0 = seq![p0];
    assert(q0.drop_last() =~= Seq::<Seq<char>>::empty());
    assert(concat(q0.drop_last()) =~= Seq::<char>::empty());
    assert(concat(q0) =~= p0);
    let q1 = q0.push(p1);
    lemma_concat_push(q0, p1);
    let q2 = q1.push(p2);
    lemma_concat_push(q1, p2);
    let q3 = q2.push(p3);
    lemma_concat_push(q2, p3);
    let q4 = q3.push(p4);
    lemma_concat_push(q3, p4);
    let q5 = q4.push(p5);
    lemma_concat_push(q4, p5);
    let q6 = q5.push(p6);
    lemma_concat_push(q5, p6);
    let q7 = q6.push(p7);
    lemma_concat_push(q6, p7);
    let q8 = q7.push(p8);
    lemma_concat_push(q7, p8);
    let q9 = q8.push(p9);
    lemma_concat_push(q8, p9);
    assert(concat(q9) == text);
    lemma_holds_piece(q9, 0);
    assert(q9[0] == p0);
    lemma_holds_piece(q9, 1);
    assert(q9[1] == p1);
    lemma_holds_piece(q9, 2);
    assert(q9[2] == p2);
    lemma_holds_piece(q9, 3);
    assert(q9[3] == p3);
    lemma_holds_piece(q9, 4);
    assert(q9[4] == p4);
    lemma_holds_piece(q9, 5);
    assert(q9[5] == p5);
    lemma_holds_piece(q9, 6);
    assert(q9[6] == p6);
    lemma_holds_piece(q9, 7);
    assert(q9[7] == p7);
    lemma_holds_piece(q9, 8);
    assert(q9[8] == p8);
    lemma_holds_piece(q9, 9);
    assert(q9[9] == p9);
}

/// What is known of the camera is shown under its name: texts that are not blank, and the
/// numbers as they are, the aperture after `f/` and the focal length in millimetres.
#[verifier::spinoff_prover]
#[verifier::rlimit(60)]
pub proof fn law_camera_is_shown(
    asset: JsonView,
    e: JsonView,
    albums: JsonView,
    ocr: JsonView,
    percents: Seq<Option<String>>,
    t: Seq<char>,
    x: Seq<char>,
    n: Option<u64>,
)
    requires
        has_member(asset, "exifInfo"@, e),
    ensures
        ({
            let text = detail_text(asset, albums, ocr, percents);
            let number = JsonView::Number { text: x, unsigned: n };
            &&& trim(t).len() > 0 ==> {
                &&& has_member(e, "make"@, JsonView::Text(t)) ==> holds(text, kv("Make"@, trim(t)))
                &&& has_member(e, "model"@, JsonView::Text(t)) ==> holds(text, kv("Model"@, trim(t)))
                &&& has_member(e, "lensModel"@, JsonView::Text(t)) ==> holds(text, kv("Lens"@, trim(t)))
                &&& has_member(e, "exposureTime"@, JsonView::Text(t)) ==> holds(text, kv("Exposure"@, trim(t)))
                &&& has_member(e, "orientation"@, JsonView::Text(t)) ==> holds(text, kv("Orientation"@, trim(t)))
                &&& has_member(e, "projectionType"@, JsonView::Text(t)) && has_member(e, "iso"@, number)
                    ==> holds(text, kv("Projection"@, trim(t)))
            }
            &&& has_member(e, "fNumber"@, number) ==> holds(text, kv("Aperture"@, "f/"@ + x))
            &&& has_member(e, "focalLength"@, number) ==> holds(text, kv("Focal length"@, x + " mm"@))
            &&& has_member(e, "iso"@, number) ==> holds(text, kv("ISO"@, x))
        }),
{
    law_members_by_name(asset, "exifInfo"@, e);
    lemma_sections(asset, albums, ocr, percents);
    lemma_text(e, "make"@, t);
    lemma_text(e, "model"@, t);
    lemma_text(e, "lensModel"@, t);
    lemma_number(e, "fNumber"@, x, n);
    lemma_number(e, "focalLength"@, x, n);
    lemma_number(e, "iso"@, x, n);
    lemma_text(e, "exposureTime"@, t);
    lemma_text(e, "orientation"@, t);
    lemma_text(e, "projectionType"@, t);
    assert("f/"@ + x + Seq::<char>::empty() =~= "f/"@ + x);
    assert(Seq::<char>::empty() + x + " mm"@ =~= x + " mm"@);
    if has_camera(asset) {
        lemma_camera(asset);
        let text = detail_text(asset, albums, ocr, percents);
        let section = camera_section(asset);
        lemma_holds_through(text, section, kv_opt("Make"@, filled_at(e, "make"@)));
        lemma_holds_through(text, section, kv_opt("Model"@, filled_at(e, "model"@)));
        lemma_holds_through(text, section, kv_opt("Lens"@, filled_at(e, "lensModel"@)));
        lemma_holds_through(text, section, kv_opt("Aperture"@, decorated("f/"@, number_at(e, "fNumber"@), Seq::empty())));
        lemma_holds_through(text, section, kv_opt("Focal length"@, decorated(Seq::empty(), number_at(e, "focalLength"@), " mm"@)));
        lemma_holds_through(text, section, kv_opt("ISO"@, number_at(e, "iso"@)));
        lemma_holds_through(text, section, kv_opt("Exposure"@, filled_at(e, "exposureTime"@)));
        lemma_holds_through(text, section, kv_opt("Orientation"@, filled_at(e, "orientation"@)));
        lemma_holds_through(text, section, kv_opt("Projection"@, filled_at(e, "projectionType"@)));
    }
}

/// The file is shown with its type, its size in bytes, its dimensions and, for a video, its
/// duration. Dimensions stand in the asset, or else in its EXIF data; the width comes first.
#[verifier::spinoff_prover]
#[verifier::rlimit(60)]
pub proof fn law_file_is_shown(
    asset: JsonView,
    e: JsonView,
    albums: JsonView,
    ocr: JsonView,
    percents: Seq<Option<String>>,
    t: Seq<char>,
    x: Seq<char>,
    y: Seq<char>,
    m: u64,
    n: u64,
)
    requires
        has_member(asset, "exifInfo"@, e),
    ensures
        ({
            let text = detail_text(asset, albums, ocr, percents);
            let first = JsonView::Number { text: x, unsigned: Some(m) };
            let second = JsonView::Number { text: y, unsigned: Some(n) };
            let size = decimal(m as nat) + "x"@ + decimal(n as nat);
            &&& has_member(asset, "originalMimeType"@, JsonView::Text(t)) ==> holds(
                text,
                kv("MIME"@, t),
            )
            &&& has_member(e, "fileSizeInByte"@, first) ==> holds(
                text,
                kv("Size"@, size_text(m as nat) + " ("@ + decimal(m as nat) + " bytes)"@),
            )
            &&& has_member(asset, "width"@, first) && has_member(asset, "height"@, second) ==> holds(
                text,
                kv("Dimensions"@, size),
            )
            &&& member(asset, "width"@) is None && member(asset, "height"@) is None && has_member(
                e,
                "exifImageWidth"@,
                first,
            ) && has_member(e, "exifImageHeight"@, second) ==> holds(text, kv("Dimensions"@, size))
            &&& has_member(asset, "duration"@, JsonView::Text(t)) && t.len() > 0 && t
                != "0:00:00.00000"@ ==> holds(text, kv("Duration"@, t))
            &&& has_member(asset, "duration"@, JsonView::Text("0:00:00.00000"@)) ==> duration_line(
                asset,
            ).len() == 0
        }),
{
    law_members_by_name(asset, "exifInfo"@, e);
    lemma_sections(asset, albums, ocr, percents);
    lemma_text(asset, "originalMimeType"@, t);
    lemma_text(asset, "duration"@, t);
    lemma_text(asset, "duration"@, "0:00:00.00000"@);
    lemma_number(e, "fileSizeInByte"@, x, Some(m));
    lemma_number(asset, "width"@, x, Some(m));
    lemma_number(asset, "height"@, y, Some(n));
    lemma_number(e, "exifImageWidth"@, x, Some(m));
    lemma_number(e, "exifImageHeight"@, y, Some(n));
    let text = detail_text(asset, albums, ocr, percents);
    let section = file_section(asset);
    let p0 = "File\n"@;
    let p1 = kv_opt("MIME"@, text_at(asset, "originalMimeType"@));
    let p2 = size_line(asset);
    let p3 = dimensions_line(asset);
    let p4 = duration_line(asset);
    let q0 = seq![p0];
    assert(q0.drop_last() =~= Seq::<Seq<char>>::empty());
    assert(concat(q0.drop_last()) =~= Seq::<char>::empty());
    assert(concat(q0) =~= p0);
    let q1 = q0.push(p1);
    lemma_concat_push(q0, p1);
    let q2 = q1.push(p2);
    lemma_concat_push(q1, p2);
    let q3 = q2.push(p3);
    lemma_concat_push(q2, p3);
    let q4 = q3.push(p4);
    lemma_concat_push(q3, p4);
    assert(concat(q4) == section);
    lemma_holds_piece(q4, 0);
    assert(q4[0] == p0);
    lemma_holds_piece(q4, 1);
    assert(q4[1] == p1);
    lemma_holds_piece(q4, 2);
    assert(q4[2] == p2);
    lemma_holds_piece(q4, 3);
    assert(q4[3] == p3);
    lemma_holds_piece(q4, 4);
    assert(q4[4] == p4);
    lemma_holds_through(text, section, p1);
    lemma_holds_through(text, section, p2);
    lemma_holds_through(text, section, p3);
    lemma_holds_through(text, section, p4);
}

/// The time on the clock of the place is shown, with the time zone where one is known.
#[verifier::spinoff_prover]
#[verifier::rlimit(60)]
pub proof fn law_time_is_shown(
    asset: JsonView,
    e: JsonView,
    albums: JsonView,
    ocr: JsonView,
    percents: Seq<Option<String>>,
    t: Seq<char>,
    zone: Seq<char>,
)
    requires
        has_member(asset, "exifInfo"@, e),
        has_member(asset, "localDateTime"@, JsonView::Text(t)),
    ensures
        ({
            let text = detail_text(asset, albums, ocr, percents);
            &&& trim(zone).len() > 0 && has_member(e, "timeZone"@, JsonView::Text(zone)) ==> holds(
                text,
                kv("File created"@, readable_time(t) + " ("@ + trim(zone) + ")"@),
            )
            &&& member(e, "timeZone"@) is None ==> holds(text, kv("File created"@, readable_time(t)))
        }),
{
    law_members_by_name(asset, "exifInfo"@, e);
    lemma_sections(asset, albums, ocr, percents);
    lemma_text(asset, "localDateTime"@, t);
    lemma_text(e, "timeZone"@, zone);
    let text = detail_text(asset, albums, ocr, percents);
    let section = time_section(asset);
    let line = section.skip("\nTime\n"@.len() as int);
    assert(section =~= "\nTime\n"@ + line);
    lemma_holds("\nTime\n"@, line, Seq::empty());
    lemma_holds_through(text, section, line);
    if trim(zone).len() > 0 && has_member(e, "timeZone"@, JsonView::Text(zone)) {
        assert(line =~= kv("File created"@, readable_time(t) + " ("@ + trim(zone) + ")"@));
    }
    if member(e, "timeZone"@) is None {
        assert(line =~= kv("File created"@, readable_time(t)));
    }
}

#[verifier::spinoff_prover]
#[verifier::rlimit(60)]
proof fn lemma_list_in_section(title: Seq<char>, lines: Seq<Seq<char>>, rest: Seq<char>)
    ensures
        holds(title + list_lines(lines) + rest, title),
        lines.len() > 0 ==> holds(title + list_lines(lines) + rest, concat(lines)),
        lines.len() == 0 ==> holds(title + list_lines(lines) + rest, title + "  (none)\n"@),
{
    lemma_holds(Seq::empty(), title, list_lines(lines) + rest);
    assert(Seq::<char>::empty() + title + (list_lines(lines) + rest) =~= title + list_lines(lines)
        + rest);
    lemma_holds(title, list_lines(lines), rest);
    lemma_holds(Seq::empty(), title + list_lines(lines), rest);
    assert(Seq::<char>::empty() + (title + list_lines(lines)) + rest =~= title + list_lines(lines)
        + rest);
}

/// The people, the tags, the albums and the recognised texts are listed one by one in their
/// order, below a title with their number.
#[verifier::spinoff_prover]
#[verifier::rlimit(60)]
pub proof fn law_lists_are_shown(
    asset: JsonView,
    albums: Seq<JsonView>,
    ocr: Seq<JsonView>,
    percents: Seq<Option<String>>,
    items: Seq<JsonView>,
)
    ensures
        ({
            let text = detail_text(
                asset,
                JsonView::List(albums),
                JsonView::List(ocr),
                percents,
            );
            &&& has_member(asset, "people"@, JsonView::List(items)) ==> {
                &&& holds(text, "\nPeople ("@ + decimal(items.len()) + ")\n"@)
                &&& items.len() > 0 ==> holds(
                    text,
                    concat(items.map_values(|p: JsonView| person_line(p))),
                )
            }
            &&& has_member(asset, "tags"@, JsonView::List(items)) ==> {
                &&& holds(text, "\nTags ("@ + decimal(items.len()) + ")\n"@)
                &&& items.len() > 0 ==> holds(
                    text,
                    concat(items.map_values(|t: JsonView| tag_line(t))),
                )
            }
            &&& holds(text, "\nAlbums ("@ + decimal(albums.len()) + ")\n"@)
            &&& albums.len() > 0 ==> holds(
                text,
                concat(albums.map_values(|a: JsonView| album_line(a))),
            )
            &&& holds(text, "\nOCR ("@ + decimal(ocr.len()) + " regions)\n"@)
            &&& ocr.len() > 0 ==> holds(text, concat(ocr_lines(ocr, percents)))
            &&& ocr_lines(ocr, percents).len() == ocr.len()
            &&& has_member(asset, "unassignedFaces"@, JsonView::List(items)) ==> holds(
                text,
                kv("Unassigned faces"@, decimal(items.len())),
            )
        }),
{
    let text = detail_text(asset, JsonView::List(albums), JsonView::List(ocr), percents);
    lemma_sections(asset, JsonView::List(albums), JsonView::List(ocr), percents);
    law_members_by_name(asset, "people"@, JsonView::List(items));
    law_members_by_name(asset, "tags"@, JsonView::List(items));
    law_members_by_name(asset, "unassignedFaces"@, JsonView::List(items));
    lemma_titles(items.len(), ocr.len(), albums.len());
    let empty = Seq::<char>::empty();
    let people = items_of(at(asset, "people"@));
    let faces = kv("Unassigned faces"@, decimal(items_of(at(asset, "unassignedFaces"@)).len()));
    let title = counted_title("People"@, people.len(), ""@);
    let lines = people.map_values(|p: JsonView| person_line(p));
    lemma_list_in_section(title, lines, faces);
    lemma_holds(title + list_lines(lines), faces, empty);
    lemma_holds_through(text, people_section(asset), title);
    lemma_holds_through(text, people_section(asset), faces);
    if lines.len() > 0 {
        lemma_holds_through(text, people_section(asset), concat(lines));
    }
    let tags = items_of(at(asset, "tags"@));
    let title = counted_title("Tags"@, tags.len(), ""@);
    let lines = tags.map_values(|t: JsonView| tag_line(t));
    lemma_list_in_section(title, lines, empty);
    assert(title + list_lines(lines) + empty =~= tags_section(asset));
    lemma_holds_through(text, tags_section(asset), title);
    if lines.len() > 0 {
        lemma_holds_through(text, tags_section(asset), concat(lines));
    }
    let title = counted_title("Albums"@, albums.len(), ""@);
    let lines = albums.map_values(|a: JsonView| album_line(a));
    lemma_list_in_section(title, lines, empty);
    assert(title + list_lines(lines) + empty =~= albums_section(JsonView::List(albums)));
    lemma_holds_through(text, albums_section(JsonView::List(albums)), title);
    if lines.len() > 0 {
        lemma_holds_through(text, albums_section(JsonView::List(albums)), concat(lines));
    }
    let title = counted_title("OCR"@, ocr.len(), " regions"@);
    let lines = ocr_lines(ocr, percents);
    lemma_list_in_section(title, lines, empty);
    assert(title + list_lines(lines) + empty =~= ocr_section(JsonView::List(ocr), percents));
    lemma_holds_through(text, ocr_section(JsonView::List(ocr), percents), title);
    if lines.len() > 0 {
        lemma_holds_through(text, ocr_section(JsonView::List(ocr), percents), concat(lines));
    }
}

#[verifier::spinoff_prover]
#[verifier::rlimit(60)]
proof fn lemma_titles(n: nat, regions: nat, albums: nat)
    ensures
        counted_title("People"@, n, ""@) == "\nPeople ("@ + decimal(n) + ")\n"@,
        counted_title("Tags"@, n, ""@) == "\nTags ("@ + decimal(n) + ")\n"@,
        counted_title("Albums"@, albums, ""@) == "\nAlbums ("@ + decimal(albums) + ")\n"@,
        counted_title("OCR"@, regions, " regions"@) == "\nOCR ("@ + decimal(regions)
            + " regions)\n"@,
{
    reveal_strlit("");
    reveal_strlit("\n");
    reveal_strlit(" (");
    reveal_strlit(")\n");
    reveal_strlit("People");
    reveal_strlit("Tags");
    reveal_strlit("Albums");
    reveal_strlit("OCR");
    reveal_strlit(" regions");
    reveal_strlit("\nPeople (");
    reveal_strlit("\nTags (");
    reveal_strlit("\nAlbums (");
    reveal_strlit("\nOCR (");
    reveal_strlit(" regions)\n");
    assert("\nPeople ("@ =~= "\n"@ + "People"@ + " ("@);
    assert("\nTags ("@ =~= "\n"@ + "Tags"@ + " ("@);
    assert("\nAlbums ("@ =~= "\n"@ + "Albums"@ + " ("@);
    assert("\nOCR ("@ =~= "\n"@ + "OCR"@ + " ("@);
    assert(" regions)\n"@ =~= " regions"@ + ")\n"@);
    assert(counted_title("People"@, n, ""@) =~= "\nPeople ("@ + decimal(n) + ")\n"@);
    assert(counted_title("Tags"@, n, ""@) =~= "\nTags ("@ + decimal(n) + ")\n"@);
    assert(counted_title("Albums"@, albums, ""@) =~= "\nAlbums ("@ + decimal(albums) + ")\n"@);
    assert(counted_title("OCR"@, regions, " regions"@) =~= "\nOCR ("@ + decimal(regions)
        + " regions)\n"@);
}

/// A person is shown by name, with the id and the number of faces, and what else is known.
#[verifier::spinoff_prover]
#[verifier::rlimit(60)]
pub proof fn law_person_is_shown(
    p: JsonView,
    name: Seq<char>,
    id: Seq<char>,
    faces: Seq<JsonView>,
    birth: Seq<char>,
)
    requires
        has_member(p, "id"@, JsonView::Text(id)),
        has_member(p, "faces"@, JsonView::List(faces)),
    ensures
        ({
            let known = " (id="@ + id + ", faces="@ + decimal(faces.len());
            &&& has_member(p, "name"@, JsonView::Text(name)) && trim(name).len() > 0 ==> ("  - "@
                + trim(name) + known).is_prefix_of(person_line(p))
            &&& member(p, "name"@) is None ==> ("  - (unnamed)"@ + known).is_prefix_of(
                person_line(p),
            )
            &&& has_member(p, "birthDate"@, JsonView::Text(birth)) && trim(birth).len() > 0
                ==> holds(person_line(p), "birth="@ + trim(birth))
            &&& has_member(p, "isFavorite"@, JsonView::Bool(true)) ==> person_extras(p).contains(
                "favorite"@,
            ) && holds(person_line(p), "favorite"@)
            &&& has_member(p, "isHidden"@, JsonView::Bool(true)) ==> person_extras(p).contains(
                "hidden"@,
            ) && holds(person_line(p), "hidden"@)
        }),
{
    lemma_text(p, "id"@, id);
    lemma_text(p, "name"@, name);
    lemma_text(p, "birthDate"@, birth);
    law_members_by_name(p, "faces"@, JsonView::List(faces));
    law_members_by_name(p, "isFavorite"@, JsonView::Bool(true));
    law_members_by_name(p, "isHidden"@, JsonView::Bool(true));
    let extras = person_extras(p);
    lemma_person_head(p, id, faces.len());
    assert("  - (unnamed)"@ =~= "  - "@ + "(unnamed)"@) by {
        reveal_strlit("  - ");
        reveal_strlit("(unnamed)");
        reveal_strlit("  - (unnamed)");
    }
    let n = extras.len();
    if has_member(p, "birthDate"@, JsonView::Text(birth)) && trim(birth).len() > 0 {
        assert(extras[2] == "birth="@ + trim(birth));
        lemma_extra(p, 2);
    }
    if has_member(p, "isHidden"@, JsonView::Bool(true)) {
        assert(extras[n - 1] == "hidden"@);
        lemma_extra(p, n - 1);
    }
    if has_member(p, "isFavorite"@, JsonView::Bool(true)) {
        let k = if at(p, "isHidden"@) == JsonView::Bool(true) {
            n - 2
        } else {
            n - 1
        };
        assert(extras[k] == "favorite"@);
        lemma_extra(p, k);
    }
}

#[verifier::spinoff_prover]
#[verifier::rlimit(60)]
proof fn lemma_person_head(p: JsonView, id: Seq<char>, faces: nat)
    requires
        text_at(p, "id"@) == Some(id),
        items_of(at(p, "faces"@)).len() == faces,
    ensures
        ("  - "@ + or_else(filled_at(p, "name"@), "(unnamed)"@) + (" (id="@ + id + ", faces="@
            + decimal(faces))).is_prefix_of(person_line(p)),
{
    let extras = person_extras(p);
    let e0 = "id="@ + id;
    let e1 = "faces="@ + decimal(faces);
    let front = seq![e0, e1];
    let back = extras.skip(2);
    assert(extras =~= front + back);
    law_join_keeps_order(front, back, ", "@);
    law_join_keeps_order(seq![e0], seq![e1], ", "@);
    law_join_keeps_order(seq![e1], Seq::empty(), ", "@);
    assert(seq![e0] + seq![e1] =~= front);
    let start = e0 + ", "@ + e1;
    assert(join(front, ", "@) == start);
    let all = join(extras, ", "@);
    let rest = all.skip(start.len() as int);
    assert(all =~= start + rest) by {
        assert(all.take(start.len() as int) =~= start);
    }
    let named = "  - "@ + or_else(filled_at(p, "name"@), "(unnamed)"@);
    let known = " (id="@ + id + ", faces="@ + decimal(faces);
    lemma_known(id, decimal(faces));
    assert(known == " ("@ + start);
    let head = named + known;
    lemma_sum_assoc(named, " ("@, start + rest);
    lemma_sum_assoc(" ("@, start, rest);
    lemma_sum_assoc(named, known, rest);
    assert(named + " ("@ + all == head + rest);
    lemma_sum_assoc(head, rest, ")\n"@);
    let line = person_line(p);
    assert(line == head + (rest + ")\n"@));
    assert(line.take(head.len() as int) =~= head);
}

#[verifier::spinoff_prover]
#[verifier::rlimit(60)]
proof fn lemma_known(id: Seq<char>, faces: Seq<char>)
    ensures
        " (id="@ + id + ", faces="@ + faces == " ("@ + ("id="@ + id + ", "@ + ("faces="@ + faces)),
{
    assert(" (id="@ =~= " ("@ + "id="@) by {
        reveal_strlit(" (");
        reveal_strlit("id=");
        reveal_strlit(" (id=");
    }
    assert(", faces="@ =~= ", "@ + "faces="@) by {
        reveal_strlit(", ");
        reveal_strlit("faces=");
        reveal_strlit(", faces=");
    }
    let x = "id="@ + id;
    lemma_sum_assoc(" ("@, "id="@, id);
    lemma_sum_assoc(" ("@ + x, ", "@, "faces="@);
    lemma_sum_assoc(" ("@ + x + ", "@, "faces="@, faces);
    lemma_sum_assoc(" ("@, x, ", "@);
    lemma_sum_assoc(" ("@, x + ", "@, "faces="@ + faces);
}

#[verifier::spinoff_prover]
#[verifier::rlimit(60)]
proof fn lemma_extra(p: JsonView, k: int)
    requires
        0 <= k < person_extras(p).len(),
    ensures
        holds(person_line(p), person_extras(p)[k]),
{
    let extras = person_extras(p);
    let shown = or_else(filled_at(p, "name"@), "(unnamed)"@);
    lemma_holds_joined(extras, ", "@, k);
    lemma_holds_within("  - "@ + shown + " ("@, join(extras, ", "@), ")\n"@, extras[k]);
}

/// A tag is shown by its value, an album by its name, id and number of assets, and a
/// recognised text by its score, if there is one, and its words; one that is not visible is
/// marked.
#[verifier::spinoff_prover]
#[verifier::rlimit(60)]
pub proof fn law_items_are_shown(
    item: JsonView,
    t: Seq<char>,
    id: Seq<char>,
    x: Seq<char>,
    n: u64,
    percent: Option<Seq<char>>,
)
    ensures
        has_member(item, "value"@, JsonView::Text(t)) ==> tag_line(item) == "  - "@ + t + "\n"@,
        member(item, "value"@) is None && has_member(item, "name"@, JsonView::Text(t)) ==> tag_line(
            item,
        ) == "  - "@ + t + "\n"@,
        has_member(item, "albumName"@, JsonView::Text(t)) && has_member(
            item,
            "id"@,
            JsonView::Text(id),
        ) && has_member(item, "assetCount"@, JsonView::Number { text: x, unsigned: Some(n) })
            ==> album_line(item) == "  - "@ + t + " (id="@ + id + ", assets="@ + decimal(n as nat)
            + ")\n"@,
        has_member(item, "text"@, JsonView::Text(t)) && trim(t).len() > 0 ==> {
            let shown = if percent is Some {
                "  - ["@ + pad_start(percent->0, 3) + "%] "@ + trim(t)
            } else {
                "  - "@ + trim(t)
            };
            &&& has_member(item, "isVisible"@, JsonView::Bool(false)) ==> ocr_line(item, percent)
                == shown + " (hidden)\n"@
            &&& has_member(item, "isVisible"@, JsonView::Bool(true)) || member(
                item,
                "isVisible"@,
            ) is None ==> ocr_line(item, percent) == shown + "\n"@
        },
{
    lemma_text(item, "value"@, t);
    lemma_text(item, "name"@, t);
    lemma_text(item, "albumName"@, t);
    lemma_text(item, "id"@, id);
    lemma_text(item, "text"@, t);
    lemma_number(item, "assetCount"@, x, Some(n));
    law_members_by_name(item, "isVisible"@, JsonView::Bool(false));
    law_members_by_name(item, "isVisible"@, JsonView::Bool(true));
    reveal_strlit("  - ");
    reveal_strlit("[");
    reveal_strlit("  - [");
    reveal_strlit(" (hidden)");
    reveal_strlit("\n");
    reveal_strlit(" (hidden)\n");
    assert("  - ["@ =~= "  - "@ + "["@);
    assert(" (hidden)\n"@ =~= " (hidden)"@ + "\n"@);
    if has_member(item, "text"@, JsonView::Text(t)) && trim(t).len() > 0 {
        let shown = if percent is Some {
            "  - ["@ + pad_start(percent->0, 3) + "%] "@ + trim(t)
        } else {
            "  - "@ + trim(t)
        };
        assert("  - "@ + score_text(percent) + trim(t) =~= shown);
        assert(ocr_line(item, percent) =~= shown + (if at(item, "isVisible"@) == JsonView::Bool(
            false,
        ) {
            " (hidden)"@
        } else {
            Seq::empty()
        }) + "\n"@);
        assert(shown + Seq::<char>::empty() + "\n"@ =~= shown + "\n"@);
        assert(shown + " (hidden)"@ + "\n"@ =~= shown + " (hidden)\n"@);
    }
}

/// Each recognised text is shown with its own score.
#[verifier::spinoff_prover]
#[verifier::rlimit(60)]
pub proof fn law_scores_go_with_their_texts(
    ocr: Seq<JsonView>,
    percents: Seq<Option<String>>,
    i: int,
)
    requires
        0 <= i < ocr.len(),
        percents.len() == ocr.len(),
    ensures
        ocr_lines(ocr, percents)[i] == ocr_line(ocr[i], opt_text(percents[i])),
{
}

// ---- the JSON ---------------------------------------------------------------

/// What is asked for as JSON is the detail with these members and no others, each with its
/// value; of the EXIF data likewise.
#[verifier::spinoff_prover]
#[verifier::rlimit(60)]
pub proof fn law_json_keeps_its_members(asset: JsonView, key: Seq<char>, value: JsonView)
    ensures
        has_member(asset, key, value) && (key == "localPath"@ || key == "albums"@ || key == "ocr"@
            || key == "localDateTime"@ || key == "originalMimeType"@ || key == "width"@ || key
            == "height"@ || key == "duration"@ || key == "people"@ || key == "unassignedFaces"@
            || key == "tags"@) ==> has_member(pruned(asset), key, value),
        has_member(pruned(asset), key, value) ==> key == "localPath"@ || key == "albums"@ || key
            == "ocr"@ || key == "localDateTime"@ || key == "originalMimeType"@ || key == "width"@
            || key == "height"@ || key == "duration"@ || key == "people"@ || key
            == "unassignedFaces"@ || key == "tags"@ || key == "exifInfo"@,
{
    if let JsonView::Fields(fields) = asset {
        if is_kept(key) {
            lemma_kept_member(fields, key);
        }
        law_members_by_name(asset, key, value);
        law_members_by_name(pruned(asset), key, value);
        if key != "exifInfo"@ {
            assert(pruned_value(key, value) == value);
        }
        if has_member(pruned(asset), key, value) {
            crate::commands::info::prune::law_only_kept_fields_remain(asset);
            let k = choose|k: int| #[trigger] first_at(pruned_fields(fields), key, value, k);
            assert(is_kept(pruned_fields(fields)[k].0));
        }
        if has_member(asset, key, value) && (key == "localPath"@ || key == "albums"@ || key
            == "ocr"@ || key == "localDateTime"@ || key == "originalMimeType"@ || key == "width"@
            || key == "height"@ || key == "duration"@ || key == "people"@ || key
            == "unassignedFaces"@ || key == "tags"@) {
            assert(key != "exifInfo"@) by {
                reveal_strlit("exifInfo");
                reveal_strlit("localPath");
                reveal_strlit("albums");
                reveal_strlit("ocr");
                reveal_strlit("localDateTime");
                reveal_strlit("originalMimeType");
                reveal_strlit("width");
                reveal_strlit("height");
                reveal_strlit("duration");
                reveal_strlit("people");
                reveal_strlit("unassignedFaces");
                reveal_strlit("tags");
                assert("exifInfo"@[0] == 'e');
                assert("localPath"@[0] == 'l' && "albums"@[0] == 'a' && "ocr"@[0] == 'o');
                assert("localDateTime"@[0] == 'l' && "originalMimeType"@[0] == 'o');
                assert("width"@[0] == 'w' && "height"@[0] == 'h' && "duration"@[0] == 'd');
                assert("people"@[0] == 'p' && "unassignedFaces"@[0] == 'u' && "tags"@[0] == 't');
            }
        }
    }
}

/// The EXIF data keep what the text shows.
#[verifier::spinoff_prover]
#[verifier::rlimit(60)]
pub proof fn law_json_keeps_its_exif_members(
    asset: JsonView,
    fields: Seq<(Seq<char>, JsonView)>,
    key: Seq<char>,
    value: JsonView,
)
    requires
        has_member(asset, "exifInfo"@, JsonView::Fields(fields)),
    ensures
        has_member(pruned(asset), "exifInfo"@, JsonView::Fields(pruned_exif(fields))),
        has_member(JsonView::Fields(fields), key, value) && (key == "timeZone"@ || key
            == "latitude"@ || key == "longitude"@ || key == "city"@ || key == "state"@ || key
            == "country"@ || key == "make"@ || key == "model"@ || key == "lensModel"@ || key
            == "fNumber"@ || key == "focalLength"@ || key == "iso"@ || key == "exposureTime"@
            || key == "orientation"@ || key == "projectionType"@ || key == "fileSizeInByte"@)
            ==> has_member(JsonView::Fields(pruned_exif(fields)), key, value),
{
    if let JsonView::Fields(outer) = asset {
        lemma_kept_member(outer, "exifInfo"@);
        law_members_by_name(asset, "exifInfo"@, JsonView::Fields(fields));
        law_members_by_name(pruned(asset), "exifInfo"@, JsonView::Fields(pruned_exif(fields)));
        if is_kept_exif(key) {
            lemma_exif_member(fields, key);
        }
        law_members_by_name(JsonView::Fields(fields), key, value);
        law_members_by_name(JsonView::Fields(pruned_exif(fields)), key, value);
    }
}

/// The format decides what is printed: the document, or the text.
#[verifier::spinoff_prover]
#[verifier::rlimit(60)]
pub proof fn law_format_decides(bundle: InfoBundle, percents: Seq<Option<String>>)
    ensures
        reported(bundle, OutputFormat::Json, percents) == ReportView::Document(
            pruned(bundle.asset@),
        ),
        reported(bundle, OutputFormat::Text, percents) == ReportView::Text(
            detail_text(bundle.asset@, bundle.albums@, bundle.ocr@, percents),
        ),
{
}

// ---- finding the asset ------------------------------------------------------

/// A path below the home directory, a path from the root and a relative path are all made
/// absolute.
#[verifier::spinoff_prover]
#[verifier::rlimit(60)]
pub proof fn law_paths_are_made_absolute(
    rel: Seq<char>,
    home: Seq<char>,
    cwd: Seq<char>,
    r: Result<String, Error>,
)
    requires
        rel.len() > 0,
        rel[0] != '/',
        rel[0] != '~',
        home.len() > 0 && home[0] == '/' && home.last() != '/',
        cwd.len() > 0 && cwd[0] == '/' && cwd.last() != '/',
    ensures
        resolved_path("~/"@ + rel, Some(home), Ok(cwd), r) ==> r is Ok && r->Ok_0@ == home + "/"@
            + rel,
        resolved_path("/"@ + rel, Some(home), Ok(cwd), r) ==> r is Ok && r->Ok_0@ == "/"@ + rel,
        resolved_path(rel, Some(home), Ok(cwd), r) ==> r is Ok && r->Ok_0@ == cwd + "/"@ + rel,
{
    reveal_strlit("~/");
    reveal_strlit("~");
    reveal_strlit("/");
    let tilde = "~/"@ + rel;
    assert("~/"@ =~= tilde.subrange(0, 2));
    assert(tilde.skip(2) =~= rel);
    assert(home + seq!['/'] + rel =~= home + "/"@ + rel);
    assert(cwd + seq!['/'] + rel =~= cwd + "/"@ + rel);
    let root = "/"@ + rel;
    assert(root[0] == '/');
    assert(!"~/"@.is_prefix_of(root)) by {
        assert("~/"@[0] == '~');
    }
    assert(!"~/"@.is_prefix_of(rel)) by {
        assert("~/"@[0] == '~');
    }
    assert(root != "~"@);
    assert(rel != "~"@) by {
        assert("~"@[0] == '~');
    }
}

/// A file is searched for by its name: what follows the last slash of its path.
#[verifier::spinoff_prover]
#[verifier::rlimit(60)]
pub proof fn law_file_is_searched_by_name(dir: Seq<char>, name: Seq<char>)
    requires
        name.len() > 0,
        !name.contains('/'),
        name != "."@,
        name != ".."@,
    ensures
        file_name_of(dir + "/"@ + name) == Some(name),
        ({
            let r = name_request(name);
            &&& r.original_file_name == Some(name)
            &&& r.size == Some(250u32)
            &&& r.query is None && r.description is None && r.ocr is None && r.page is None
            &&& r.city is None && r.state is None && r.country is None
            &&& r.taken_after is None && r.taken_before is None
            &&& r.asset_type is None && r.visibility is None
        }),
{
    reveal_strlit("/");
    reveal_strlit(".");
    let path = dir + "/"@ + name;
    let n = path.len();
    assert(path.last() == name.last());
    assert(name.contains(name.last()));
    crate::text::law_split_at_the_last(path, '/');
    let tail = from_last(path, '/');
    assert(path[dir.len() as int] == '/');
    let head = crate::text::up_to_last(path, '/');
    assert(path == head.push('/') + tail);
    if head.len() < dir.len() {
        assert(path[dir.len() as int] == tail[dir.len() - head.len() - 1]);
        assert(tail.contains('/'));
    } else if head.len() > dir.len() {
        assert(path[head.len() as int] == '/');
        assert(path[head.len() as int] == name[head.len() - dir.len() - 1]);
        assert(name.contains('/'));
    }
    assert(tail =~= name) by {
        assert(tail =~= path.skip(head.len() as int + 1));
        assert(name =~= path.skip(dir.len() as int + 1));
    }
    if n >= 2 && path.last() == '.' && path[n - 2] == '/' {
        if name.len() >= 2 {
            assert(path[n - 2] == name[name.len() - 2]);
            assert(name.contains(name[name.len() - 2]));
        } else {
            assert(name =~= "."@);
        }
    }
    assert(last_component(path) == name);
}

/// The asset is the one that lies at the path; none, or more than one, is an error.
#[verifier::spinoff_prover]
#[verifier::rlimit(60)]
pub proof fn law_asset_lies_at_the_path(
    items: Seq<Asset>,
    path: Seq<char>,
    name: Seq<char>,
    r: Result<String, Error>,
    k: int,
)
    requires
        only_match(items, path, name, r),
    ensures
        0 <= k < items.len() && items[k].original_path@ == path && (forall|j: int|
            0 <= j < items.len() && j != k ==> (#[trigger] items[j]).original_path@ != path)
            ==> r is Ok && r->Ok_0@ == items[k].id@,
        r is Ok ==> exists|i: int|
            0 <= i < items.len() && (#[trigger] items[i]).original_path@ == path && items[i].id@
                == r->Ok_0@ && forall|j: int|
                0 <= j < items.len() && j != i ==> (#[trigger] items[j]).original_path@ != path,
{
    lemma_matches(items, path);
    let found = matches_at(items, path);
    if 0 <= k < items.len() && items[k].original_path@ == path && (forall|j: int|
        0 <= j < items.len() && j != k ==> (#[trigger] items[j]).original_path@ != path) {
        assert(found.contains(k));
        let x = choose|x: int| 0 <= x < found.len() && found[x] == k;
        if found.len() >= 2 {
            let y = if x == 0 {
                1int
            } else {
                0int
            };
            assert(found.contains(found[y]));
            assert(found[y] != found[x]);
            assert(items[found[y]].original_path@ == path);
        }
    }
    if r is Ok {
        let i = found[0];
        assert(found.contains(i));
        assert forall|j: int| 0 <= j < items.len() && j != i implies (
        #[trigger] items[j]).original_path@ != path by {
            if items[j].original_path@ == path {
                assert(found.contains(j));
                let x = choose|x: int| 0 <= x < found.len() && found[x] == j;
            }
        }
        assert(items[i].original_path@ == path);
    }
}

#[verifier::spinoff_prover]
#[verifier::rlimit(60)]
proof fn lemma_matches(items: Seq<Asset>, path: Seq<char>)
    ensures
        forall|i: int| #[trigger]
            matches_at(items, path).contains(i) == (0 <= i < items.len()
                && items[i].original_path@ == path),
        forall|a: int, b: int|
            0 <= a < b < matches_at(items, path).len() ==> #[trigger] matches_at(items, path)[a]
                < #[trigger] matches_at(items, path)[b],
    decreases items.len(),
{
    if items.len() > 0 {
        let past = items.drop_last();
        let before = matches_at(past, path);
        let now = matches_at(items, path);
        lemma_matches(past, path);
        assert forall|i: int| #[trigger] now.contains(i) == (0 <= i < items.len()
            && items[i].original_path@ == path) by {
            assert(before.contains(i) == (0 <= i < past.len() && past[i].original_path@ == path));
            if now.contains(i) {
                let k = choose|k: int| 0 <= k < now.len() && now[k] == i;
                if k < before.len() {
                    assert(before[k] == i);
                }
            }
            if before.contains(i) {
                let k = choose|k: int| 0 <= k < before.len() && before[k] == i;
                assert(now[k] == i);
            }
            if i == items.len() - 1 && items[i].original_path@ == path {
                assert(now[now.len() - 1] == i);
            }
        }
        assert forall|a: int, b: int| 0 <= a < b < now.len() implies #[trigger] now[a]
            < #[trigger] now[b] by {
            assert(now[a] == before[a]);
            if b < before.len() {
                assert(now[b] == before[b]);
            } else {
                assert(before.contains(before[a]));
            }
        }
    }
}

/// The detail of an asset gets the local path, the albums and the recognised text as members
/// of these names, and keeps all others.
#[verifier::spinoff_prover]
#[verifier::rlimit(60)]
pub proof fn law_detail_is_augmented(
    fields: Seq<(Seq<char>, JsonView)>,
    local: Seq<char>,
    albums: JsonView,
    ocr: JsonView,
    key: Seq<char>,
    value: JsonView,
)
    ensures
        ({
            let doc = augmented(JsonView::Fields(fields), local, albums, ocr);
            &&& has_member(doc, "localPath"@, JsonView::Text(local))
            &&& has_member(doc, "albums"@, albums)
            &&& has_member(doc, "ocr"@, ocr)
            &&& has_member(JsonView::Fields(fields), key, value) && key != "localPath"@ && key
                != "albums"@ && key != "ocr"@ ==> has_member(doc, key, value)
        }),
{
    let one = with_member(fields, "localPath"@, JsonView::Text(local));
    let two = with_member(one, "albums"@, albums);
    let three = with_member(two, "ocr"@, ocr);
    let doc = JsonView::Fields(three);
    assert("localPath"@ != "albums"@ && "localPath"@ != "ocr"@ && "albums"@ != "ocr"@) by {
        reveal_strlit("localPath");
        reveal_strlit("albums");
        reveal_strlit("ocr");
        assert("localPath"@[0] == 'l' && "albums"@[0] == 'a' && "ocr"@[0] == 'o');
    }
    lemma_with_member(fields, "localPath"@, JsonView::Text(local), "localPath"@);
    lemma_with_member(one, "albums"@, albums, "localPath"@);
    lemma_with_member(two, "ocr"@, ocr, "localPath"@);
    lemma_with_member(one, "albums"@, albums, "albums"@);
    lemma_with_member(two, "ocr"@, ocr, "albums"@);
    lemma_with_member(two, "ocr"@, ocr, "ocr"@);
    lemma_with_member(fields, "localPath"@, JsonView::Text(local), key);
    lemma_with_member(one, "albums"@, albums, key);
    lemma_with_member(two, "ocr"@, ocr, key);
    law_members_by_name(doc, "localPath"@, JsonView::Text(local));
    law_members_by_name(doc, "albums"@, albums);
    law_members_by_name(doc, "ocr"@, ocr);
    law_members_by_name(JsonView::Fields(fields), key, value);
    law_members_by_name(doc, key, value);
}

#[verifier::spinoff_prover]
#[verifier::rlimit(60)]
proof fn lemma_with_member(
    fields: Seq<(Seq<char>, JsonView)>,
    key: Seq<char>,
    value: JsonView,
    name: Seq<char>,
)
    ensures
        first_member(with_member(fields, key, value), name) == if name == key {
            Some(value)
        } else {
            first_member(fields, name)
        },
    decreases fields.len(),
{
    let now = with_member(fields, key, value);
    if fields.len() == 0 {
        assert(now.drop_first() =~= Seq::<(Seq<char>, JsonView)>::empty());
        assert(first_member(now.drop_first(), name) is None);
    } else if fields[0].0 == key {
        assert(now.drop_first() =~= fields.drop_first());
        assert(now[0] == (key, value));
    } else {
        lemma_with_member(fields.drop_first(), key, value, name);
        assert(now.drop_first() =~= with_member(fields.drop_first(), key, value));
        assert(now[0] == fields[0]);
    }
}

/// What is shown of a local file is the detail of the asset that lies at its server path.
#[verifier::spinoff_prover]
#[verifier::rlimit(60)]
pub proof fn law_lookup_goes_by_the_path<S: SearchBackend, I: InfoBackend>(
    path_map: Seq<PathMapEntry>,
    search: &S,
    info: &I,
    local: Seq<char>,
    bundle: InfoBundle,
) -> (r: (SearchResponse, int, Json))
    requires
        looked_up(path_map, search, info, local, Ok(bundle)),
    ensures
        server_of(local, path_map) is Some,
        0 <= r.1 < r.0.assets.items@.len(),
        r.0.assets.items@[r.1].original_path@ == server_of(local, path_map)->0,
        file_name_of(server_of(local, path_map)->0) is Some,
        search_reply(
            search,
            name_request(file_name_of(server_of(local, path_map)->0)->0),
            Ok(r.0),
        ),
        detail_reply(info, r.0.assets.items@[r.1].id@, Ok(r.2)),
        bundle.asset@ == augmented(r.2@, local, bundle.albums@, bundle.ocr@),
{
    let server = server_of(local, path_map)->0;
    let found = choose|found: Result<String, Error>| #[trigger]
        asset_found(search, server, found) && (found matches Ok(id) && detail_fetched(
            info,
            id@,
            local,
            Ok(bundle),
        ));
    let id = found->Ok_0;
    let name = file_name_of(server)->0;
    let reply = choose|reply: Result<SearchResponse, Error>| #[trigger]
        search_reply(search, name_request(name), reply) && (reply matches Ok(page) && only_match(
            page.assets.items@,
            server,
            name,
            Ok(id),
        ));
    let page = reply->Ok_0;
    law_asset_lies_at_the_path(page.assets.items@, server, name, Ok(id), 0);
    let items = page.assets.items@;
    let i = choose|i: int|
        0 <= i < items.len() && (#[trigger] items[i]).original_path@ == server && items[i].id@
            == id@;
    let detail = choose|detail: Result<Json, Error>| #[trigger]
        detail_reply(info, id@, detail) && (detail matches Ok(asset) && bundle.asset@ == augmented(
            asset@,
            local,
            bundle.albums@,
            bundle.ocr@,
        ));
    (page, i, detail->Ok_0)
}

/// What is not known is not shown: without coordinates and city there is no location, without
/// any fact about the camera there is no camera, and a fact that is missing has no line.
#[verifier::spinoff_prover]
#[verifier::rlimit(60)]
pub proof fn law_nothing_is_made_up(asset: JsonView, e: JsonView, key: Seq<char>)
    requires
        has_member(asset, "exifInfo"@, e),
    ensures
        member(e, "latitude"@) is None && member(e, "longitude"@) is None && member(e, "city"@)
            is None ==> location_section(asset).len() == 0,
        member(e, "make"@) is None && member(e, "model"@) is None && member(e, "lensModel"@) is None
            && member(e, "fNumber"@) is None && member(e, "focalLength"@) is None && member(
            e,
            "iso"@,
        ) is None && member(e, "exposureTime"@) is None && member(e, "orientation"@) is None
            ==> camera_section(asset).len() == 0,
        kv_opt(key, None).len() == 0,
        member(e, "fileSizeInByte"@) is None ==> size_line(asset).len() == 0,
        member(asset, "duration"@) is None ==> duration_line(asset).len() == 0,
        member(asset, "localDateTime"@) is None ==> time_section(asset) == "\nTime\n"@,
{
    law_members_by_name(asset, "exifInfo"@, e);
    assert("\nTime\n"@ + Seq::<char>::empty() =~= "\nTime\n"@);
}

/// The sections follow each other in this order, and the text is nothing else.
#[verifier::spinoff_prover]
#[verifier::rlimit(60)]
pub proof fn law_text_is_its_sections(
    asset: JsonView,
    albums: JsonView,
    ocr: JsonView,
    percents: Seq<Option<String>>,
)
    ensures
        detail_text(asset, albums, ocr, percents) == concat(
            seq![
                file_section(asset),
                time_section(asset),
                location_section(asset),
                camera_section(asset),
                people_section(asset),
                tags_section(asset),
                ocr_section(ocr, percents),
                albums_section(albums),
            ],
        ),
{
    let q0 = Seq::<Seq<char>>::empty();
    let q1 = q0.push(file_section(asset));
    let q2 = q1.push(time_section(asset));
    let q3 = q2.push(location_section(asset));
    let q4 = q3.push(camera_section(asset));
    let q5 = q4.push(people_section(asset));
    let q6 = q5.push(tags_section(asset));
    let q7 = q6.push(ocr_section(ocr, percents));
    let q8 = q7.push(albums_section(albums));
    lemma_concat_push(q0, file_section(asset));
    assert(concat(q0) + file_section(asset) =~= file_section(asset));
    lemma_concat_push(q1, time_section(asset));
    lemma_concat_push(q2, location_section(asset));
    lemma_concat_push(q3, camera_section(asset));
    lemma_concat_push(q4, people_section(asset));
    lemma_concat_push(q5, tags_section(asset));
    lemma_concat_push(q6, ocr_section(ocr, percents));
    lemma_concat_push(q7, albums_section(albums));
    assert(q8 =~= seq![
        file_section(asset),
        time_section(asset),
        location_section(asset),
        camera_section(asset),
        people_section(asset),
        tags_section(asset),
        ocr_section(ocr, percents),
        albums_section(albums),
    ]);
}

/// The albums and the recognised text are those that the server gave for the asset, and an
/// empty list where it gave none.
#[verifier::spinoff_prover]
#[verifier::rlimit(60)]
pub proof fn law_albums_and_text_are_the_servers<I: InfoBackend>(
    info: &I,
    id: Seq<char>,
    local: Seq<char>,
    bundle: InfoBundle,
) -> (r: (Result<Json, Error>, Result<Json, Error>))
    requires
        detail_fetched(info, id, local, Ok(bundle)),
    ensures
        albums_reply(info, id, r.0),
        ocr_reply(info, id, r.1),
        r.0 matches Ok(doc) ==> bundle.albums@ == doc@,
        r.0 is Err ==> bundle.albums@ == JsonView::List(Seq::empty()),
        r.1 matches Ok(doc) ==> bundle.ocr@ == doc@,
        r.1 is Err ==> bundle.ocr@ == JsonView::List(Seq::empty()),
{
    let detail = choose|detail: Result<Json, Error>| #[trigger]
        detail_reply(info, id, detail) && (detail matches Ok(asset) && exists|
            albums: Result<Json, Error>,
            ocr: Result<Json, Error>,
        |
            #[trigger] albums_reply(info, id, albums) && #[trigger] ocr_reply(info, id, ocr)
                && bundle.albums@ == or_empty_list(albums) && bundle.ocr@ == or_empty_list(ocr));
    let (albums, ocr) = choose|albums: Result<Json, Error>, ocr: Result<Json, Error>|
        #[trigger] albums_reply(info, id, albums) && #[trigger] ocr_reply(info, id, ocr)
            && bundle.albums@ == or_empty_list(albums) && bundle.ocr@ == or_empty_list(ocr);
    (albums, ocr)
}

/// Each recognised text has the score that the server gave for it.
#[verifier::spinoff_prover]
#[verifier::rlimit(60)]
pub proof fn law_scores_are_the_servers(ocr: Seq<JsonView>, i: int, x: Seq<char>, n: Option<u64>)
    requires
        0 <= i < ocr.len(),
    ensures
        score_numbers(JsonView::List(ocr)).len() == ocr.len(),
        has_member(ocr[i], "textScore"@, JsonView::Number { text: x, unsigned: n })
            ==> score_numbers(JsonView::List(ocr))[i] == Some(x),
        member(ocr[i], "textScore"@) is None ==> score_numbers(JsonView::List(ocr))[i] is None,
{
    lemma_number(ocr[i], "textScore"@, x, n);
}

// ---- the functions themselves -----------------------------------------------

/// What is printed of an asset is its detail, as text or pruned.
#[verifier::spinoff_prover]
#[verifier::rlimit(60)]
pub proof fn law_output_is_the_detail(
    asset: &Json,
    albums: &Json,
    ocr: &Json,
    percents: &Vec<Option<String>>,
    text: String,
    doc: Json,
)
    requires
        call_ensures(emit_text, (asset, albums, ocr, percents), text),
        call_ensures(prune_for_json, (asset,), doc),
    ensures
        text@ == detail_text(asset@, albums@, ocr@, percents@),
        doc@ == pruned(asset@),
{
}

/// Looking a local file up comes to what is said of it.
#[verifier::spinoff_prover]
#[verifier::rlimit(60)]
pub proof fn law_looking_up_comes_to<S: SearchBackend, I: InfoBackend>(
    path_map: &Vec<PathMapEntry>,
    search: &S,
    info: &I,
    local: &str,
    r: Result<InfoBundle, Error>,
)
    requires
        call_ensures(run_with::<S, I>, (path_map, search, info, local), r),
    ensures
        looked_up(path_map@, search, info, local@, r),
        server_of(local@, path_map@) is None ==> r is Err,
{
}

/// A file outside of the mapped directories needs leave for nothing: nobody is asked.
#[verifier::spinoff_prover]
#[verifier::rlimit(60)]
pub proof fn law_unmapped_files_ask_nobody<S: SearchBackend, I: InfoBackend>(
    path_map: Seq<PathMapEntry>,
    search: &S,
    info: &I,
    local: Seq<char>,
)
    requires
        server_of(local, path_map) is None,
    ensures
        lookup_allowed(path_map, search, info, local),
{
}

} // verus!
