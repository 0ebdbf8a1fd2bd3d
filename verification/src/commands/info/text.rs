//! The detail of an asset as structured text.
use crate::json::{lemma_list_view, member, Json, JsonView};
use crate::moments::{humanize_naive_iso, readable_time};
use crate::sizes::{human_size, size_text};
use crate::text::{
    append_padded, blank, concat, decimal, is_blank, join, joined, lemma_concat_push, numeral,
    opt_slice, opt_text, pad_end, pad_start, padded_start, same, texts, trim, trimmed,
};
use vstd::prelude::*;
use vstd::string::*;

verus! {

// ---- looking into the detail ------------------------------------------------

/// The value under a key; null where there is none.
pub open spec fn at(doc: JsonView, key: Seq<char>) -> JsonView {
    match member(doc, key) {
        Some(v) => v,
        None => JsonView::Null,
    }
}

pub open spec fn text_at(doc: JsonView, key: Seq<char>) -> Option<Seq<char>> {
    match at(doc, key) {
        JsonView::Text(s) => Some(s),
        _ => None,
    }
}

/// A text that is not blank, trimmed.
pub open spec fn filled_at(doc: JsonView, key: Seq<char>) -> Option<Seq<char>> {
    match text_at(doc, key) {
        Some(s) => if is_blank(s) {
            None
        } else {
            Some(trim(s))
        },
        None => None,
    }
}

/// A number, as it is written.
pub open spec fn number_at(doc: JsonView, key: Seq<char>) -> Option<Seq<char>> {
    match at(doc, key) {
        JsonView::Number { text, unsigned } => Some(text),
        _ => None,
    }
}

pub open spec fn count_at(doc: JsonView, key: Seq<char>) -> Option<u64> {
    match at(doc, key) {
        JsonView::Number { text, unsigned } => unsigned,
        _ => None,
    }
}

/// The items of a list; none where there is no list.
pub open spec fn items_of(doc: JsonView) -> Seq<JsonView> {
    match doc {
        JsonView::List(items) => items,
        _ => Seq::empty(),
    }
}

/// A number, or a text that is not blank.
pub open spec fn has_value_at(doc: JsonView, key: Seq<char>) -> bool {
    filled_at(doc, key) is Some || number_at(doc, key) is Some
}

fn value_at<'a>(doc: &'a Json, key: &str) -> (r: Option<&'a Json>)
    ensures
        match r {
            Some(v) => v@ == at(doc@, key@),
            None => at(doc@, key@) is Null,
        },
{
    doc.get(key)
}

fn read_text<'a>(doc: &'a Json, key: &str) -> (r: Option<&'a str>)
    ensures
        opt_slice(r) == text_at(doc@, key@),
{
    match value_at(doc, key) {
        Some(Json::Text(s)) => Some(s.as_str()),
        _ => None,
    }
}

fn read_filled<'a>(doc: &'a Json, key: &str) -> (r: Option<&'a str>)
    ensures
        opt_slice(r) == filled_at(doc@, key@),
{
    match read_text(doc, key) {
        Some(s) => if blank(s) {
            None
        } else {
            Some(trimmed(s))
        },
        None => None,
    }
}

fn read_number<'a>(doc: &'a Json, key: &str) -> (r: Option<&'a str>)
    ensures
        opt_slice(r) == number_at(doc@, key@),
{
    match value_at(doc, key) {
        Some(Json::Number(n)) => Some(n.text.as_str()),
        _ => None,
    }
}

fn read_count(doc: &Json, key: &str) -> (r: Option<u64>)
    ensures
        r == count_at(doc@, key@),
{
    match value_at(doc, key) {
        Some(Json::Number(n)) => n.unsigned,
        _ => None,
    }
}

fn is_true(doc: &Json, key: &str) -> (r: bool)
    ensures
        r == (at(doc@, key@) == JsonView::Bool(true)),
{
    match value_at(doc, key) {
        Some(Json::Bool(b)) => *b,
        _ => false,
    }
}

fn is_false(doc: &Json, key: &str) -> (r: bool)
    ensures
        r == (at(doc@, key@) == JsonView::Bool(false)),
{
    match value_at(doc, key) {
        Some(Json::Bool(b)) => !*b,
        _ => false,
    }
}

fn count_items(doc: &Json, key: &str) -> (r: usize)
    ensures
        r == items_of(at(doc@, key@)).len(),
{
    match value_at(doc, key) {
        Some(Json::List(items)) => {
            proof {
                lemma_list_view(*items);
            }
            items.len()
        },
        _ => 0,
    }
}

// ---- lines ------------------------------------------------------------------

/// A key and its value, the values below each other.
pub open spec fn kv(key: Seq<char>, value: Seq<char>) -> Seq<char> {
    "  "@ + pad_end(key + ":"@, 18) + value + "\n"@
}

/// A key and its value, where there is one.
pub open spec fn kv_opt(key: Seq<char>, value: Option<Seq<char>>) -> Seq<char> {
    match value {
        Some(v) => kv(key, v),
        None => Seq::empty(),
    }
}

fn write_kv(key: &str, value: &str) -> (r: String)
    ensures
        r@ == kv(key@, value@),
{
    let mut label = key.to_owned();
    label.append(":");
    let mut out = "  ".to_owned();
    append_padded(&mut out, label.as_str(), 18);
    out.append(value);
    out.append("\n");
    out
}

fn empty_text() -> (r: String)
    ensures
        r@ == Seq::<char>::empty(),
{
    let out = String::new();
    assert(out@ =~= Seq::<char>::empty());
    out
}

fn write_kv_opt(key: &str, value: Option<&str>) -> (r: String)
    ensures
        r@ == kv_opt(key@, opt_slice(value)),
{
    match value {
        Some(v) => write_kv(key, v),
        None => empty_text(),
    }
}

/// A title with a count, after an empty line.
pub open spec fn counted_title(title: Seq<char>, n: nat, end: Seq<char>) -> Seq<char> {
    "\n"@ + title + " ("@ + decimal(n) + end + ")\n"@
}

fn write_counted_title(title: &str, n: usize, end: &str) -> (r: String)
    ensures
        r@ == counted_title(title@, n as nat, end@),
{
    let mut out = "\n".to_owned();
    out.append(title);
    out.append(" (");
    out.append(numeral(n as u128).as_str());
    out.append(end);
    out.append(")\n");
    out
}

/// The lines of a list, or a line that says that it is empty.
pub open spec fn list_lines(lines: Seq<Seq<char>>) -> Seq<char> {
    if lines.len() == 0 {
        "  (none)\n"@
    } else {
        concat(lines)
    }
}

// ---- file -------------------------------------------------------------------

pub open spec fn exif(asset: JsonView) -> JsonView {
    at(asset, "exifInfo"@)
}

pub open spec fn width_of(asset: JsonView) -> Option<u64> {
    if count_at(asset, "width"@) is Some {
        count_at(asset, "width"@)
    } else {
        count_at(exif(asset), "exifImageWidth"@)
    }
}

pub open spec fn height_of(asset: JsonView) -> Option<u64> {
    if count_at(asset, "height"@) is Some {
        count_at(asset, "height"@)
    } else {
        count_at(exif(asset), "exifImageHeight"@)
    }
}

pub open spec fn size_line(asset: JsonView) -> Seq<char> {
    match count_at(exif(asset), "fileSizeInByte"@) {
        Some(n) => kv(
            "Size"@,
            size_text(n as nat) + " ("@ + decimal(n as nat) + " bytes)"@,
        ),
        None => Seq::empty(),
    }
}

pub open spec fn dimensions_line(asset: JsonView) -> Seq<char> {
    match (width_of(asset), height_of(asset)) {
        (Some(w), Some(h)) => kv("Dimensions"@, decimal(w as nat) + "x"@ + decimal(h as nat)),
        _ => Seq::empty(),
    }
}

/// The duration of a video; that of a photo is not shown.
pub open spec fn duration_line(asset: JsonView) -> Seq<char> {
    match text_at(asset, "duration"@) {
        Some(d) => if d != "0:00:00.00000"@ && d.len() > 0 {
            kv("Duration"@, d)
        } else {
            Seq::empty()
        },
        None => Seq::empty(),
    }
}

pub open spec fn file_section(asset: JsonView) -> Seq<char> {
    "File\n"@ + kv_opt("MIME"@, text_at(asset, "originalMimeType"@)) + size_line(asset)
        + dimensions_line(asset) + duration_line(asset)
}

fn write_size_line(exif_doc: &Json, asset: &Json) -> (r: String)
    requires
        exif_doc@ == exif(asset@),
    ensures
        r@ == size_line(asset@),
{
    match read_count(exif_doc, "fileSizeInByte") {
        Some(n) => {
            let mut value = human_size(n);
            value.append(" (");
            value.append(numeral(n as u128).as_str());
            value.append(" bytes)");
            write_kv("Size", value.as_str())
        },
        None => empty_text(),
    }
}

fn write_dimensions_line(exif_doc: &Json, asset: &Json) -> (r: String)
    requires
        exif_doc@ == exif(asset@),
    ensures
        r@ == dimensions_line(asset@),
{
    let w = match read_count(asset, "width") {
        Some(n) => Some(n),
        None => read_count(exif_doc, "exifImageWidth"),
    };
    let h = match read_count(asset, "height") {
        Some(n) => Some(n),
        None => read_count(exif_doc, "exifImageHeight"),
    };
    match (w, h) {
        (Some(w), Some(h)) => {
            let mut value = numeral(w as u128);
            value.append("x");
            value.append(numeral(h as u128).as_str());
            write_kv("Dimensions", value.as_str())
        },
        _ => empty_text(),
    }
}

fn write_duration_line(asset: &Json) -> (r: String)
    ensures
        r@ == duration_line(asset@),
{
    match read_text(asset, "duration") {
        Some(d) => if !same(d, "0:00:00.00000") && !d.is_empty() {
            write_kv("Duration", d)
        } else {
            empty_text()
        },
        None => empty_text(),
    }
}

fn write_file_section(exif_doc: &Json, asset: &Json) -> (r: String)
    requires
        exif_doc@ == exif(asset@),
    ensures
        r@ == file_section(asset@),
{
    let mut out = "File\n".to_owned();
    out.append(write_kv_opt("MIME", read_text(asset, "originalMimeType")).as_str());
    out.append(write_size_line(exif_doc, asset).as_str());
    out.append(write_dimensions_line(exif_doc, asset).as_str());
    out.append(write_duration_line(asset).as_str());
    out
}

// ---- time -------------------------------------------------------------------

/// When the photo was taken, on the clock of the place, with the time zone.
pub open spec fn time_section(asset: JsonView) -> Seq<char> {
    "\nTime\n"@ + match text_at(asset, "localDateTime"@) {
        Some(t) => kv(
            "File created"@,
            match filled_at(exif(asset), "timeZone"@) {
                Some(tz) => readable_time(t) + " ("@ + tz + ")"@,
                None => readable_time(t),
            },
        ),
        None => Seq::empty(),
    }
}

fn write_time_section(exif_doc: &Json, asset: &Json) -> (r: String)
    requires
        exif_doc@ == exif(asset@),
    ensures
        r@ == time_section(asset@),
{
    let mut out = "\nTime\n".to_owned();
    let line = match read_text(asset, "localDateTime") {
        Some(t) => {
            let mut value = humanize_naive_iso(t);
            if let Some(tz) = read_filled(exif_doc, "timeZone") {
                value.append(" (");
                value.append(tz);
                value.append(")");
            }
            write_kv("File created", value.as_str())
        },
        None => empty_text(),
    };
    out.append(line.as_str());
    out
}

// ---- location ---------------------------------------------------------------

pub open spec fn has_location(asset: JsonView) -> bool {
    ||| number_at(exif(asset), "latitude"@) is Some
    ||| number_at(exif(asset), "longitude"@) is Some
    ||| text_at(exif(asset), "city"@) is Some
}

pub open spec fn location_section(asset: JsonView) -> Seq<char> {
    if !has_location(asset) {
        Seq::empty()
    } else {
        let e = exif(asset);
        "\nLocation\n"@ + kv_opt("Latitude"@, number_at(e, "latitude"@)) + kv_opt(
            "Longitude"@,
            number_at(e, "longitude"@),
        ) + kv_opt("City"@, filled_at(e, "city"@)) + kv_opt("State"@, filled_at(e, "state"@))
            + kv_opt("Country"@, filled_at(e, "country"@))
    }
}

fn write_location_section(exif_doc: &Json, asset: &Json) -> (r: String)
    requires
        exif_doc@ == exif(asset@),
    ensures
        r@ == location_section(asset@),
{
    let latitude = read_number(exif_doc, "latitude");
    let longitude = read_number(exif_doc, "longitude");
    if latitude.is_none() && longitude.is_none() && read_text(exif_doc, "city").is_none() {
        return empty_text();
    }
    let mut out = "\nLocation\n".to_owned();
    out.append(write_kv_opt("Latitude", latitude).as_str());
    out.append(write_kv_opt("Longitude", longitude).as_str());
    out.append(write_kv_opt("City", read_filled(exif_doc, "city")).as_str());
    out.append(write_kv_opt("State", read_filled(exif_doc, "state")).as_str());
    out.append(write_kv_opt("Country", read_filled(exif_doc, "country")).as_str());
    out
}

// ---- camera -----------------------------------------------------------------

pub open spec fn has_camera(asset: JsonView) -> bool {
    let e = exif(asset);
    ||| has_value_at(e, "make"@)
    ||| has_value_at(e, "model"@)
    ||| has_value_at(e, "lensModel"@)
    ||| has_value_at(e, "fNumber"@)
    ||| has_value_at(e, "focalLength"@)
    ||| has_value_at(e, "iso"@)
    ||| has_value_at(e, "exposureTime"@)
    ||| has_value_at(e, "orientation"@)
}

/// A value with something before and behind it, where there is one.
pub open spec fn decorated(
    before: Seq<char>,
    value: Option<Seq<char>>,
    behind: Seq<char>,
) -> Option<Seq<char>> {
    match value {
        Some(v) => Some(before + v + behind),
        None => None,
    }
}

pub open spec fn camera_section(asset: JsonView) -> Seq<char> {
    if !has_camera(asset) {
        Seq::empty()
    } else {
        let e = exif(asset);
        "\nCamera\n"@ + kv_opt("Make"@, filled_at(e, "make"@)) + kv_opt(
            "Model"@,
            filled_at(e, "model"@),
        ) + kv_opt("Lens"@, filled_at(e, "lensModel"@)) + kv_opt(
            "Aperture"@,
            decorated("f/"@, number_at(e, "fNumber"@), Seq::empty()),
        ) + kv_opt(
            "Focal length"@,
            decorated(Seq::empty(), number_at(e, "focalLength"@), " mm"@),
        ) + kv_opt("ISO"@, number_at(e, "iso"@)) + kv_opt("Exposure"@, filled_at(e, "exposureTime"@))
            + kv_opt("Orientation"@, filled_at(e, "orientation"@)) + kv_opt(
            "Projection"@,
            filled_at(e, "projectionType"@),
        )
    }
}

fn has_value(doc: &Json, key: &str) -> (r: bool)
    ensures
        r == has_value_at(doc@, key@),
{
    read_filled(doc, key).is_some() || read_number(doc, key).is_some()
}

fn write_camera_section(exif_doc: &Json, asset: &Json) -> (r: String)
    requires
        exif_doc@ == exif(asset@),
    ensures
        r@ == camera_section(asset@),
{
    if !(has_value(exif_doc, "make") || has_value(exif_doc, "model") || has_value(
        exif_doc,
        "lensModel",
    ) || has_value(exif_doc, "fNumber") || has_value(exif_doc, "focalLength") || has_value(
        exif_doc,
        "iso",
    ) || has_value(exif_doc, "exposureTime") || has_value(exif_doc, "orientation")) {
        return empty_text();
    }
    let mut out = "\nCamera\n".to_owned();
    out.append(write_kv_opt("Make", read_filled(exif_doc, "make")).as_str());
    out.append(write_kv_opt("Model", read_filled(exif_doc, "model")).as_str());
    out.append(write_kv_opt("Lens", read_filled(exif_doc, "lensModel")).as_str());
    let aperture = match read_number(exif_doc, "fNumber") {
        Some(n) => {
            let mut value = "f/".to_owned();
            value.append(n);
            assert(value@ =~= "f/"@ + n@ + Seq::<char>::empty());
            write_kv("Aperture", value.as_str())
        },
        None => empty_text(),
    };
    out.append(aperture.as_str());
    let focal = match read_number(exif_doc, "focalLength") {
        Some(n) => {
            let mut value = n.to_owned();
            value.append(" mm");
            assert(value@ =~= Seq::<char>::empty() + n@ + " mm"@);
            write_kv("Focal length", value.as_str())
        },
        None => empty_text(),
    };
    out.append(focal.as_str());
    out.append(write_kv_opt("ISO", read_number(exif_doc, "iso")).as_str());
    out.append(write_kv_opt("Exposure", read_filled(exif_doc, "exposureTime")).as_str());
    out.append(write_kv_opt("Orientation", read_filled(exif_doc, "orientation")).as_str());
    out.append(write_kv_opt("Projection", read_filled(exif_doc, "projectionType")).as_str());
    out
}

// ---- people -----------------------------------------------------------------

pub open spec fn or_else(value: Option<Seq<char>>, other: Seq<char>) -> Seq<char> {
    match value {
        Some(v) => v,
        None => other,
    }
}

/// What is told of a person besides the name.
pub open spec fn person_extras(p: JsonView) -> Seq<Seq<char>> {
    seq![
        "id="@ + or_else(text_at(p, "id"@), Seq::empty()),
        "faces="@ + decimal(items_of(at(p, "faces"@)).len()),
    ] + (match filled_at(p, "birthDate"@) {
        Some(b) => seq!["birth="@ + b],
        None => Seq::empty(),
    }) + (if at(p, "isFavorite"@) == JsonView::Bool(true) {
        seq!["favorite"@]
    } else {
        Seq::empty()
    }) + (if at(p, "isHidden"@) == JsonView::Bool(true) {
        seq!["hidden"@]
    } else {
        Seq::empty()
    })
}

pub open spec fn person_line(p: JsonView) -> Seq<char> {
    "  - "@ + or_else(filled_at(p, "name"@), "(unnamed)"@) + " ("@ + join(person_extras(p), ", "@)
        + ")\n"@
}

fn write_person(p: &Json) -> (r: String)
    ensures
        r@ == person_line(p@),
{
    let mut extras: Vec<String> = Vec::new();
    let mut id = "id=".to_owned();
    if let Some(t) = read_text(p, "id") {
        id.append(t);
    }
    assert(id@ =~= "id="@ + or_else(text_at(p@, "id"@), Seq::empty()));
    extras.push(id);
    let mut faces = "faces=".to_owned();
    faces.append(numeral(count_items(p, "faces") as u128).as_str());
    extras.push(faces);
    let ghost head = texts(extras@);
    assert(head =~= seq![
        "id="@ + or_else(text_at(p@, "id"@), Seq::empty()),
        "faces="@ + decimal(items_of(at(p@, "faces"@)).len()),
    ]);
    if let Some(b) = read_filled(p, "birthDate") {
        let mut birth = "birth=".to_owned();
        birth.append(b);
        extras.push(birth);
    }
    if is_true(p, "isFavorite") {
        extras.push("favorite".to_owned());
    }
    if is_true(p, "isHidden") {
        extras.push("hidden".to_owned());
    }
    assert(texts(extras@) =~= person_extras(p@));
    let mut out = "  - ".to_owned();
    match read_filled(p, "name") {
        Some(name) => out.append(name),
        None => out.append("(unnamed)"),
    }
    out.append(" (");
    out.append(joined(&extras, ", ").as_str());
    out.append(")\n");
    out
}

pub open spec fn people_section(asset: JsonView) -> Seq<char> {
    let people = items_of(at(asset, "people"@));
    counted_title("People"@, people.len(), ""@) + list_lines(
        people.map_values(|p: JsonView| person_line(p)),
    ) + kv("Unassigned faces"@, decimal(items_of(at(asset, "unassignedFaces"@)).len()))
}

// ---- tags -------------------------------------------------------------------

pub open spec fn tag_line(t: JsonView) -> Seq<char> {
    "  - "@ + or_else(text_at(t, "value"@), or_else(text_at(t, "name"@), Seq::empty())) + "\n"@
}

fn write_tag(t: &Json) -> (r: String)
    ensures
        r@ == tag_line(t@),
{
    let mut out = "  - ".to_owned();
    match read_text(t, "value") {
        Some(v) => out.append(v),
        None => {
            if let Some(n) = read_text(t, "name") {
                out.append(n);
            }
        },
    }
    assert(out@ =~= "  - "@ + or_else(
        text_at(t@, "value"@),
        or_else(text_at(t@, "name"@), Seq::empty()),
    ));
    out.append("\n");
    out
}

pub open spec fn tags_section(asset: JsonView) -> Seq<char> {
    let tags = items_of(at(asset, "tags"@));
    counted_title("Tags"@, tags.len(), ""@) + list_lines(
        tags.map_values(|t: JsonView| tag_line(t)),
    )
}

// ---- recognised text --------------------------------------------------------

/// `[NN%] `, where there is a score.
pub open spec fn score_text(percent: Option<Seq<char>>) -> Seq<char> {
    match percent {
        Some(p) => "["@ + pad_start(p, 3) + "%] "@,
        None => Seq::empty(),
    }
}

pub open spec fn ocr_line(entry: JsonView, percent: Option<Seq<char>>) -> Seq<char> {
    "  - "@ + score_text(percent) + or_else(filled_at(entry, "text"@), Seq::empty()) + (if at(
        entry,
        "isVisible"@,
    ) == JsonView::Bool(false) {
        " (hidden)"@
    } else {
        Seq::empty()
    }) + "\n"@
}

/// The score of entry `i`, if it is given.
pub open spec fn percent_of(percents: Seq<Option<String>>, i: int) -> Option<Seq<char>> {
    if 0 <= i < percents.len() {
        opt_text(percents[i])
    } else {
        None
    }
}

fn write_ocr_line(entry: &Json, percent: Option<&str>) -> (r: String)
    ensures
        r@ == ocr_line(entry@, opt_slice(percent)),
{
    let mut out = "  - ".to_owned();
    let score = match percent {
        Some(p) => {
            let mut s = "[".to_owned();
            s.append(padded_start(p, 3).as_str());
            s.append("%] ");
            s
        },
        None => empty_text(),
    };
    out.append(score.as_str());
    let text = match read_filled(entry, "text") {
        Some(t) => t.to_owned(),
        None => empty_text(),
    };
    out.append(text.as_str());
    let hidden = if is_false(entry, "isVisible") {
        " (hidden)".to_owned()
    } else {
        empty_text()
    };
    out.append(hidden.as_str());
    out.append("\n");
    out
}

pub open spec fn ocr_lines(entries: Seq<JsonView>, percents: Seq<Option<String>>) -> Seq<Seq<char>> {
    Seq::new(entries.len(), |i: int| ocr_line(entries[i], percent_of(percents, i)))
}

pub open spec fn ocr_section(ocr: JsonView, percents: Seq<Option<String>>) -> Seq<char> {
    let entries = items_of(ocr);
    counted_title("OCR"@, entries.len(), " regions"@) + list_lines(ocr_lines(entries, percents))
}

// ---- albums -----------------------------------------------------------------

pub open spec fn album_line(a: JsonView) -> Seq<char> {
    "  - "@ + or_else(text_at(a, "albumName"@), Seq::empty()) + " (id="@ + or_else(
        text_at(a, "id"@),
        Seq::empty(),
    ) + ", assets="@ + decimal(
        match count_at(a, "assetCount"@) {
            Some(n) => n as nat,
            None => 0,
        },
    ) + ")\n"@
}

fn write_album(a: &Json) -> (r: String)
    ensures
        r@ == album_line(a@),
{
    let mut out = "  - ".to_owned();
    let name = match read_text(a, "albumName") {
        Some(t) => t.to_owned(),
        None => empty_text(),
    };
    out.append(name.as_str());
    out.append(" (id=");
    let id = match read_text(a, "id") {
        Some(t) => t.to_owned(),
        None => empty_text(),
    };
    out.append(id.as_str());
    out.append(", assets=");
    let count: u64 = match read_count(a, "assetCount") {
        Some(n) => n,
        None => 0,
    };
    out.append(numeral(count as u128).as_str());
    out.append(")\n");
    out
}

pub open spec fn albums_section(albums: JsonView) -> Seq<char> {
    let items = items_of(albums);
    counted_title("Albums"@, items.len(), ""@) + list_lines(
        items.map_values(|a: JsonView| album_line(a)),
    )
}

// ---- lists ------------------------------------------------------------------

/// The lists that are shown line by line.
#[derive(Clone, Copy)]
enum Listed {
    People,
    Tags,
    Albums,
}

spec fn listed_line(kind: Listed, item: JsonView) -> Seq<char> {
    match kind {
        Listed::People => person_line(item),
        Listed::Tags => tag_line(item),
        Listed::Albums => album_line(item),
    }
}

fn write_listed(kind: Listed, item: &Json) -> (r: String)
    ensures
        r@ == listed_line(kind, item@),
{
    match kind {
        Listed::People => write_person(item),
        Listed::Tags => write_tag(item),
        Listed::Albums => write_album(item),
    }
}

fn write_list(kind: Listed, items: &Vec<Json>) -> (r: String)
    ensures
        r@ == list_lines(
            items@.map_values(|j: Json| j@).map_values(|j: JsonView| listed_line(kind, j)),
        ),
{
    let ghost lines = items@.map_values(|j: Json| j@).map_values(
        |j: JsonView| listed_line(kind, j),
    );
    if items.len() == 0 {
        return "  (none)\n".to_owned();
    }
    let mut out = String::new();
    let mut i: usize = 0;
    assert(out@ =~= concat(lines.take(0)));
    while i < items.len()
        invariant
            i <= items.len(),
            lines == items@.map_values(|j: Json| j@).map_values(
                |j: JsonView| listed_line(kind, j),
            ),
            out@ == concat(lines.take(i as int)),
        decreases items.len() - i,
    {
        let line = write_listed(kind, &items[i]);
        assert(lines[i as int] == line@);
        proof {
            lemma_concat_push(lines.take(i as int), line@);
            assert(lines.take(i + 1) =~= lines.take(i as int).push(line@));
        }
        out.append(line.as_str());
        i += 1;
    }
    assert(lines.take(i as int) =~= lines);
    out
}

/// The items of a list.
fn list_items(doc: Option<&Json>) -> (r: Option<&Vec<Json>>)
    ensures
        match r {
            Some(items) => doc is Some && doc->0@ == JsonView::List(
                items@.map_values(|j: Json| j@),
            ),
            None => doc is Some ==> items_of(doc->0@).len() == 0,
        },
{
    match doc {
        Some(Json::List(items)) => {
            proof {
                lemma_list_view(*items);
            }
            Some(items)
        },
        _ => None,
    }
}

fn write_people_section(asset: &Json) -> (r: String)
    ensures
        r@ == people_section(asset@),
{
    let ghost people = items_of(at(asset@, "people"@));
    let mut out = write_counted_title("People", count_items(asset, "people"), "");
    let lines = match list_items(value_at(asset, "people")) {
        Some(items) => write_list(Listed::People, items),
        None => "  (none)\n".to_owned(),
    };
    assert(lines@ == list_lines(people.map_values(|p: JsonView| person_line(p)))) by {
        assert(people.map_values(|p: JsonView| person_line(p)) =~= people.map_values(
            |j: JsonView| listed_line(Listed::People, j),
        ));
    }
    out.append(lines.as_str());
    let faces = numeral(count_items(asset, "unassignedFaces") as u128);
    out.append(write_kv("Unassigned faces", faces.as_str()).as_str());
    out
}

fn write_tags_section(asset: &Json) -> (r: String)
    ensures
        r@ == tags_section(asset@),
{
    let ghost tags = items_of(at(asset@, "tags"@));
    let mut out = write_counted_title("Tags", count_items(asset, "tags"), "");
    let lines = match list_items(value_at(asset, "tags")) {
        Some(items) => write_list(Listed::Tags, items),
        None => "  (none)\n".to_owned(),
    };
    assert(lines@ == list_lines(tags.map_values(|t: JsonView| tag_line(t)))) by {
        assert(tags.map_values(|t: JsonView| tag_line(t)) =~= tags.map_values(
            |j: JsonView| listed_line(Listed::Tags, j),
        ));
    }
    out.append(lines.as_str());
    out
}

fn write_albums_section(albums: &Json) -> (r: String)
    ensures
        r@ == albums_section(albums@),
{
    let ghost items = items_of(albums@);
    match list_items(Some(albums)) {
        Some(list) => {
            let mut out = write_counted_title("Albums", list.len(), "");
            let lines = write_list(Listed::Albums, list);
            assert(lines@ == list_lines(items.map_values(|a: JsonView| album_line(a)))) by {
                assert(items.map_values(|a: JsonView| album_line(a)) =~= items.map_values(
                    |j: JsonView| listed_line(Listed::Albums, j),
                ));
            }
            out.append(lines.as_str());
            out
        },
        None => {
            let mut out = write_counted_title("Albums", 0, "");
            out.append("  (none)\n");
            out
        },
    }
}

fn write_ocr_section(ocr: &Json, percents: &Vec<Option<String>>) -> (r: String)
    ensures
        r@ == ocr_section(ocr@, percents@),
{
    let ghost entries = items_of(ocr@);
    let ghost lines = ocr_lines(entries, percents@);
    match list_items(Some(ocr)) {
        Some(list) => {
            let mut out = write_counted_title("OCR", list.len(), " regions");
            if list.len() == 0 {
                out.append("  (none)\n");
                return out;
            }
            let mut body = String::new();
            let mut i: usize = 0;
            assert(body@ =~= concat(lines.take(0)));
            while i < list.len()
                invariant
                    i <= list.len(),
                    entries == list@.map_values(|j: Json| j@),
                    lines == ocr_lines(entries, percents@),
                    body@ == concat(lines.take(i as int)),
                decreases list.len() - i,
            {
                let percent = if i < percents.len() {
                    match &percents[i] {
                        Some(p) => Some(p.as_str()),
                        None => None,
                    }
                } else {
                    None
                };
                let line = write_ocr_line(&list[i], percent);
                assert(entries[i as int] == list@[i as int]@);
                assert(opt_slice(percent) == percent_of(percents@, i as int));
                assert(lines[i as int] == line@);
                proof {
                    lemma_concat_push(lines.take(i as int), line@);
                    assert(lines.take(i + 1) =~= lines.take(i as int).push(line@));
                }
                body.append(line.as_str());
                i += 1;
            }
            assert(lines.take(i as int) =~= lines);
            out.append(body.as_str());
            out
        },
        None => {
            let mut out = write_counted_title("OCR", 0, " regions");
            out.append("  (none)\n");
            out
        },
    }
}

// ---- all sections -----------------------------------------------------------

/// The detail of an asset as text. `percents` are the scores of the recognised
/// texts in percent.
pub open spec fn detail_text(
    asset: JsonView,
    albums: JsonView,
    ocr: JsonView,
    percents: Seq<Option<String>>,
) -> Seq<char> {
    file_section(asset) + time_section(asset) + location_section(asset) + camera_section(asset)
        + people_section(asset) + tags_section(asset) + ocr_section(ocr, percents)
        + albums_section(albums)
}

/// Writes the detail of an asset as text, section by section.
pub fn emit_text(asset: &Json, albums: &Json, ocr: &Json, percents: &Vec<Option<String>>) -> (r:
    String)
    ensures
        r@ == detail_text(asset@, albums@, ocr@, percents@),
{
    let nothing = Json::Null;
    let exif_doc = match value_at(asset, "exifInfo") {
        Some(e) => e,
        None => &nothing,
    };
    assert(exif_doc@ == exif(asset@));
    let mut out = write_file_section(exif_doc, asset);
    out.append(write_time_section(exif_doc, asset).as_str());
    out.append(write_location_section(exif_doc, asset).as_str());
    out.append(write_camera_section(exif_doc, asset).as_str());
    out.append(write_people_section(asset).as_str());
    out.append(write_tags_section(asset).as_str());
    out.append(write_ocr_section(ocr, percents).as_str());
    out.append(write_albums_section(albums).as_str());
    out
}

/// The scores of the recognised texts as they are written in the answer of the
/// server.
pub open spec fn score_numbers(ocr: JsonView) -> Seq<Option<Seq<char>>> {
    items_of(ocr).map_values(|e: JsonView| number_at(e, "textScore"@))
}

/// Lists the scores of the recognised texts.
pub fn list_scores(ocr: &Json) -> (r: Vec<Option<String>>)
    ensures
        r@.map_values(|s: Option<String>| opt_text(s)) == score_numbers(ocr@),
{
    let mut out: Vec<Option<String>> = Vec::new();
    if let Some(list) = list_items(Some(ocr)) {
        let mut i: usize = 0;
        while i < list.len()
            invariant
                i <= list.len(),
                ocr@ == JsonView::List(list@.map_values(|j: Json| j@)),
                out.len() == i,
                forall|k: int| 0 <= k < i ==> opt_text(#[trigger] out@[k]) == score_numbers(ocr@)[k],
            decreases list.len() - i,
        {
            assert(items_of(ocr@)[i as int] == list@[i as int]@);
            out.push(
                match read_number(&list[i], "textScore") {
                    Some(n) => Some(n.to_owned()),
                    None => None,
                },
            );
            i += 1;
        }
    }
    assert(out@.map_values(|s: Option<String>| opt_text(s)) =~= score_numbers(ocr@));
    out
}

} // verus!
