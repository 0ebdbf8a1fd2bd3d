//! Printing what a search found.
use crate::commands::search::args::{OutputFormat, SearchArgs};
use crate::commands::search::fetch::FetchResult;
use crate::config::PathMapEntry;
use crate::json::{
    json_bool, json_field, json_object, json_optional, json_string, law_json_object_is_one_line,
    law_json_string_is_one_line, lemma_one_line_field, lemma_one_line_optional, write_field,
    write_object, write_optional, write_string,
};
use crate::listing::{
    as_slice, city_of, country_of, day_of, json_degrees, missing_warning, place_of, state_of,
    taken_day, taken_where, unmapped_warning, warn_missing, warn_unmapped, write_degrees, Emission,
};
use crate::models::{Asset, Degrees};
use crate::path_map::{local_of, translate};
use crate::table::{
    is_table, line_views, render_table, table_text, LineView, TableLine,
};
use crate::text::{concat, is_one_line, lemma_concat_push, opt_text, texts};
use vstd::prelude::*;
use vstd::string::*;

verus! {

// ---- rows -------------------------------------------------------------------

/// An asset that is listed. It is unmapped where it has no local path.
pub struct Row<'a> {
    pub asset: &'a Asset,
    pub local: Option<String>,
    pub missing: bool,
}

#[verifier::ext_equal]
pub ghost struct RowView {
    pub asset: Asset,
    pub local: Option<Seq<char>>,
    pub missing: bool,
}

impl<'a> View for Row<'a> {
    type V = RowView;

    open spec fn view(&self) -> RowView {
        RowView { asset: *self.asset, local: opt_text(self.local), missing: self.missing }
    }
}

pub open spec fn row_views(rows: Seq<Row>) -> Seq<RowView> {
    rows.map_values(|r: Row| r@)
}

/// Whether the local file of an asset is missing; that is asked only with
/// `verify`.
pub open spec fn is_missing(local: Option<Seq<char>>, verify: bool, present: bool) -> bool {
    verify && local is Some && !present
}

/// The row of an asset, if it is listed.
pub open spec fn row_for(
    args: SearchArgs,
    asset: Asset,
    local: Option<Seq<char>>,
    present: bool,
) -> Option<RowView> {
    let missing = is_missing(local, args.verify, present);
    if local is None && !args.include_unmapped || missing && !args.include_missing {
        None
    } else {
        Some(RowView { asset, local, missing })
    }
}

/// The warning about an asset, if there is one.
pub open spec fn warning_for(
    args: SearchArgs,
    asset: Asset,
    local: Option<Seq<char>>,
    present: bool,
) -> Seq<char> {
    if local is None && !args.include_unmapped {
        unmapped_warning(asset)
    } else if is_missing(local, args.verify, present) {
        missing_warning(asset, local->0)
    } else {
        Seq::empty()
    }
}

/// The rows of the assets that are listed. `present` tells of each asset
/// whether its local file exists.
pub open spec fn rows_of(
    path_map: Seq<PathMapEntry>,
    args: SearchArgs,
    assets: Seq<Asset>,
    present: Seq<bool>,
) -> Seq<RowView>
    decreases assets.len(),
{
    if assets.len() == 0 {
        Seq::empty()
    } else {
        let before = rows_of(path_map, args, assets.drop_last(), present);
        let a = assets.last();
        match row_for(
            args,
            a,
            local_of(a.original_path@, path_map),
            present[assets.len() - 1],
        ) {
            Some(row) => before.push(row),
            None => before,
        }
    }
}

pub open spec fn warnings_of(
    path_map: Seq<PathMapEntry>,
    args: SearchArgs,
    assets: Seq<Asset>,
    present: Seq<bool>,
) -> Seq<char>
    decreases assets.len(),
{
    if assets.len() == 0 {
        Seq::empty()
    } else {
        let a = assets.last();
        warnings_of(path_map, args, assets.drop_last(), present) + warning_for(
            args,
            a,
            local_of(a.original_path@, path_map),
            present[assets.len() - 1],
        )
    }
}

fn collect_rows<'a>(
    path_map: &Vec<PathMapEntry>,
    args: &SearchArgs,
    assets: &'a Vec<Asset>,
    present: &Vec<bool>,
) -> (r: (Vec<Row<'a>>, String))
    requires
        present.len() == assets.len(),
    ensures
        row_views(r.0@) == rows_of(path_map@, *args, assets@, present@),
        r.1@ == warnings_of(path_map@, *args, assets@, present@),
{
    let mut rows: Vec<Row<'a>> = Vec::new();
    let mut warnings = String::new();
    let mut i: usize = 0;
    assert(row_views(rows@) =~= rows_of(path_map@, *args, assets@.take(0), present@));
    assert(warnings@ =~= Seq::<char>::empty());
    while i < assets.len()
        invariant
            present.len() == assets.len(),
            i <= assets.len(),
            row_views(rows@) == rows_of(path_map@, *args, assets@.take(i as int), present@),
            warnings@ == warnings_of(path_map@, *args, assets@.take(i as int), present@),
        decreases assets.len() - i,
    {
        assert(assets@.take(i + 1).drop_last() =~= assets@.take(i as int));
        let asset = &assets[i];
        let local = translate(asset.original_path.as_str(), path_map);
        let ghost said = warnings@;
        let ghost before = row_views(rows@);
        let ghost path = opt_text(local);
        let mut listed = true;
        let mut missing = false;
        match &local {
            None => {
                if !args.include_unmapped {
                    warnings.append(warn_unmapped(asset).as_str());
                    listed = false;
                }
            },
            Some(p) => {
                if args.verify && !present[i] {
                    warnings.append(warn_missing(asset, p.as_str()).as_str());
                    missing = true;
                    listed = args.include_missing;
                }
            },
        }
        assert(warnings@ =~= said + warning_for(*args, *asset, path, present@[i as int]));
        if listed {
            let row = Row { asset, local, missing };
            let ghost added = row@;
            rows.push(row);
            assert(row_views(rows@) =~= before.push(added));
        }
        i += 1;
    }
    assert(assets@.take(i as int) =~= assets@);
    (rows, warnings)
}

// ---- paths ------------------------------------------------------------------

/// The path that stands for an asset.
pub open spec fn shown_path(row: RowView) -> Seq<char> {
    match row.local {
        Some(p) => p,
        None => row.asset.original_path@,
    }
}

/// `MISSING` or `UNMAPPED` before a path that needs it.
pub open spec fn path_line(row: RowView) -> Seq<char> {
    (if row.missing {
        "MISSING\t"@
    } else if row.local is None {
        "UNMAPPED\t"@
    } else {
        Seq::empty()
    }) + shown_path(row) + "\n"@
}

fn write_path_line(row: &Row) -> (r: String)
    ensures
        r@ == path_line(row@),
{
    let mut out = if row.missing {
        "MISSING\t".to_owned()
    } else if row.local.is_none() {
        "UNMAPPED\t".to_owned()
    } else {
        let none = String::new();
        assert(none@ =~= Seq::<char>::empty());
        none
    };
    match &row.local {
        Some(p) => out.append(p.as_str()),
        None => out.append(row.asset.original_path.as_str()),
    }
    out.append("\n");
    out
}

// ---- JSON -------------------------------------------------------------------

pub open spec fn latitude_of(asset: Asset) -> Option<Degrees> {
    match asset.exif_info {
        Some(e) => e.latitude,
        None => None,
    }
}

pub open spec fn longitude_of(asset: Asset) -> Option<Degrees> {
    match asset.exif_info {
        Some(e) => e.longitude,
        None => None,
    }
}

/// The fields of a row as JSON, by name.
pub open spec fn json_fields(row: RowView) -> Seq<Seq<char>> {
    let a = row.asset;
    seq![
        json_field("city"@, json_optional(city_of(a))),
        json_field("country"@, json_optional(country_of(a))),
        json_field("id"@, json_string(a.id@)),
        json_field("latitude"@, json_degrees(latitude_of(a))),
        json_field("localDateTime"@, json_optional(opt_text(a.local_date_time))),
        json_field("localPath"@, json_optional(row.local)),
        json_field("longitude"@, json_degrees(longitude_of(a))),
        json_field("missing"@, json_bool(row.missing)),
        json_field("originalFileName"@, json_string(a.original_file_name@)),
        json_field("originalPath"@, json_string(a.original_path@)),
        json_field("state"@, json_optional(state_of(a))),
        json_field("type"@, json_string(a.asset_type@)),
        json_field("unmapped"@, json_bool(row.local is None)),
    ]
}

pub open spec fn json_line(row: RowView) -> Seq<char> {
    json_object(json_fields(row)) + "\n"@
}

fn bool_text(b: bool) -> (r: &'static str)
    ensures
        r@ == json_bool(b),
{
    if b {
        "true"
    } else {
        "false"
    }
}

fn write_json_line(row: &Row) -> (r: String)
    ensures
        r@ == json_line(row@),
{
    let a = row.asset;
    let mut city: Option<&str> = None;
    let mut state: Option<&str> = None;
    let mut country: Option<&str> = None;
    let mut latitude = "null".to_owned();
    let mut longitude = "null".to_owned();
    if let Some(e) = &a.exif_info {
        city = as_slice(&e.city);
        state = as_slice(&e.state);
        country = as_slice(&e.country);
        latitude = write_degrees(&e.latitude);
        longitude = write_degrees(&e.longitude);
    }
    let mut fields: Vec<String> = Vec::new();
    fields.push(write_field("city", write_optional(city).as_str()));
    fields.push(write_field("country", write_optional(country).as_str()));
    fields.push(write_field("id", write_string(a.id.as_str()).as_str()));
    fields.push(write_field("latitude", latitude.as_str()));
    fields.push(
        write_field("localDateTime", write_optional(as_slice(&a.local_date_time)).as_str()),
    );
    fields.push(write_field("localPath", write_optional(as_slice(&row.local)).as_str()));
    fields.push(write_field("longitude", longitude.as_str()));
    fields.push(write_field("missing", bool_text(row.missing)));
    fields.push(
        write_field("originalFileName", write_string(a.original_file_name.as_str()).as_str()),
    );
    fields.push(write_field("originalPath", write_string(a.original_path.as_str()).as_str()));
    fields.push(write_field("state", write_optional(state).as_str()));
    fields.push(write_field("type", write_string(a.asset_type.as_str()).as_str()));
    fields.push(write_field("unmapped", bool_text(row.local.is_none())));
    assert(texts(fields@) =~= json_fields(row@));
    let mut out = write_object(&fields);
    out.append("\n");
    out
}

// ---- tables -----------------------------------------------------------------

pub open spec fn table_header() -> LineView {
    LineView { mark: Seq::empty(), cells: seq!["TYPE"@, "TAKEN"@, "LOCATION"@, "PATH"@] }
}

/// A row of the table. A missing file is marked as in the list of paths.
pub open spec fn table_row(row: RowView) -> LineView {
    LineView {
        mark: if row.missing {
            "MISSING\t"@
        } else {
            Seq::empty()
        },
        cells: seq![
            row.asset.asset_type@,
            day_of(row.asset),
            place_of(row.asset),
            match row.local {
                Some(p) => p,
                None => "(unmapped) "@ + row.asset.original_path@,
            },
        ],
    }
}

pub open spec fn table_lines(rows: Seq<RowView>) -> Seq<LineView> {
    seq![table_header()] + rows.map_values(|r: RowView| table_row(r))
}

fn empty_text() -> (r: String)
    ensures
        r@ == Seq::<char>::empty(),
{
    let out = String::new();
    assert(out@ =~= Seq::<char>::empty());
    out
}

fn table_line(row: &Row) -> (r: TableLine)
    ensures
        r@ == table_row(row@),
{
    let path = match &row.local {
        Some(p) => p.clone(),
        None => {
            let mut out = "(unmapped) ".to_owned();
            out.append(row.asset.original_path.as_str());
            out
        },
    };
    let mut cells: Vec<String> = Vec::new();
    cells.push(row.asset.asset_type.clone());
    cells.push(taken_day(row.asset));
    cells.push(taken_where(row.asset));
    cells.push(path);
    let mark = if row.missing {
        "MISSING\t".to_owned()
    } else {
        empty_text()
    };
    let r = TableLine { mark, cells };
    assert(r@.cells =~= table_row(row@).cells);
    r
}

/// Writes the rows as a table.
pub fn write_table(rows: &Vec<Row>) -> (r: String)
    ensures
        r@ == table_text(table_lines(row_views(rows@))),
{
    let ghost wanted = table_lines(row_views(rows@));
    let mut lines: Vec<TableLine> = Vec::new();
    let mut header: Vec<String> = Vec::new();
    header.push("TYPE".to_owned());
    header.push("TAKEN".to_owned());
    header.push("LOCATION".to_owned());
    header.push("PATH".to_owned());
    let first = TableLine { mark: empty_text(), cells: header };
    assert(first@.cells =~= table_header().cells);
    assert(first@ == table_header());
    lines.push(first);
    let mut i: usize = 0;
    assert(line_views(lines@) =~= wanted.take(1));
    while i < rows.len()
        invariant
            i <= rows.len(),
            wanted == table_lines(row_views(rows@)),
            line_views(lines@) == wanted.take(i + 1),
        decreases rows.len() - i,
    {
        let line = table_line(&rows[i]);
        let ghost l = line@;
        let ghost before = line_views(lines@);
        assert(wanted[i + 1] == l);
        lines.push(line);
        assert(line_views(lines@) =~= before.push(l));
        assert(wanted.take(i + 2) =~= wanted.take(i + 1).push(l));
        i += 1;
    }
    assert(wanted.take(i + 1) =~= wanted);
    assert(is_table(wanted, 4));
    render_table(&lines, 4)
}

// ---- all formats ------------------------------------------------------------

/// What stands for the rows.
pub open spec fn rows_text(format: OutputFormat, rows: Seq<RowView>) -> Seq<char> {
    match format {
        OutputFormat::Paths => concat(rows.map_values(|r: RowView| path_line(r))),
        OutputFormat::Json => concat(rows.map_values(|r: RowView| json_line(r))),
        OutputFormat::Table => table_text(table_lines(rows)),
    }
}

/// The last line where the server had more than was asked for. In JSON it is
/// an object, so that every line can be parsed.
pub open spec fn end_mark(format: OutputFormat, truncated: bool) -> Seq<char> {
    if !truncated {
        Seq::empty()
    } else if format is Json {
        "{\"truncated\":true}\n"@
    } else {
        "......\n"@
    }
}

/// All that is printed of a result.
pub open spec fn printed(
    path_map: Seq<PathMapEntry>,
    args: SearchArgs,
    result: FetchResult,
    present: Seq<bool>,
) -> Seq<char> {
    rows_text(args.format, rows_of(path_map, args, result.assets@, present)) + end_mark(
        args.format,
        result.truncated,
    )
}

fn write_paths(rows: &Vec<Row>) -> (r: String)
    ensures
        r@ == rows_text(OutputFormat::Paths, row_views(rows@)),
{
    let ghost lines = row_views(rows@).map_values(|r: RowView| path_line(r));
    let mut out = String::new();
    let mut i: usize = 0;
    assert(out@ =~= concat(lines.take(0)));
    while i < rows.len()
        invariant
            i <= rows.len(),
            lines == row_views(rows@).map_values(|r: RowView| path_line(r)),
            out@ == concat(lines.take(i as int)),
        decreases rows.len() - i,
    {
        let line = write_path_line(&rows[i]);
        assert(lines[i as int] == line@);
        proof {
            lemma_concat_push(lines.take(i as int), line@);
            assert(lines.take(i + 1) =~= lines.take(i as int).push(line@));
        }
        out.append(line.as_str());
        i += 1;
    }
    assert(lines.take(i as int) =~= lines);
    out
}

fn write_json_lines(rows: &Vec<Row>) -> (r: String)
    ensures
        r@ == rows_text(OutputFormat::Json, row_views(rows@)),
{
    let ghost lines = row_views(rows@).map_values(|r: RowView| json_line(r));
    let mut out = String::new();
    let mut i: usize = 0;
    assert(out@ =~= concat(lines.take(0)));
    while i < rows.len()
        invariant
            i <= rows.len(),
            lines == row_views(rows@).map_values(|r: RowView| json_line(r)),
            out@ == concat(lines.take(i as int)),
        decreases rows.len() - i,
    {
        let line = write_json_line(&rows[i]);
        assert(lines[i as int] == line@);
        proof {
            lemma_concat_push(lines.take(i as int), line@);
            assert(lines.take(i + 1) =~= lines.take(i as int).push(line@));
        }
        out.append(line.as_str());
        i += 1;
    }
    assert(lines.take(i as int) =~= lines);
    out
}

/// Every object is on a line of its own: the text of a row holds no line feed
/// but the one at its end. Coordinates are JSON numbers, which hold none.
pub proof fn law_json_rows_are_one_line(row: RowView)
    requires
        is_one_line(json_degrees(latitude_of(row.asset))),
        is_one_line(json_degrees(longitude_of(row.asset))),
    ensures
        json_line(row) == json_object(json_fields(row)) + "\n"@,
        is_one_line(json_object(json_fields(row))),
{
    let a = row.asset;
    reveal_strlit("city");
    reveal_strlit("country");
    reveal_strlit("id");
    reveal_strlit("latitude");
    reveal_strlit("localDateTime");
    reveal_strlit("localPath");
    reveal_strlit("longitude");
    reveal_strlit("missing");
    reveal_strlit("originalFileName");
    reveal_strlit("originalPath");
    reveal_strlit("state");
    reveal_strlit("type");
    reveal_strlit("unmapped");
    reveal_strlit("true");
    reveal_strlit("false");
    lemma_one_line_optional(city_of(a));
    lemma_one_line_optional(country_of(a));
    law_json_string_is_one_line(a.id@);
    lemma_one_line_optional(opt_text(a.local_date_time));
    lemma_one_line_optional(row.local);
    law_json_string_is_one_line(a.original_file_name@);
    law_json_string_is_one_line(a.original_path@);
    lemma_one_line_optional(state_of(a));
    law_json_string_is_one_line(a.asset_type@);
    lemma_one_line_field("city"@, json_optional(city_of(a)));
    lemma_one_line_field("country"@, json_optional(country_of(a)));
    lemma_one_line_field("id"@, json_string(a.id@));
    lemma_one_line_field("latitude"@, json_degrees(latitude_of(a)));
    lemma_one_line_field("localDateTime"@, json_optional(opt_text(a.local_date_time)));
    lemma_one_line_field("localPath"@, json_optional(row.local));
    lemma_one_line_field("longitude"@, json_degrees(longitude_of(a)));
    lemma_one_line_field("missing"@, json_bool(row.missing));
    lemma_one_line_field("originalFileName"@, json_string(a.original_file_name@));
    lemma_one_line_field("originalPath"@, json_string(a.original_path@));
    lemma_one_line_field("state"@, json_optional(state_of(a)));
    lemma_one_line_field("type"@, json_string(a.asset_type@));
    lemma_one_line_field("unmapped"@, json_bool(row.local is None));
    law_json_object_is_one_line(json_fields(row));
}

/// What is printed ends with the marker exactly where more was left: in JSON an
/// object, otherwise a line of dots.
pub proof fn law_marker_closes_truncated_output(
    path_map: Seq<PathMapEntry>,
    args: SearchArgs,
    result: FetchResult,
    present: Seq<bool>,
)
    ensures
        ({
            let rows = rows_text(args.format, rows_of(path_map, args, result.assets@, present));
            let mark = if args.format is Json {
                "{\"truncated\":true}\n"@
            } else {
                "......\n"@
            };
            printed(path_map, args, result, present) == if result.truncated {
                rows + mark
            } else {
                rows
            }
        }),
{
    let rows = rows_text(args.format, rows_of(path_map, args, result.assets@, present));
    assert(rows + Seq::<char>::empty() =~= rows);
}

/// Writes a result in the format that was asked for. `present` tells of each
/// asset whether its local file exists; it matters only with `verify`.
pub fn emit_to_writer(
    path_map: &Vec<PathMapEntry>,
    args: &SearchArgs,
    result: &FetchResult,
    present: &Vec<bool>,
) -> (r: Emission)
    requires
        present.len() == result.assets.len(),
    ensures
        r.out@ == printed(path_map@, *args, *result, present@),
        r.warnings@ == warnings_of(path_map@, *args, result.assets@, present@),
{
    let (rows, warnings) = collect_rows(path_map, args, &result.assets, present);
    let mut out = match args.format {
        OutputFormat::Paths => write_paths(&rows),
        OutputFormat::Json => write_json_lines(&rows),
        OutputFormat::Table => write_table(&rows),
    };
    let end = if !result.truncated {
        empty_text()
    } else {
        match args.format {
            OutputFormat::Json => "{\"truncated\":true}\n".to_owned(),
            _ => "......\n".to_owned(),
        }
    };
    out.append(end.as_str());
    Emission { out, warnings }
}

/// The local paths whose existence has to be checked, one per asset.
pub fn local_paths(path_map: &Vec<PathMapEntry>, assets: &Vec<Asset>) -> (r: Vec<Option<String>>)
    ensures
        r.len() == assets.len(),
        forall|i: int|
            0 <= i < assets.len() ==> opt_text(#[trigger] r@[i]) == local_of(
                assets@[i].original_path@,
                path_map@,
            ),
{
    let mut out: Vec<Option<String>> = Vec::new();
    let mut i: usize = 0;
    while i < assets.len()
        invariant
            i <= assets.len(),
            out.len() == i,
            forall|j: int|
                0 <= j < i ==> opt_text(#[trigger] out@[j]) == local_of(
                    assets@[j].original_path@,
                    path_map@,
                ),
        decreases assets.len() - i,
    {
        out.push(translate(assets[i].original_path.as_str(), path_map));
        i += 1;
    }
    out
}

} // verus!
