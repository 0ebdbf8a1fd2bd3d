//! Printing the photos that were found.
use crate::commands::ask::answer::{AskArgs, OutputFormat};
use crate::config::PathMapEntry;
use crate::json::{
    json_field, json_object, json_optional, json_string, law_json_object_is_one_line,
    law_json_string_is_one_line, lemma_one_line_field, lemma_one_line_optional, write_field,
    write_object, write_optional, write_string,
};
use crate::listing::{
    as_slice, city_of, country_of, day_of, description_of, missing_warning, place_of, state_of,
    taken_day, taken_where, unmapped_warning, warn_missing, warn_unmapped, Emission,
};
use crate::models::Asset;
use crate::path_map::{local_of, translate};
use crate::table::{is_table, line_views, render_table, table_text, LineView, TableLine};
use crate::text::{
    concat, decimal, is_one_line, lemma_concat_push, lemma_one_line_decimal, numeral, opt_text,
    texts,
};
use vstd::prelude::*;
use vstd::string::*;

verus! {

/// An asset that is listed, with its rank.
pub struct Row<'a> {
    pub rank: usize,
    pub asset: &'a Asset,
    pub local: String,
}

#[verifier::ext_equal]
pub ghost struct RowView {
    pub rank: nat,
    pub asset: Asset,
    pub local: Seq<char>,
}

impl<'a> View for Row<'a> {
    type V = RowView;

    open spec fn view(&self) -> RowView {
        RowView { rank: self.rank as nat, asset: *self.asset, local: self.local@ }
    }
}

pub open spec fn row_views(rows: Seq<Row>) -> Seq<RowView> {
    rows.map_values(|r: Row| r@)
}

/// The rows of the assets that are listed: those with a local path, and with
/// `verify` only where the file exists. The rank counts all assets.
pub open spec fn rows_of(
    path_map: Seq<PathMapEntry>,
    verify: bool,
    selected: Seq<Asset>,
    present: Seq<bool>,
) -> Seq<RowView>
    decreases selected.len(),
{
    if selected.len() == 0 {
        Seq::empty()
    } else {
        let before = rows_of(path_map, verify, selected.drop_last(), present);
        let a = selected.last();
        match local_of(a.original_path@, path_map) {
            Some(local) => if verify && !present[selected.len() - 1] {
                before
            } else {
                before.push(RowView { rank: selected.len(), asset: a, local })
            },
            None => before,
        }
    }
}

pub open spec fn warnings_of(
    path_map: Seq<PathMapEntry>,
    verify: bool,
    selected: Seq<Asset>,
    present: Seq<bool>,
) -> Seq<char>
    decreases selected.len(),
{
    if selected.len() == 0 {
        Seq::empty()
    } else {
        let a = selected.last();
        warnings_of(path_map, verify, selected.drop_last(), present) + match local_of(
            a.original_path@,
            path_map,
        ) {
            Some(local) => if verify && !present[selected.len() - 1] {
                missing_warning(a, local)
            } else {
                Seq::empty()
            },
            None => unmapped_warning(a),
        }
    }
}

fn collect_rows<'a>(
    path_map: &Vec<PathMapEntry>,
    verify: bool,
    selected: &'a Vec<Asset>,
    present: &Vec<bool>,
) -> (r: (Vec<Row<'a>>, String))
    requires
        present.len() == selected.len(),
    ensures
        row_views(r.0@) == rows_of(path_map@, verify, selected@, present@),
        r.1@ == warnings_of(path_map@, verify, selected@, present@),
{
    let mut rows: Vec<Row<'a>> = Vec::new();
    let mut warnings = String::new();
    let mut i: usize = 0;
    assert(row_views(rows@) =~= rows_of(path_map@, verify, selected@.take(0), present@));
    assert(warnings@ =~= Seq::<char>::empty());
    while i < selected.len()
        invariant
            present.len() == selected.len(),
            i <= selected.len(),
            row_views(rows@) == rows_of(path_map@, verify, selected@.take(i as int), present@),
            warnings@ == warnings_of(path_map@, verify, selected@.take(i as int), present@),
        decreases selected.len() - i,
    {
        assert(selected@.take(i + 1).drop_last() =~= selected@.take(i as int));
        let asset = &selected[i];
        let ghost before = row_views(rows@);
        let ghost said = warnings@;
        match translate(asset.original_path.as_str(), path_map) {
            None => warnings.append(warn_unmapped(asset).as_str()),
            Some(local) => {
                if verify && !present[i] {
                    warnings.append(warn_missing(asset, local.as_str()).as_str());
                } else {
                    let row = Row { rank: i + 1, asset, local };
                    let ghost added = row@;
                    rows.push(row);
                    assert(row_views(rows@) =~= before.push(added));
                    assert(said + Seq::<char>::empty() =~= said);
                }
            },
        }
        i += 1;
    }
    assert(selected@.take(i as int) =~= selected@);
    (rows, warnings)
}

/// The fields of a row as JSON, by name.
pub open spec fn json_fields(row: RowView) -> Seq<Seq<char>> {
    let a = row.asset;
    seq![
        json_field("city"@, json_optional(city_of(a))),
        json_field("country"@, json_optional(country_of(a))),
        json_field("description"@, json_optional(description_of(a))),
        json_field("id"@, json_string(a.id@)),
        json_field("localDateTime"@, json_optional(opt_text(a.local_date_time))),
        json_field("localPath"@, json_string(row.local)),
        json_field("originalFileName"@, json_string(a.original_file_name@)),
        json_field("originalPath"@, json_string(a.original_path@)),
        json_field("rank"@, decimal(row.rank)),
        json_field("state"@, json_optional(state_of(a))),
        json_field("type"@, json_string(a.asset_type@)),
    ]
}

pub open spec fn json_line(row: RowView) -> Seq<char> {
    json_object(json_fields(row)) + "\n"@
}

fn write_json_line(row: &Row) -> (r: String)
    ensures
        r@ == json_line(row@),
{
    let a = row.asset;
    let mut city: Option<&str> = None;
    let mut state: Option<&str> = None;
    let mut country: Option<&str> = None;
    let mut description: Option<&str> = None;
    if let Some(e) = &a.exif_info {
        city = as_slice(&e.city);
        state = as_slice(&e.state);
        country = as_slice(&e.country);
        description = as_slice(&e.description);
    }
    let mut fields: Vec<String> = Vec::new();
    fields.push(write_field("city", write_optional(city).as_str()));
    fields.push(write_field("country", write_optional(country).as_str()));
    fields.push(write_field("description", write_optional(description).as_str()));
    fields.push(write_field("id", write_string(a.id.as_str()).as_str()));
    fields.push(
        write_field("localDateTime", write_optional(as_slice(&a.local_date_time)).as_str()),
    );
    fields.push(write_field("localPath", write_string(row.local.as_str()).as_str()));
    fields.push(
        write_field("originalFileName", write_string(a.original_file_name.as_str()).as_str()),
    );
    fields.push(write_field("originalPath", write_string(a.original_path.as_str()).as_str()));
    fields.push(write_field("rank", numeral(row.rank as u128).as_str()));
    fields.push(write_field("state", write_optional(state).as_str()));
    fields.push(write_field("type", write_string(a.asset_type.as_str()).as_str()));
    assert(texts(fields@) =~= json_fields(row@));
    let mut out = write_object(&fields);
    out.append("\n");
    out
}

pub open spec fn table_header() -> LineView {
    LineView { mark: Seq::empty(), cells: seq!["#"@, "TYPE"@, "TAKEN"@, "LOCATION"@, "PATH"@] }
}

pub open spec fn table_row(row: RowView) -> LineView {
    LineView {
        mark: Seq::empty(),
        cells: seq![
            decimal(row.rank),
            row.asset.asset_type@,
            day_of(row.asset),
            place_of(row.asset),
            row.local,
        ],
    }
}

pub open spec fn table_lines(rows: Seq<RowView>) -> Seq<LineView> {
    seq![table_header()] + rows.map_values(|r: RowView| table_row(r))
}

fn empty_text() -> (r: String)
    ensures
        r@ == Seq::<char>::empty(),
{
    let out = String::new();
    assert(out@ =~= Seq::<char>::empty());
    out
}

fn write_table(rows: &Vec<Row>) -> (r: String)
    ensures
        r@ == table_text(table_lines(row_views(rows@))),
{
    let ghost wanted = table_lines(row_views(rows@));
    let mut lines: Vec<TableLine> = Vec::new();
    let mut header: Vec<String> = Vec::new();
    header.push("#".to_owned());
    header.push("TYPE".to_owned());
    header.push("TAKEN".to_owned());
    header.push("LOCATION".to_owned());
    header.push("PATH".to_owned());
    let head = TableLine { mark: empty_text(), cells: header };
    assert(head@.cells =~= table_header().cells);
    assert(head@ == table_header());
    lines.push(head);
    let mut i: usize = 0;
    assert(line_views(lines@) =~= wanted.take(1));
    while i < rows.len()
        invariant
            i <= rows.len(),
            wanted == table_lines(row_views(rows@)),
            line_views(lines@) == wanted.take(i + 1),
        decreases rows.len() - i,
    {
        let row = &rows[i];
        let mut cells: Vec<String> = Vec::new();
        cells.push(numeral(row.rank as u128));
        cells.push(row.asset.asset_type.clone());
        cells.push(taken_day(row.asset));
        cells.push(taken_where(row.asset));
        cells.push(row.local.clone());
        let line = TableLine { mark: empty_text(), cells };
        let ghost l = line@;
        assert(l.cells =~= table_row(row@).cells);
        assert(wanted[i + 1] == l);
        let ghost before = line_views(lines@);
        lines.push(line);
        assert(line_views(lines@) =~= before.push(l));
        assert(wanted.take(i + 2) =~= wanted.take(i + 1).push(l));
        i += 1;
    }
    assert(wanted.take(i + 1) =~= wanted);
    assert(is_table(wanted, 5));
    render_table(&lines, 5)
}

/// All that is printed of the assets that were picked.
pub open spec fn printed(
    path_map: Seq<PathMapEntry>,
    args: AskArgs,
    selected: Seq<Asset>,
    present: Seq<bool>,
) -> Seq<char> {
    let rows = rows_of(path_map, args.verify, selected, present);
    match args.format {
        OutputFormat::Paths => concat(rows.map_values(|r: RowView| r.local + "\n"@)),
        OutputFormat::Json => concat(rows.map_values(|r: RowView| json_line(r))),
        OutputFormat::Table => table_text(table_lines(rows)),
    }
}

/// Every object is on a line of its own: the text of a row holds no line feed
/// but the one at its end.
pub proof fn law_json_rows_are_one_line(row: RowView)
    ensures
        json_line(row) == json_object(json_fields(row)) + "\n"@,
        is_one_line(json_object(json_fields(row))),
{
    let a = row.asset;
    reveal_strlit("city");
    reveal_strlit("country");
    reveal_strlit("description");
    reveal_strlit("id");
    reveal_strlit("localDateTime");
    reveal_strlit("localPath");
    reveal_strlit("originalFileName");
    reveal_strlit("originalPath");
    reveal_strlit("rank");
    reveal_strlit("state");
    reveal_strlit("type");
    lemma_one_line_optional(city_of(a));
    lemma_one_line_optional(country_of(a));
    lemma_one_line_optional(description_of(a));
    law_json_string_is_one_line(a.id@);
    lemma_one_line_optional(opt_text(a.local_date_time));
    law_json_string_is_one_line(row.local);
    law_json_string_is_one_line(a.original_file_name@);
    law_json_string_is_one_line(a.original_path@);
    lemma_one_line_decimal(row.rank);
    lemma_one_line_optional(state_of(a));
    law_json_string_is_one_line(a.asset_type@);
    lemma_one_line_field("city"@, json_optional(city_of(a)));
    lemma_one_line_field("country"@, json_optional(country_of(a)));
    lemma_one_line_field("description"@, json_optional(description_of(a)));
    lemma_one_line_field("id"@, json_string(a.id@));
    lemma_one_line_field("localDateTime"@, json_optional(opt_text(a.local_date_time)));
    lemma_one_line_field("localPath"@, json_string(row.local));
    lemma_one_line_field("originalFileName"@, json_string(a.original_file_name@));
    lemma_one_line_field("originalPath"@, json_string(a.original_path@));
    lemma_one_line_field("rank"@, decimal(row.rank));
    lemma_one_line_field("state"@, json_optional(state_of(a)));
    lemma_one_line_field("type"@, json_string(a.asset_type@));
    law_json_object_is_one_line(json_fields(row));
}

/// Writes the assets that were picked. `present` tells of each whether its
/// local file exists; it matters only with `verify`.
pub fn emit(
    path_map: &Vec<PathMapEntry>,
    args: &AskArgs,
    selected: &Vec<Asset>,
    present: &Vec<bool>,
) -> (r: Emission)
    requires
        present.len() == selected.len(),
    ensures
        r.out@ == printed(path_map@, *args, selected@, present@),
        r.warnings@ == warnings_of(path_map@, args.verify, selected@, present@),
{
    let (rows, warnings) = collect_rows(path_map, args.verify, selected, present);
    let ghost views = row_views(rows@);
    match args.format {
        OutputFormat::Paths => {
            let ghost lines = views.map_values(|r: RowView| r.local + "\n"@);
            let mut out = String::new();
            let mut i: usize = 0;
            assert(out@ =~= concat(lines.take(0)));
            while i < rows.len()
                invariant
                    i <= rows.len(),
                    lines == row_views(rows@).map_values(|r: RowView| r.local + "\n"@),
                    out@ == concat(lines.take(i as int)),
                decreases rows.len() - i,
            {
                let mut line = rows[i].local.clone();
                line.append("\n");
                assert(lines[i as int] == line@);
                proof {
                    lemma_concat_push(lines.take(i as int), line@);
                    assert(lines.take(i + 1) =~= lines.take(i as int).push(line@));
                }
                out.append(line.as_str());
                i += 1;
            }
            assert(lines.take(i as int) =~= lines);
            Emission { out, warnings }
        },
        OutputFormat::Json => {
            let ghost lines = views.map_values(|r: RowView| json_line(r));
            let mut out = String::new();
            let mut i: usize = 0;
            assert(out@ =~= concat(lines.take(0)));
            while i < rows.len()
                invariant
                    i <= rows.len(),
                    lines == row_views(rows@).map_values(|r: RowView| json_line(r)),
                    out@ == concat(lines.take(i as int)),
                decreases rows.len() - i,
            {
                let line = write_json_line(&rows[i]);
                assert(lines[i as int] == line@);
                proof {
                    lemma_concat_push(lines.take(i as int), line@);
                    assert(lines.take(i + 1) =~= lines.take(i as int).push(line@));
                }
                out.append(line.as_str());
                i += 1;
            }
            assert(lines.take(i as int) =~= lines);
            Emission { out, warnings }
        },
        OutputFormat::Table => Emission { out: write_table(&rows), warnings },
    }
}

} // verus!
