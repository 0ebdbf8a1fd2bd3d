//! What `search` guarantees of its requests and of what it prints.
use crate::commands::search::args::{
    clean_text, date_bound, is_set, looks_like_a_day, normalize_date_end, normalize_date_start,
    AssetTypeArg, OutputFormat, SearchArgs,
};
use crate::commands::search::emit::{
    emit_to_writer, json_fields, json_line, local_paths, path_line, printed, rows_of, rows_text,
    table_lines, table_row, warnings_of, RowView,
};
use crate::commands::search::fetch::{
    build_hard_filters, filters_built, page_request, size_of_page, FetchResult,
};
use crate::config::PathMapEntry;
use crate::description_search::{keyword_request, HardFilters};
use crate::error::Error;
use crate::json::{json_object, json_string};
use crate::listing::{place_of, Emission};
use crate::models::Asset;
use crate::moments::{clock_text, date_of, date_text, zero_padded};
use crate::path_map::local_of;
use crate::places::{PlaceMatch, PlaceView};
use crate::table::table_text;
use crate::text::{
    decimal, holds, join, lemma_holds_joined, lemma_holds_within, opt_text, trim, up_to_first,
};
use vstd::prelude::*;
use vstd::string::*;

verus! {

// ---- requests ---------------------------------------------------------------

/// The search for a keyword filters exactly as the search by similarity does for the same
/// arguments and place: by the same times, type, recognised text, archive and place.
#[verifier::spinoff_prover]
#[verifier::rlimit(60)]
pub proof fn law_keywords_are_searched_under_the_same_filters(
    args: SearchArgs,
    place: PlaceView,
    filters: HardFilters,
    keyword: Seq<char>,
    cap: u32,
    page: nat,
    size: u32,
)
    requires
        filters_built(args, place, Ok(filters)),
    ensures
        date_bound(args.taken_after, false) is Some,
        date_bound(args.taken_before, true) is Some,
        ({
            let by_keyword = keyword_request(keyword, filters, cap);
            let by_image = page_request(
                args,
                place,
                date_bound(args.taken_after, false)->0,
                date_bound(args.taken_before, true)->0,
                page,
                size,
            );
            &&& by_keyword.taken_after == by_image.taken_after
            &&& by_keyword.taken_before == by_image.taken_before
            &&& by_keyword.asset_type == by_image.asset_type
            &&& by_keyword.ocr == by_image.ocr
            &&& by_keyword.visibility == by_image.visibility
            &&& by_keyword.city == by_image.city
            &&& by_keyword.state == by_image.state
            &&& by_keyword.country == by_image.country
            &&& by_keyword.description == Some(keyword)
            &&& by_keyword.query is None
            &&& by_image.description is None
            &&& by_keyword.original_file_name is None
            &&& by_image.original_file_name is None
            &&& by_keyword.page is None
            &&& by_keyword.size == Some(cap)
            &&& by_keyword.with_exif == Some(true)
        }),
{
}

/// A request carries what was asked for: the query and the recognised text without white
/// space around them, the place, the times, the type and the archive.
#[verifier::spinoff_prover]
#[verifier::rlimit(60)]
pub proof fn law_request_carries_the_arguments(
    args: SearchArgs,
    place: PlaceView,
    after: Option<Seq<char>>,
    before: Option<Seq<char>>,
    page: nat,
    size: u32,
)
    requires
        page <= u32::MAX,
    ensures
        ({
            let r = page_request(args, place, after, before, page, size);
            &&& args.query is None ==> r.query is None
            &&& args.query matches Some(q) ==> r.query == (if trim(q@).len() > 0 {
                Some(trim(q@))
            } else {
                None
            })
            &&& args.ocr is None ==> r.ocr is None
            &&& args.ocr matches Some(t) ==> r.ocr == (if trim(t@).len() > 0 {
                Some(trim(t@))
            } else {
                None
            })
            &&& r.city == place.city && r.state == place.state && r.country == place.country
            &&& r.taken_after == after && r.taken_before == before
            &&& args.asset_type is None ==> r.asset_type is None
            &&& args.asset_type == Some(AssetTypeArg::Image) ==> r.asset_type == Some("IMAGE"@)
            &&& args.asset_type == Some(AssetTypeArg::Video) ==> r.asset_type == Some("VIDEO"@)
            &&& args.asset_type == Some(AssetTypeArg::Audio) ==> r.asset_type == Some("AUDIO"@)
            &&& args.asset_type == Some(AssetTypeArg::Other) ==> r.asset_type == Some("OTHER"@)
            &&& args.include_archived ==> r.visibility == Some("archive"@)
            &&& !args.include_archived ==> r.visibility is None
            &&& r.page == Some(page as u32) && r.size == Some(size) && r.with_exif == Some(true)
        }),
{
    if let Some(q) = args.query {
        crate::text::lemma_trim_empty(q@);
    }
    if let Some(t) = args.ocr {
        crate::text::lemma_trim_empty(t@);
    }
}

/// A page holds no more than are wanted and no more than the server allows, but one at
/// least.
#[verifier::spinoff_prover]
#[verifier::rlimit(60)]
pub proof fn law_size_of_a_page(max: u32, cap: u32)
    ensures
        size_of_page(max, cap) >= 1,
        max >= 1 && cap >= 1 ==> size_of_page(max, cap) <= max && size_of_page(max, cap) <= cap && (
        size_of_page(max, cap) == max || size_of_page(max, cap) == cap),
{
}

// ---- days -------------------------------------------------------------------

/// A day that is given as the earliest time counts from its first millisecond, and as the
/// latest to its last; a time that is no day is passed on as it is, and without a flag
/// nothing is sent.
#[verifier::spinoff_prover]
#[verifier::rlimit(60)]
pub proof fn law_days_are_whole(flag: Option<String>, end: bool, d: (i32, u32, u32))
    ensures
        flag is None ==> date_bound(flag, end) == Some(None::<Seq<char>>),
        flag matches Some(t) ==> trim(t@).len() == 0 ==> date_bound(flag, end) == Some(
            None::<Seq<char>>,
        ),
        flag matches Some(t) ==> trim(t@).len() > 0 && !looks_like_a_day(trim(t@)) ==> date_bound(
            flag,
            end,
        ) == Some(Some(trim(t@))),
        flag matches Some(t) ==> trim(t@).len() > 0 && looks_like_a_day(trim(t@)) && date_of(
            trim(t@),
            "%Y-%m-%d"@,
        ) == Ok::<(i32, u32, u32), Seq<char>>(d) ==> date_bound(flag, end) == Some(
            Some(
                date_text(d.0 as int, d.1 as int, d.2 as int) + (if end {
                    "T23:59:59.999Z"@
                } else {
                    "T00:00:00.000Z"@
                }),
            ),
        ),
{
    if let Some(t) = flag {
        crate::text::lemma_trim_empty(t@);
    }
    lemma_clocks();
    let date = date_text(d.0 as int, d.1 as int, d.2 as int);
    reveal_strlit("T");
    reveal_strlit("Z");
    reveal_strlit("T00:00:00.000Z");
    reveal_strlit("T23:59:59.999Z");
    assert(date + "T"@ + "00:00:00.000"@ + "Z"@ =~= date + "T00:00:00.000Z"@) by {
        reveal_strlit("00:00:00.000");
    }
    assert(date + "T"@ + "23:59:59.999"@ + "Z"@ =~= date + "T23:59:59.999Z"@) by {
        reveal_strlit("23:59:59.999");
    }
}

#[verifier::spinoff_prover]
#[verifier::rlimit(60)]
proof fn lemma_two_digits(n: nat)
    requires
        n < 100,
    ensures
        zero_padded(n, 2) == seq![crate::text::digit(n / 10), crate::text::digit(n % 10)],
{
    reveal_with_fuel(decimal, 3);
    assert(zero_padded(n, 2) =~= seq![crate::text::digit(n / 10), crate::text::digit(n % 10)]);
}

#[verifier::spinoff_prover]
#[verifier::rlimit(60)]
proof fn lemma_clocks()
    ensures
        clock_text(0, 0, 0, 0) == "00:00:00.000"@,
        clock_text(23, 59, 59, 999) == "23:59:59.999"@,
{
    reveal_with_fuel(decimal, 4);
    lemma_two_digits(0);
    lemma_two_digits(23);
    lemma_two_digits(59);
    assert(zero_padded(0, 3) =~= seq!['0', '0', '0']);
    assert(zero_padded(999, 3) =~= seq!['9', '9', '9']);
    reveal_strlit(":");
    reveal_strlit(".");
    reveal_strlit("00:00:00.000");
    reveal_strlit("23:59:59.999");
    assert(clock_text(0, 0, 0, 0) =~= "00:00:00.000"@);
    assert(clock_text(23, 59, 59, 999) =~= "23:59:59.999"@);
}

/// A search is accepted exactly where it filters something that is not blank, asks for one
/// result at least, and with a query for 48 at most. Without a limit there are 24 results
/// with a query and 1000 without one.
#[verifier::spinoff_prover]
#[verifier::rlimit(60)]
pub proof fn law_accepted_searches(args: SearchArgs)
    ensures
        is_set(args.query) <==> args.query is Some && trim(args.query->0@).len() > 0,
        args.refusal() is None <==> args.limit != Some(0u32) && (is_set(args.query) || is_set(
            args.taken_after,
        ) || is_set(args.taken_before) || is_set(args.place) || is_set(args.ocr)
            || args.asset_type is Some) && (is_set(args.query) ==> args.limit is None
            || args.limit->0 <= 48),
        args.limit == Some(0u32) ==> args.refusal() == Some(Error::LimitZero),
        args.limit != Some(0u32) && !is_set(args.query) && !is_set(args.taken_after) && !is_set(
            args.taken_before,
        ) && !is_set(args.place) && !is_set(args.ocr) && args.asset_type is None ==> args.refusal()
            == Some(Error::NoFilter),
        is_set(args.query) && args.limit is Some && args.limit->0 > 48 ==> args.refusal() == Some(
            Error::QueryLimitTooHigh,
        ),
        args.limit matches Some(n) ==> args.cap() == n,
        args.limit is None && is_set(args.query) ==> args.cap() == 24,
        args.limit is None && !is_set(args.query) ==> args.cap() == 1000,
{
    if let Some(q) = args.query {
        crate::text::lemma_trim_empty(q@);
    }
}

// ---- what is listed ---------------------------------------------------------

/// An asset is listed where it has a local path, or unmapped ones are asked for too, and
/// where its file is there, or is not looked for, or missing ones are asked for too. Its
/// row has its local path and tells whether the file is missing.
#[verifier::spinoff_prover]
#[verifier::rlimit(60)]
pub proof fn law_which_assets_are_listed(
    path_map: Seq<PathMapEntry>,
    args: SearchArgs,
    assets: Seq<Asset>,
    present: Seq<bool>,
    a: Asset,
    there: bool,
)
    requires
        present.len() == assets.len(),
    ensures
        ({
            let before = rows_of(path_map, args, assets, present);
            let after = rows_of(path_map, args, assets.push(a), present.push(there));
            let local = local_of(a.original_path@, path_map);
            let missing = args.verify && local is Some && !there;
            let listed = (local is Some || args.include_unmapped) && (!missing
                || args.include_missing);
            &&& listed ==> after == before.push(RowView { asset: a, local, missing })
            &&& !listed ==> after == before
        }),
{
    assert(assets.push(a).drop_last() =~= assets);
    lemma_rows_ignore_the_rest(path_map, args, assets, present, there);
}

#[verifier::spinoff_prover]
#[verifier::rlimit(60)]
proof fn lemma_rows_ignore_the_rest(
    path_map: Seq<PathMapEntry>,
    args: SearchArgs,
    assets: Seq<Asset>,
    present: Seq<bool>,
    there: bool,
)
    requires
        present.len() >= assets.len(),
    ensures
        rows_of(path_map, args, assets, present.push(there)) == rows_of(
            path_map,
            args,
            assets,
            present,
        ),
        warnings_of(path_map, args, assets, present.push(there)) == warnings_of(
            path_map,
            args,
            assets,
            present,
        ),
    decreases assets.len(),
{
    if assets.len() > 0 {
        lemma_rows_ignore_the_rest(path_map, args, assets.drop_last(), present, there);
    }
}

/// An asset that is left out for want of a local path is warned of by its server path and
/// id, and a missing file by its id and local path; nothing else is.
#[verifier::spinoff_prover]
#[verifier::rlimit(60)]
pub proof fn law_what_is_warned_of(
    path_map: Seq<PathMapEntry>,
    args: SearchArgs,
    assets: Seq<Asset>,
    present: Seq<bool>,
    a: Asset,
    there: bool,
)
    requires
        present.len() == assets.len(),
    ensures
        ({
            let before = warnings_of(path_map, args, assets, present);
            let after = warnings_of(path_map, args, assets.push(a), present.push(there));
            let local = local_of(a.original_path@, path_map);
            if local is None && !args.include_unmapped {
                after == before + ("warn: no path mapping for "@ + a.original_path@ + " (asset "@
                    + a.id@ + ")\n"@)
            } else if local is Some && args.verify && !there {
                after == before + ("warn: local file missing for asset "@ + a.id@ + ": "@
                    + local->0 + "\n"@)
            } else {
                after == before
            }
        }),
{
    assert(assets.push(a).drop_last() =~= assets);
    lemma_rows_ignore_the_rest(path_map, args, assets, present, there);
    let before = warnings_of(path_map, args, assets, present);
    assert(before + Seq::<char>::empty() =~= before);
}

/// A path is printed as it is on this machine; a missing or unmapped one is marked, and the
/// latter is that of the server.
#[verifier::spinoff_prover]
#[verifier::rlimit(60)]
pub proof fn law_printed_paths(row: RowView)
    ensures
        row.local matches Some(p) ==> path_line(row) == (if row.missing {
            "MISSING\t"@ + p + "\n"@
        } else {
            p + "\n"@
        }),
        row.local is None && !row.missing ==> path_line(row) == "UNMAPPED\t"@
            + row.asset.original_path@ + "\n"@,
{
    if let Some(p) = row.local {
        assert(Seq::<char>::empty() + p =~= p);
    }
}

/// A row as JSON has each fact under its name.
#[verifier::spinoff_prover]
#[verifier::rlimit(60)]
pub proof fn law_json_names_the_facts(row: RowView)
    ensures
        holds(json_line(row), "\"id\":"@ + json_string(row.asset.id@)),
        holds(json_line(row), "\"type\":"@ + json_string(row.asset.asset_type@)),
        holds(json_line(row), "\"originalPath\":"@ + json_string(row.asset.original_path@)),
        holds(
            json_line(row),
            "\"originalFileName\":"@ + json_string(row.asset.original_file_name@),
        ),
        row.local matches Some(p) ==> holds(json_line(row), "\"localPath\":"@ + json_string(p)),
        row.local is None ==> holds(json_line(row), "\"localPath\":null"@) && holds(
            json_line(row),
            "\"unmapped\":true"@,
        ),
        row.local is Some ==> holds(json_line(row), "\"unmapped\":false"@),
        row.missing ==> holds(json_line(row), "\"missing\":true"@),
        !row.missing ==> holds(json_line(row), "\"missing\":false"@),
        row.asset.local_date_time matches Some(t) ==> holds(
            json_line(row),
            "\"localDateTime\":"@ + json_string(t@),
        ),
        row.asset.exif_info matches Some(e) ==> {
            &&& e.latitude matches Some(d) ==> holds(json_line(row), "\"latitude\":"@ + d.number@)
            &&& e.longitude matches Some(d) ==> holds(json_line(row), "\"longitude\":"@ + d.number@)
            &&& e.city matches Some(t) ==> holds(json_line(row), "\"city\":"@ + json_string(t@))
            &&& e.state matches Some(t) ==> holds(json_line(row), "\"state\":"@ + json_string(t@))
            &&& e.country matches Some(t) ==> holds(
                json_line(row),
                "\"country\":"@ + json_string(t@),
            )
        },
{
    let a = row.asset;
    lemma_field(row, 0);
    lemma_field(row, 1);
    lemma_field(row, 2);
    lemma_field(row, 3);
    lemma_field(row, 4);
    lemma_field(row, 5);
    lemma_field(row, 6);
    lemma_field(row, 7);
    lemma_field(row, 8);
    lemma_field(row, 9);
    lemma_field(row, 10);
    lemma_field(row, 11);
    lemma_field(row, 12);
    reveal_strlit("\"");
    reveal_strlit("\":");
    reveal_strlit("city");
    reveal_strlit("\"city\":");
    reveal_strlit("country");
    reveal_strlit("\"country\":");
    reveal_strlit("id");
    reveal_strlit("\"id\":");
    reveal_strlit("latitude");
    reveal_strlit("\"latitude\":");
    reveal_strlit("localDateTime");
    reveal_strlit("\"localDateTime\":");
    reveal_strlit("localPath");
    reveal_strlit("\"localPath\":");
    reveal_strlit("longitude");
    reveal_strlit("\"longitude\":");
    reveal_strlit("missing");
    reveal_strlit("\"missing\":");
    reveal_strlit("originalFileName");
    reveal_strlit("\"originalFileName\":");
    reveal_strlit("originalPath");
    reveal_strlit("\"originalPath\":");
    reveal_strlit("state");
    reveal_strlit("\"state\":");
    reveal_strlit("type");
    reveal_strlit("\"type\":");
    reveal_strlit("unmapped");
    reveal_strlit("\"unmapped\":");
    reveal_strlit("true");
    reveal_strlit("false");
    reveal_strlit("null");
    reveal_strlit("\"localPath\":null");
    reveal_strlit("\"unmapped\":true");
    reveal_strlit("\"unmapped\":false");
    reveal_strlit("\"missing\":true");
    reveal_strlit("\"missing\":false");
    assert("\"city\":"@ =~= "\""@ + "city"@ + "\":"@);
    assert("\"country\":"@ =~= "\""@ + "country"@ + "\":"@);
    assert("\"id\":"@ =~= "\""@ + "id"@ + "\":"@);
    assert("\"latitude\":"@ =~= "\""@ + "latitude"@ + "\":"@);
    assert("\"localDateTime\":"@ =~= "\""@ + "localDateTime"@ + "\":"@);
    assert("\"localPath\":"@ =~= "\""@ + "localPath"@ + "\":"@);
    assert("\"longitude\":"@ =~= "\""@ + "longitude"@ + "\":"@);
    assert("\"missing\":"@ =~= "\""@ + "missing"@ + "\":"@);
    assert("\"originalFileName\":"@ =~= "\""@ + "originalFileName"@ + "\":"@);
    assert("\"originalPath\":"@ =~= "\""@ + "originalPath"@ + "\":"@);
    assert("\"state\":"@ =~= "\""@ + "state"@ + "\":"@);
    assert("\"type\":"@ =~= "\""@ + "type"@ + "\":"@);
    assert("\"unmapped\":"@ =~= "\""@ + "unmapped"@ + "\":"@);
    assert("\"localPath\":null"@ =~= "\"localPath\":"@ + "null"@);
    assert("\"unmapped\":true"@ =~= "\"unmapped\":"@ + "true"@);
    assert("\"unmapped\":false"@ =~= "\"unmapped\":"@ + "false"@);
    assert("\"missing\":true"@ =~= "\"missing\":"@ + "true"@);
    assert("\"missing\":false"@ =~= "\"missing\":"@ + "false"@);
}

#[verifier::spinoff_prover]
#[verifier::rlimit(60)]
proof fn lemma_field(row: RowView, k: int)
    requires
        0 <= k < json_fields(row).len(),
    ensures
        holds(json_line(row), json_fields(row)[k]),
{
    let fields = json_fields(row);
    lemma_holds_joined(fields, ","@, k);
    lemma_holds_within("{"@, join(fields, ","@), "}"@, fields[k]);
    lemma_holds_within(Seq::empty(), json_object(fields), "\n"@, fields[k]);
}

/// A row of the table shows the type, the day, the place and the path of its asset, in
/// these columns; the path is that on this machine.
#[verifier::spinoff_prover]
#[verifier::rlimit(60)]
pub proof fn law_table_rows(row: RowView)
    ensures
        table_row(row).cells.len() == 4,
        table_row(row).cells[0] == row.asset.asset_type@,
        row.asset.local_date_time matches Some(t) ==> table_row(row).cells[1] == up_to_first(
            t@,
            'T',
        ),
        row.asset.local_date_time is None ==> table_row(row).cells[1].len() == 0,
        table_row(row).cells[2] == place_of(row.asset),
        row.local matches Some(p) ==> table_row(row).cells[3] == p,
        row.local is None ==> table_row(row).cells[3] == "(unmapped) "@ + row.asset.original_path@,
        row.missing ==> table_row(row).mark == "MISSING\t"@,
        !row.missing ==> table_row(row).mark.len() == 0,
{
}

/// In each format there is a line for each row, in their order: adding a row adds its line
/// behind the others, and in a table a row changes no cell of another.
#[verifier::spinoff_prover]
#[verifier::rlimit(60)]
pub proof fn law_rows_are_printed_in_order(rows: Seq<RowView>, row: RowView)
    ensures
        rows_text(OutputFormat::Paths, rows.push(row)) == rows_text(OutputFormat::Paths, rows)
            + path_line(row),
        rows_text(OutputFormat::Json, rows.push(row)) == rows_text(OutputFormat::Json, rows)
            + json_line(row),
        table_lines(rows.push(row)) == table_lines(rows).push(table_row(row)),
        table_lines(Seq::empty()).len() == 1,
        table_lines(Seq::empty())[0].cells == seq!["TYPE"@, "TAKEN"@, "LOCATION"@, "PATH"@],
{
    let paths = rows.map_values(|r: RowView| path_line(r));
    let lines = rows.map_values(|r: RowView| json_line(r));
    assert(rows.push(row).map_values(|r: RowView| path_line(r)) =~= paths.push(path_line(row)));
    assert(rows.push(row).map_values(|r: RowView| json_line(r)) =~= lines.push(json_line(row)));
    crate::text::lemma_concat_push(paths, path_line(row));
    crate::text::lemma_concat_push(lines, json_line(row));
    assert(table_lines(rows.push(row)) =~= table_lines(rows).push(table_row(row)));
}

/// A result that lacks something ends in a mark, one that lacks nothing does not, and
/// before it stand the rows of the assets of the result in the format that was asked for.
#[verifier::spinoff_prover]
#[verifier::rlimit(60)]
pub proof fn law_what_is_printed(
    path_map: Seq<PathMapEntry>,
    args: SearchArgs,
    result: FetchResult,
    present: Seq<bool>,
)
    ensures
        ({
            let rows = rows_text(args.format, rows_of(path_map, args, result.assets@, present));
            let all = printed(path_map, args, result, present);
            &&& !result.truncated ==> all == rows
            &&& result.truncated && args.format is Json ==> all == rows
                + "{\"truncated\":true}\n"@
            &&& result.truncated && !(args.format is Json) ==> all == rows + "......\n"@
        }),
{
    let rows = rows_text(args.format, rows_of(path_map, args, result.assets@, present));
    assert(rows + Seq::<char>::empty() =~= rows);
}

/// A table has a line for its header and one for each row, as they are.
#[verifier::spinoff_prover]
#[verifier::rlimit(60)]
pub proof fn law_tables_are_their_rows(rows: Seq<RowView>, i: int)
    requires
        0 <= i < rows.len(),
    ensures
        rows_text(OutputFormat::Table, rows) == table_text(table_lines(rows)),
        table_lines(rows).len() == rows.len() + 1,
        table_lines(rows)[i + 1] == table_row(rows[i]),
{
}

// ---- the functions themselves -----------------------------------------------

/// What is printed and warned of are the rows and warnings of the result, and a local path is
/// looked for under the path map.
#[verifier::spinoff_prover]
#[verifier::rlimit(60)]
pub proof fn law_output_is_the_result(
    path_map: &Vec<PathMapEntry>,
    args: &SearchArgs,
    result: &FetchResult,
    present: &Vec<bool>,
    r: Emission,
    paths: Vec<Option<String>>,
    i: int,
)
    requires
        present.len() == result.assets.len(),
        call_ensures(emit_to_writer, (path_map, args, result, present), r),
        call_ensures(local_paths, (path_map, &result.assets), paths),
    ensures
        r.out@ == printed(path_map@, *args, *result, present@),
        r.warnings@ == warnings_of(path_map@, *args, result.assets@, present@),
        paths@.len() == result.assets@.len(),
        0 <= i < paths@.len() ==> opt_text(paths@[i]) == local_of(
            result.assets@[i].original_path@,
            path_map@,
        ),
{
}

/// The filters that are built are those of the arguments and the place, and a date flag is
/// read as the bound that it stands for.
#[verifier::spinoff_prover]
#[verifier::rlimit(60)]
pub proof fn law_filters_are_the_arguments(
    args: &SearchArgs,
    place: &PlaceMatch,
    filters: HardFilters,
    start: Result<String, Error>,
    end: Result<String, Error>,
    day: &str,
    d: (i32, u32, u32),
)
    requires
        call_ensures(build_hard_filters, (args, place), Ok::<HardFilters, Error>(filters)),
        call_ensures(normalize_date_start, (day,), start),
        call_ensures(normalize_date_end, (day,), end),
        looks_like_a_day(trim(day@)),
        date_of(trim(day@), "%Y-%m-%d"@) == Ok::<(i32, u32, u32), Seq<char>>(d),
    ensures
        opt_text(filters.city) == opt_text(place.city),
        opt_text(filters.state) == opt_text(place.state),
        opt_text(filters.country) == opt_text(place.country),
        Some(opt_text(filters.taken_after)) == date_bound(args.taken_after, false),
        Some(opt_text(filters.taken_before)) == date_bound(args.taken_before, true),
        opt_text(filters.ocr) == clean_text(args.ocr),
        filters.visibility is Some <==> args.include_archived,
        filters.asset_type is Some <==> args.asset_type is Some,
        start is Ok && start->Ok_0@ == date_text(d.0 as int, d.1 as int, d.2 as int)
            + "T00:00:00.000Z"@,
        end is Ok && end->Ok_0@ == date_text(d.0 as int, d.1 as int, d.2 as int)
            + "T23:59:59.999Z"@,
{
    crate::text::lemma_trim_empty(day@);
    lemma_bounds(date_text(d.0 as int, d.1 as int, d.2 as int));
}

#[verifier::spinoff_prover]
#[verifier::rlimit(60)]
proof fn lemma_bounds(date: Seq<char>)
    ensures
        date + "T"@ + clock_text(0, 0, 0, 0) + "Z"@ == date + "T00:00:00.000Z"@,
        date + "T"@ + clock_text(23, 59, 59, 999) + "Z"@ == date + "T23:59:59.999Z"@,
{
    lemma_clocks();
    reveal_strlit("T");
    reveal_strlit("Z");
    reveal_strlit("T00:00:00.000Z");
    reveal_strlit("T23:59:59.999Z");
    reveal_strlit("00:00:00.000");
    reveal_strlit("23:59:59.999");
    assert(date + "T"@ + "00:00:00.000"@ + "Z"@ =~= date + "T00:00:00.000Z"@);
    assert(date + "T"@ + "23:59:59.999"@ + "Z"@ =~= date + "T23:59:59.999Z"@);
}

/// What is not known of an asset is null in its JSON.
#[verifier::spinoff_prover]
#[verifier::rlimit(60)]
pub proof fn law_json_has_null_for_the_unknown(row: RowView)
    ensures
        row.asset.local_date_time is None ==> holds(json_line(row), "\"localDateTime\":null"@),
        row.asset.exif_info is None || row.asset.exif_info->0.city is None ==> holds(
            json_line(row),
            "\"city\":null"@,
        ),
        row.asset.exif_info is None || row.asset.exif_info->0.state is None ==> holds(
            json_line(row),
            "\"state\":null"@,
        ),
        row.asset.exif_info is None || row.asset.exif_info->0.country is None ==> holds(
            json_line(row),
            "\"country\":null"@,
        ),
        row.asset.exif_info is None || row.asset.exif_info->0.latitude is None ==> holds(
            json_line(row),
            "\"latitude\":null"@,
        ),
        row.asset.exif_info is None || row.asset.exif_info->0.longitude is None ==> holds(
            json_line(row),
            "\"longitude\":null"@,
        ),
{
    lemma_field(row, 0);
    lemma_field(row, 1);
    lemma_field(row, 3);
    lemma_field(row, 4);
    lemma_field(row, 6);
    lemma_field(row, 10);
    reveal_strlit("\"");
    reveal_strlit("\":");
    reveal_strlit("null");
    reveal_strlit("city");
    reveal_strlit("country");
    reveal_strlit("latitude");
    reveal_strlit("localDateTime");
    reveal_strlit("longitude");
    reveal_strlit("state");
    reveal_strlit("\"city\":null");
    reveal_strlit("\"country\":null");
    reveal_strlit("\"latitude\":null");
    reveal_strlit("\"localDateTime\":null");
    reveal_strlit("\"longitude\":null");
    reveal_strlit("\"state\":null");
    assert("\"city\":null"@ =~= "\""@ + "city"@ + "\":"@ + "null"@);
    assert("\"country\":null"@ =~= "\""@ + "country"@ + "\":"@ + "null"@);
    assert("\"latitude\":null"@ =~= "\""@ + "latitude"@ + "\":"@ + "null"@);
    assert("\"localDateTime\":null"@ =~= "\""@ + "localDateTime"@ + "\":"@ + "null"@);
    assert("\"longitude\":null"@ =~= "\""@ + "longitude"@ + "\":"@ + "null"@);
    assert("\"state\":null"@ =~= "\""@ + "state"@ + "\":"@ + "null"@);
}

} // verus!
