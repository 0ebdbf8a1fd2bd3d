//! What `ask` guarantees.
use crate::client::SearchBackend;
use crate::commands::ask::answer::{
    answered, answered_from, answering_allowed, asking_allowed, candidate_json, candidate_pages,
    candidate_searches_allowed, candidate_with, candidates_collected, candidates_named,
    description_request, found_in, law_candidates_are_distinct, rank_message, ranking,
    ranking_from_reply, run_with, shortened, AskArgs, AskOutcome, DESCRIPTION_EXCERPT_CHARS,
    KEYWORD_SYSTEM_PROMPT, MAX_CANDIDATES, MAX_KEYWORDS, RERANK_SYSTEM_PROMPT,
};
use crate::commands::ask::emit::{
    emit, json_fields, json_line, printed, rows_of, table_lines, table_row, warnings_of, RowView,
};
use crate::commands::search::fetch::gathered;
use crate::commands::search::query::{has_asset, law_distinct_assets};
use crate::config::PathMapEntry;
use crate::error::Error;
use crate::json::{json_field, json_object, json_of, json_string, record_texts};
use crate::keywords::{distinct, expanded, first};
use crate::listing::{place_of, Emission};
use crate::llm::{chat_reply, dialogue, message_views, ChatBackend, Message};
use crate::models::{Asset, SearchResponse};
use crate::path_map::local_of;
use crate::table::{line_text, table_text, LineView};
use crate::text::{
    concat, decimal, holds, join, lemma_concat_push, lemma_holds, lemma_holds_joined,
    lemma_holds_piece, lemma_holds_through, lemma_holds_within, lemma_trim_empty, texts, trim,
    up_to_first,
};
use vstd::prelude::*;
use vstd::string::*;

verus! {

// ---- what is printed --------------------------------------------------------

#[verifier::spinoff_prover]
#[verifier::rlimit(60)]
proof fn lemma_rows_ignore_the_rest(
    path_map: Seq<PathMapEntry>,
    verify: bool,
    selected: Seq<Asset>,
    present: Seq<bool>,
    there: bool,
)
    requires
        present.len() >= selected.len(),
    ensures
        rows_of(path_map, verify, selected, present.push(there)) == rows_of(
            path_map,
            verify,
            selected,
            present,
        ),
        warnings_of(path_map, verify, selected, present.push(there)) == warnings_of(
            path_map,
            verify,
            selected,
            present,
        ),
    decreases selected.len(),
{
    if selected.len() > 0 {
        lemma_rows_ignore_the_rest(path_map, verify, selected.drop_last(), present, there);
    }
}

/// An asset is listed where it has a local path and its file is there or not looked for. Its
/// row comes behind those before it, with its rank among all that were picked and with its
/// local path.
#[verifier::spinoff_prover]
#[verifier::rlimit(60)]
pub proof fn law_which_assets_are_listed(
    path_map: Seq<PathMapEntry>,
    verify: bool,
    selected: Seq<Asset>,
    present: Seq<bool>,
    a: Asset,
    there: bool,
)
    requires
        present.len() == selected.len(),
    ensures
        ({
            let before = rows_of(path_map, verify, selected, present);
            let after = rows_of(path_map, verify, selected.push(a), present.push(there));
            match local_of(a.original_path@, path_map) {
                Some(local) => after == (if there || !verify {
                    before.push(RowView { rank: selected.len() + 1, asset: a, local })
                } else {
                    before
                }),
                None => after == before,
            }
        }),
        ({
            let before = warnings_of(path_map, verify, selected, present);
            let after = warnings_of(path_map, verify, selected.push(a), present.push(there));
            match local_of(a.original_path@, path_map) {
                Some(local) => after == (if there || !verify {
                    before
                } else {
                    before + ("warn: local file missing for asset "@ + a.id@ + ": "@ + local
                        + "\n"@)
                }),
                None => after == before + ("warn: no path mapping for "@ + a.original_path@
                    + " (asset "@ + a.id@ + ")\n"@),
            }
        }),
{
    assert(selected.push(a).drop_last() =~= selected);
    lemma_rows_ignore_the_rest(path_map, verify, selected, present, there);
    let before = warnings_of(path_map, verify, selected, present);
    assert(before + Seq::<char>::empty() =~= before);
}

/// As a list of paths, one more asset adds its local path on a line of its own at the end,
/// and as JSON its object.
#[verifier::spinoff_prover]
#[verifier::rlimit(60)]
pub proof fn law_lines_are_added_at_the_end(
    path_map: Seq<PathMapEntry>,
    args: AskArgs,
    selected: Seq<Asset>,
    present: Seq<bool>,
    a: Asset,
    there: bool,
)
    requires
        present.len() == selected.len(),
        there || !args.verify,
        local_of(a.original_path@, path_map) is Some,
    ensures
        ({
            let before = printed(path_map, args, selected, present);
            let after = printed(path_map, args, selected.push(a), present.push(there));
            let local = local_of(a.original_path@, path_map)->0;
            &&& args.format is Paths ==> after == before + local + "\n"@
            &&& args.format is Json ==> after == before + json_line(
                RowView { rank: selected.len() + 1, asset: a, local },
            )
        }),
{
    law_which_assets_are_listed(path_map, args.verify, selected, present, a, there);
    let rows = rows_of(path_map, args.verify, selected, present);
    let local = local_of(a.original_path@, path_map)->0;
    let row = RowView { rank: selected.len() + 1, asset: a, local };
    let paths = rows.map_values(|r: RowView| r.local + "\n"@);
    let lines = rows.map_values(|r: RowView| json_line(r));
    assert(rows.push(row).map_values(|r: RowView| r.local + "\n"@) =~= paths.push(local + "\n"@));
    assert(rows.push(row).map_values(|r: RowView| json_line(r)) =~= lines.push(json_line(row)));
    lemma_concat_push(paths, local + "\n"@);
    lemma_concat_push(lines, json_line(row));
    assert(concat(paths) + (local + "\n"@) =~= concat(paths) + local + "\n"@);
}

/// A row of the table shows the rank, the type, the day, the place and, as its last cell,
/// the local path of its asset.
#[verifier::spinoff_prover]
#[verifier::rlimit(60)]
pub proof fn law_table_rows(row: RowView)
    ensures
        table_row(row).cells.len() == 5,
        table_row(row).cells[0] == decimal(row.rank),
        table_row(row).cells[1] == row.asset.asset_type@,
        row.asset.local_date_time matches Some(t) ==> table_row(row).cells[2] == up_to_first(
            t@,
            'T',
        ),
        row.asset.local_date_time is None ==> table_row(row).cells[2].len() == 0,
        table_row(row).cells[3] == place_of(row.asset),
        table_row(row).cells.last() == row.local,
        table_row(row).mark.len() == 0,
{
}

/// The table has a line for its header and one for each row, in their order, and each line
/// ends in the local path of its row.
#[verifier::spinoff_prover]
#[verifier::rlimit(60)]
pub proof fn law_table_ends_in_local_paths(rows: Seq<RowView>, i: int)
    requires
        0 <= i < rows.len(),
    ensures
        table_lines(rows).len() == rows.len() + 1,
        table_lines(rows)[0].cells == seq!["#"@, "TYPE"@, "TAKEN"@, "LOCATION"@, "PATH"@],
        table_lines(rows)[i + 1] == table_row(rows[i]),
        (rows[i].local + "\n"@).is_suffix_of(line_text(table_lines(rows), table_lines(rows)[i + 1])),
        holds(table_text(table_lines(rows)), rows[i].local + "\n"@),
{
    let lines = table_lines(rows);
    let line = lines[i + 1];
    let text = line_text(lines, line);
    let tail = rows[i].local + "\n"@;
    assert(line == table_row(rows[i]));
    assert(text.skip(text.len() - tail.len()) =~= tail);
    let n = text.len() - tail.len();
    assert(text =~= text.take(n) + tail);
    lemma_holds(text.take(n), tail, Seq::empty());
    let all = lines.map_values(|l: LineView| line_text(lines, l));
    assert(all[i + 1] == text);
    lemma_holds_piece(all, i + 1);
    let k = choose|k: int|
        0 <= k && k + text.len() <= concat(all).len() && #[trigger] concat(all).subrange(
            k,
            k + text.len(),
        ) == text;
    let whole = concat(all);
    assert(whole =~= whole.take(k) + text + whole.skip(k + text.len()));
    lemma_holds_within(whole.take(k), text, whole.skip(k + text.len()), tail);
}

/// A row as JSON has each fact under its name.
#[verifier::spinoff_prover]
#[verifier::rlimit(60)]
pub proof fn law_json_names_the_facts(row: RowView)
    ensures
        holds(json_line(row), "\"id\":"@ + json_string(row.asset.id@)),
        holds(json_line(row), "\"type\":"@ + json_string(row.asset.asset_type@)),
        holds(json_line(row), "\"originalPath\":"@ + json_string(row.asset.original_path@)),
        holds(
            json_line(row),
            "\"originalFileName\":"@ + json_string(row.asset.original_file_name@),
        ),
        holds(json_line(row), "\"localPath\":"@ + json_string(row.local)),
        holds(json_line(row), "\"rank\":"@ + decimal(row.rank)),
        row.asset.local_date_time matches Some(t) ==> holds(
            json_line(row),
            "\"localDateTime\":"@ + json_string(t@),
        ),
        row.asset.exif_info matches Some(e) ==> {
            &&& e.description matches Some(t) ==> holds(
                json_line(row),
                "\"description\":"@ + json_string(t@),
            )
            &&& e.city matches Some(t) ==> holds(json_line(row), "\"city\":"@ + json_string(t@))
            &&& e.state matches Some(t) ==> holds(json_line(row), "\"state\":"@ + json_string(t@))
            &&& e.country matches Some(t) ==> holds(
                json_line(row),
                "\"country\":"@ + json_string(t@),
            )
        },
{
    lemma_field(row, 0);
    lemma_field(row, 1);
    lemma_field(row, 2);
    lemma_field(row, 3);
    lemma_field(row, 4);
    lemma_field(row, 5);
    lemma_field(row, 6);
    lemma_field(row, 7);
    lemma_field(row, 8);
    lemma_field(row, 9);
    lemma_field(row, 10);
    reveal_strlit("\"");
    reveal_strlit("\":");
    reveal_strlit("city");
    reveal_strlit("\"city\":");
    assert("\"city\":"@ =~= "\""@ + "city"@ + "\":"@);
    reveal_strlit("country");
    reveal_strlit("\"country\":");
    assert("\"country\":"@ =~= "\""@ + "country"@ + "\":"@);
    reveal_strlit("description");
    reveal_strlit("\"description\":");
    assert("\"description\":"@ =~= "\""@ + "description"@ + "\":"@);
    reveal_strlit("id");
    reveal_strlit("\"id\":");
    assert("\"id\":"@ =~= "\""@ + "id"@ + "\":"@);
    reveal_strlit("localDateTime");
    reveal_strlit("\"localDateTime\":");
    assert("\"localDateTime\":"@ =~= "\""@ + "localDateTime"@ + "\":"@);
    reveal_strlit("localPath");
    reveal_strlit("\"localPath\":");
    assert("\"localPath\":"@ =~= "\""@ + "localPath"@ + "\":"@);
    reveal_strlit("originalFileName");
    reveal_strlit("\"originalFileName\":");
    assert("\"originalFileName\":"@ =~= "\""@ + "originalFileName"@ + "\":"@);
    reveal_strlit("originalPath");
    reveal_strlit("\"originalPath\":");
    assert("\"originalPath\":"@ =~= "\""@ + "originalPath"@ + "\":"@);
    reveal_strlit("rank");
    reveal_strlit("\"rank\":");
    assert("\"rank\":"@ =~= "\""@ + "rank"@ + "\":"@);
    reveal_strlit("state");
    reveal_strlit("\"state\":");
    assert("\"state\":"@ =~= "\""@ + "state"@ + "\":"@);
    reveal_strlit("type");
    reveal_strlit("\"type\":");
    assert("\"type\":"@ =~= "\""@ + "type"@ + "\":"@);
}

#[verifier::spinoff_prover]
#[verifier::rlimit(60)]
proof fn lemma_field(row: RowView, k: int)
    requires
        0 <= k < json_fields(row).len(),
    ensures
        holds(json_line(row), json_fields(row)[k]),
{
    let fields = json_fields(row);
    lemma_holds_joined(fields, ","@, k);
    lemma_holds_within("{"@, join(fields, ","@), "}"@, fields[k]);
    lemma_holds_within(Seq::empty(), json_object(fields), "\n"@, fields[k]);
}

// ---- what the model is shown ------------------------------------------------

/// A description that is too long is cut off and ends in an ellipsis; one that is not stays
/// as it is.
#[verifier::spinoff_prover]
#[verifier::rlimit(60)]
pub proof fn law_excerpts(s: Seq<char>, max: nat)
    ensures
        s.len() <= max ==> shortened(s, max) == s,
        s.len() > max ==> shortened(s, max).len() == max + 1 && shortened(s, max).last() == '…'
            && shortened(s, max).drop_last() == s.take(max as int),
{
    if s.len() > max {
        assert(shortened(s, max).drop_last() =~= s.take(max as int));
    }
}

/// The model is shown the query and every candidate, each with its own id and description.
#[verifier::spinoff_prover]
#[verifier::rlimit(60)]
pub proof fn law_model_sees_every_candidate(query: Seq<char>, candidates: Seq<Asset>, i: int)
    requires
        0 <= i < candidates.len(),
    ensures
        holds(rank_message(query, candidates), "\"query\":"@ + json_string(query)),
        holds(rank_message(query, candidates), candidate_json(candidates[i])),
        holds(candidate_json(candidates[i]), "\"id\":"@ + json_string(candidates[i].id@)),
        candidates[i].exif_info is Some && candidates[i].exif_info->0.description is Some
            && candidates[i].exif_info->0.description->0@.len() <= 1500 ==> holds(
            candidate_json(candidates[i]),
            "\"description\":"@ + json_string(candidates[i].exif_info->0.description->0@),
        ),
{
    let all = candidates.map_values(|a: Asset| candidate_json(a));
    let list = "["@ + join(all, ","@) + "]"@;
    lemma_holds_joined(all, ","@, i);
    lemma_holds_within("["@, join(all, ","@), "]"@, all[i]);
    let fields = seq![json_field("candidates"@, list), json_field("query"@, json_string(query))];
    lemma_holds_joined(fields, ","@, 0);
    lemma_holds_joined(fields, ","@, 1);
    lemma_holds_within("{"@, join(fields, ","@), "}"@, fields[0]);
    lemma_holds_within("{"@, join(fields, ","@), "}"@, fields[1]);
    lemma_holds_within("\""@ + "candidates"@ + "\":"@, list, Seq::empty(), all[i]);
    lemma_holds_through(rank_message(query, candidates), fields[0], all[i]);
    reveal_strlit("\"");
    reveal_strlit("\":");
    reveal_strlit("query");
    reveal_strlit("\"query\":");
    assert("\"query\":"@ =~= "\""@ + "query"@ + "\":"@);
    let a = candidates[i];
    let description = match crate::listing::description_of(a) {
        Some(d) => d,
        None => Seq::empty(),
    };
    let own = seq![
        json_field(
            "description"@,
            json_string(shortened(description, DESCRIPTION_EXCERPT_CHARS as nat)),
        ),
        json_field("id"@, json_string(a.id@)),
    ];
    lemma_holds_joined(own, ","@, 0);
    lemma_holds_joined(own, ","@, 1);
    lemma_holds_within("{"@, join(own, ","@), "}"@, own[0]);
    lemma_holds_within("{"@, join(own, ","@), "}"@, own[1]);
    reveal_strlit("id");
    reveal_strlit("\"id\":");
    assert("\"id\":"@ =~= "\""@ + "id"@ + "\":"@);
    reveal_strlit("description");
    reveal_strlit("\"description\":");
    assert("\"description\":"@ =~= "\""@ + "description"@ + "\":"@);
}

// ---- what is searched for and picked ----------------------------------------

/// Each keyword is searched for in the descriptions of the whole library, without any other
/// filter.
#[verifier::spinoff_prover]
#[verifier::rlimit(60)]
pub proof fn law_keywords_are_searched_alone(keyword: Seq<char>)
    ensures
        ({
            let r = description_request(keyword);
            &&& r.description == Some(keyword)
            &&& r.size == Some(250u32) && r.with_exif == Some(true)
            &&& r.query is None && r.original_file_name is None && r.page is None
            &&& r.city is None && r.state is None && r.country is None && r.ocr is None
            &&& r.taken_after is None && r.taken_before is None
            &&& r.asset_type is None && r.visibility is None
        }),
{
}

/// The asset was on one of the pages.
pub open spec fn was_found(pages: Seq<SearchResponse>, id: Seq<char>) -> bool {
    exists|k: int, i: int|
        0 <= k < pages.len() && 0 <= i < pages[k].assets.items@.len() && (
        #[trigger] pages[k].assets.items@[i]).id@ == id
}

#[verifier::spinoff_prover]
#[verifier::rlimit(60)]
proof fn lemma_gathered(pages: Seq<SearchResponse>, id: Seq<char>)
    ensures
        has_asset(gathered(pages), id) == was_found(pages, id),
    decreases pages.len(),
{
    if pages.len() > 0 {
        let past = pages.drop_last();
        lemma_gathered(past, id);
        let before = gathered(past);
        let items = pages.last().assets.items@;
        let now = gathered(pages);
        if has_asset(now, id) {
            let n = choose|n: int| 0 <= n < now.len() && (#[trigger] now[n]).id@ == id;
            if n < before.len() {
                assert(before[n].id@ == id);
                assert(has_asset(before, id));
                let (k, i) = choose|k: int, i: int|
                    0 <= k < past.len() && 0 <= i < past[k].assets.items@.len() && (
                    #[trigger] past[k].assets.items@[i]).id@ == id;
                assert(pages[k].assets.items@[i].id@ == id);
            } else {
                assert(pages[pages.len() - 1].assets.items@[n - before.len()].id@ == id);
            }
        }
        if was_found(pages, id) {
            let (k, i) = choose|k: int, i: int|
                0 <= k < pages.len() && 0 <= i < pages[k].assets.items@.len() && (
                #[trigger] pages[k].assets.items@[i]).id@ == id;
            if k < past.len() {
                assert(past[k].assets.items@[i].id@ == id);
                assert(has_asset(before, id));
                let n = choose|n: int| 0 <= n < before.len() && (#[trigger] before[n]).id@ == id;
                assert(now[n].id@ == id);
            } else {
                assert(now[before.len() + i].id@ == id);
            }
        }
    } else {
        assert(gathered(pages).len() == 0);
    }
}

/// No asset that a search found is lost: it is a candidate, unless there are a hundred
/// candidates already. Only assets that a search found are candidates, and each keyword is
/// searched for unless there are a hundred before.
#[verifier::spinoff_prover]
#[verifier::rlimit(60)]
pub proof fn law_candidates_are_what_was_found<S: SearchBackend>(
    search: &S,
    keywords: Seq<Seq<char>>,
    list: Vec<Asset>,
) -> (pages: Seq<SearchResponse>)
    requires
        candidates_collected(search, keywords, Ok(list)),
    ensures
        candidate_pages(search, keywords, pages),
        pages.len() == keywords.len() || list@.len() == 100,
        forall|id: Seq<char>| #[trigger]
            was_found(pages, id) ==> has_asset(list@, id) || list@.len() == 100,
        forall|id: Seq<char>| #[trigger] has_asset(list@, id) ==> was_found(pages, id),
{
    let pages = choose|pages: Seq<SearchResponse>| #[trigger]
        candidate_pages(search, keywords, pages) && (pages.len() == keywords.len() || found_in(
            pages,
        ).len() >= MAX_CANDIDATES) && list@ == first(found_in(pages), MAX_CANDIDATES as nat);
    let found = found_in(pages);
    law_distinct_assets(gathered(pages));
    assert forall|id: Seq<char>| #[trigger] was_found(pages, id) implies has_asset(list@, id)
        || list@.len() == 100 by {
        lemma_gathered(pages, id);
        assert(has_asset(found, id));
    }
    assert forall|id: Seq<char>| #[trigger] has_asset(list@, id) implies was_found(pages, id) by {
        let n = choose|n: int| 0 <= n < list@.len() && (#[trigger] list@[n]).id@ == id;
        assert(found[n].id@ == id);
        assert(has_asset(found, id));
        lemma_gathered(pages, id);
    }
    pages
}

/// One more id of the model adds the candidate that has it, and nothing where none has.
#[verifier::spinoff_prover]
#[verifier::rlimit(60)]
pub proof fn law_ids_pick_their_candidates(
    candidates: Seq<Asset>,
    ids: Seq<Seq<char>>,
    id: Seq<char>,
    k: int,
)
    requires
        forall|i: int, j: int|
            0 <= i < j < candidates.len() ==> (#[trigger] candidates[i]).id@ != (
            #[trigger] candidates[j]).id@,
    ensures
        0 <= k < candidates.len() && candidates[k].id@ == id ==> candidates_named(
            candidates,
            ids.push(id),
        ) == candidates_named(candidates, ids).push(candidates[k]),
        !has_asset(candidates, id) ==> candidates_named(candidates, ids.push(id))
            == candidates_named(candidates, ids),
        candidates_named(candidates, Seq::empty()).len() == 0,
{
    assert(ids.push(id).drop_last() =~= ids);
    lemma_candidate_with(candidates, id, k);
}

#[verifier::spinoff_prover]
#[verifier::rlimit(60)]
proof fn lemma_candidate_with(candidates: Seq<Asset>, id: Seq<char>, k: int)
    requires
        forall|i: int, j: int|
            0 <= i < j < candidates.len() ==> (#[trigger] candidates[i]).id@ != (
            #[trigger] candidates[j]).id@,
    ensures
        0 <= k < candidates.len() && candidates[k].id@ == id ==> candidate_with(candidates, id)
            == Some(candidates[k]),
        !has_asset(candidates, id) ==> candidate_with(candidates, id) is None,
    decreases candidates.len(),
{
    if candidates.len() > 0 {
        let past = candidates.drop_last();
        assert forall|i: int, j: int| 0 <= i < j < past.len() implies (#[trigger] past[i]).id@ != (
        #[trigger] past[j]).id@ by {
            assert(candidates[i].id@ != candidates[j].id@);
        }
        lemma_candidate_with(past, id, k);
        if 0 <= k < candidates.len() - 1 && candidates[k].id@ == id {
            assert(candidates[k].id@ != candidates[candidates.len() - 1].id@);
        }
        if !has_asset(candidates, id) {
            assert(candidates[candidates.len() - 1].id@ != id);
            if has_asset(past, id) {
                let n = choose|n: int| 0 <= n < past.len() && (#[trigger] past[n]).id@ == id;
                assert(candidates[n].id@ == id);
            }
        }
    }
}

/// A question that is answered has keywords, no more results than were asked for, and none
/// where the searches found nothing. A blank question, or one for no results, is refused.
#[verifier::spinoff_prover]
#[verifier::rlimit(60)]
pub proof fn law_answers<S: SearchBackend, L: ChatBackend>(
    search: &S,
    llm: &L,
    args: AskArgs,
    outcome: AskOutcome,
)
    requires
        answered(search, llm, args, Ok(outcome)),
    ensures
        trim(args.query@).len() > 0,
        args.limit > 0,
        outcome.keywords@.len() > 0,
        outcome.selected@.len() <= args.limit,
        outcome.candidates == 0 ==> outcome.selected@.len() == 0,
        outcome.candidates <= 100,
{
    lemma_trim_empty(args.query@);
    assert(texts(outcome.keywords@).len() == outcome.keywords@.len());
    let words = choose|words: Result<Vec<String>, Error>| #[trigger]
        expanded(
            llm,
            KEYWORD_SYSTEM_PROMPT@,
            trim(args.query@),
            MAX_KEYWORDS as nat,
            words,
        ) && (words matches Ok(words) && words@.len() > 0 && exists|
            found: Result<Vec<Asset>, Error>,
        | #[trigger]
            candidates_collected(search, texts(words@), found) && (found matches Ok(
                list,
            ) && answered_from(
                llm,
                args,
                texts(words@),
                list@,
                Ok(outcome),
            )));
    let named = texts(words->Ok_0@);
    assert(named.len() == words->Ok_0@.len());
    let found = choose|found: Result<Vec<Asset>, Error>| #[trigger]
        candidates_collected(search, named, found) && (found matches Ok(list)
            && answered_from(
            llm,
            args,
            named,
            list@,
            Ok(outcome),
        ));
    let list = found->Ok_0;
    assert(texts(outcome.keywords@) == named);
    law_candidates_are_distinct(search, named, list);
}

/// The model ranks the candidates for the question as it was put, and what it names is
/// returned, in its order, each once, up to the limit.
#[verifier::spinoff_prover]
#[verifier::rlimit(60)]
pub proof fn law_answer_is_what_the_model_picked<S: SearchBackend, L: ChatBackend>(
    search: &S,
    llm: &L,
    args: AskArgs,
    outcome: AskOutcome,
) -> (r: (Vec<Asset>, Vec<String>))
    requires
        answered(search, llm, args, Ok(outcome)),
    ensures
        candidates_collected(search, texts(outcome.keywords@), Ok(r.0)),
        outcome.candidates == r.0@.len(),
        r.0@.len() == 0 ==> outcome.selected@.len() == 0,
        r.0@.len() > 0 ==> ranking(llm, trim(args.query@), r.0@, Ok(r.1)) && outcome.selected@
            == first(candidates_named(r.0@, distinct(texts(r.1@))), args.limit as nat),
{
    let words = choose|words: Result<Vec<String>, Error>| #[trigger]
        expanded(
            llm,
            KEYWORD_SYSTEM_PROMPT@,
            trim(args.query@),
            MAX_KEYWORDS as nat,
            words,
        ) && (words matches Ok(words) && words@.len() > 0 && exists|
            found: Result<Vec<Asset>, Error>,
        | #[trigger]
            candidates_collected(search, texts(words@), found) && (found matches Ok(list)
                && answered_from(llm, args, texts(words@), list@, Ok(outcome))));
    let named = texts(words->Ok_0@);
    let found = choose|found: Result<Vec<Asset>, Error>| #[trigger]
        candidates_collected(search, named, found) && (found matches Ok(list) && answered_from(
            llm,
            args,
            named,
            list@,
            Ok(outcome),
        ));
    let list = found->Ok_0;
    law_candidates_are_distinct(search, named, list);
    if list@.len() > 0 {
        let ids = choose|ids: Result<Vec<String>, Error>| #[trigger]
            ranking(llm, trim(args.query@), list@, ids) && (ids matches Ok(ids)
                && outcome.selected@ == first(
                candidates_named(list@, distinct(texts(ids@))),
                args.limit as nat,
            ));
        (list, ids->Ok_0)
    } else {
        (list, outcome.keywords)
    }
}

/// The model is sent the candidates with the question, and its ids are taken as they are.
#[verifier::spinoff_prover]
#[verifier::rlimit(60)]
pub proof fn law_ranking_is_the_models<L: ChatBackend>(
    llm: &L,
    query: Seq<char>,
    candidates: Seq<Asset>,
    ids: Vec<String>,
) -> (r: (&Vec<Message>, String))
    requires
        ranking(llm, query, candidates, Ok(ids)),
    ensures
        call_ensures(L::chat_json, (llm, r.0), Ok::<String, Error>(r.1)),
        r.0@.len() == 2,
        r.0@[0].role@ == "system"@,
        r.0@[1].role@ == "user"@,
        r.0@[1].content@ == rank_message(query, candidates),
        json_of(r.1@) is Ok,
        record_texts(json_of(r.1@)->Ok_0, "ids"@) == Some(texts(ids@)),
{
    let reply = choose|reply: Result<String, Error>| #[trigger]
        chat_reply(llm, RERANK_SYSTEM_PROMPT@, rank_message(query, candidates), reply)
            && ranking_from_reply(reply, Ok(ids));
    let asked = choose|asked: &Vec<Message>|
        message_views(asked@) == dialogue(RERANK_SYSTEM_PROMPT@, rank_message(query, candidates))
            && #[trigger] call_ensures(L::chat_json, (llm, asked), reply);
    let views = message_views(asked@);
    assert(views.len() == asked@.len());
    assert(views[0] == asked@[0]@);
    assert(views[1] == asked@[1]@);
    (asked, reply->Ok_0)
}

/// The format decides how the rows of the picked assets are printed.
#[verifier::spinoff_prover]
#[verifier::rlimit(60)]
pub proof fn law_format_decides(
    path_map: Seq<PathMapEntry>,
    args: AskArgs,
    selected: Seq<Asset>,
    present: Seq<bool>,
)
    ensures
        args.format is Table ==> printed(path_map, args, selected, present) == table_text(
            table_lines(rows_of(path_map, args.verify, selected, present)),
        ),
        selected.len() == 0 && !(args.format is Table) ==> printed(
            path_map,
            args,
            selected,
            present,
        ).len() == 0,
{
    if selected.len() == 0 {
        let rows = rows_of(path_map, args.verify, selected, present);
        assert(rows.map_values(|r: RowView| r.local + "\n"@) =~= Seq::<Seq<char>>::empty());
        assert(rows.map_values(|r: RowView| json_line(r)) =~= Seq::<Seq<char>>::empty());
    }
}

/// A question is expanded to sixteen keywords at most, a hundred candidates are ranked at
/// most, and of each the model sees 1500 characters.
#[verifier::spinoff_prover]
#[verifier::rlimit(60)]
pub proof fn law_bounds_of_a_question(a: Asset)
    ensures
        MAX_KEYWORDS == 16,
        MAX_CANDIDATES == 100,
        a.exif_info is Some && a.exif_info->0.description is Some
            && a.exif_info->0.description->0@.len() > 1500 ==> holds(
            candidate_json(a),
            "\"description\":"@ + json_string(
                a.exif_info->0.description->0@.take(1500).push('…'),
            ),
        ),
{
    if a.exif_info is Some && a.exif_info->0.description is Some {
        let d = a.exif_info->0.description->0@;
        let own = seq![
            json_field(
                "description"@,
                json_string(shortened(d, DESCRIPTION_EXCERPT_CHARS as nat)),
            ),
            json_field("id"@, json_string(a.id@)),
        ];
        lemma_holds_joined(own, ","@, 0);
        lemma_holds_within("{"@, join(own, ","@), "}"@, own[0]);
        assert("\"description\":"@ =~= "\""@ + "description"@ + "\":"@) by {
            reveal_strlit("\"");
            reveal_strlit("\":");
            reveal_strlit("description");
            reveal_strlit("\"description\":");
        }
    }
}

/// What is printed and warned of are the rows and warnings of the picked assets.
#[verifier::spinoff_prover]
#[verifier::rlimit(60)]
pub proof fn law_output_is_the_picked(
    path_map: &Vec<PathMapEntry>,
    args: &AskArgs,
    selected: &Vec<Asset>,
    present: &Vec<bool>,
    r: Emission,
)
    requires
        present.len() == selected.len(),
        call_ensures(emit, (path_map, args, selected, present), r),
    ensures
        r.out@ == printed(path_map@, *args, selected@, present@),
        r.warnings@ == warnings_of(path_map@, args.verify, selected@, present@),
{
}

/// A question comes to what is said of it.
#[verifier::spinoff_prover]
#[verifier::rlimit(60)]
pub proof fn law_asking_comes_to<S: SearchBackend, L: ChatBackend>(
    search: &S,
    llm: &L,
    args: &AskArgs,
    r: Result<AskOutcome, Error>,
)
    requires
        call_ensures(run_with::<S, L>, (search, llm, args), r),
    ensures
        answered(search, llm, *args, r),
        r is Ok ==> trim(args.query@).len() > 0 && args.limit > 0,
{
    lemma_trim_empty(args.query@);
}

/// A question that is refused needs leave for nothing: neither the model nor the server is
/// asked. Without keywords nothing is searched.
#[verifier::spinoff_prover]
#[verifier::rlimit(60)]
pub proof fn law_refused_questions_ask_nobody<S: SearchBackend, L: ChatBackend>(
    search: &S,
    llm: &L,
    args: AskArgs,
)
    ensures
        trim(args.query@).len() == 0 || args.limit == 0 ==> asking_allowed(search, llm, args),
        answering_allowed(search, llm, args.query@, Seq::empty()),
        candidate_searches_allowed(search, Seq::empty()),
{
    lemma_trim_empty(args.query@);
}

} // verus!
