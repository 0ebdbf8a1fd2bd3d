//! Places in words, and the places that the library knows.
use crate::client::PlacesBackend;
use crate::error::Error;
use crate::json::{
    has_member, is_record, json_fault, json_of, law_members_by_name, lemma_list_view, member,
    opt_json, read_json, slot, Json, JsonView,
};
use crate::llm::{chat, chat_reply, dialogue, message_views, ChatBackend, Message};
use crate::text::{
    before_first, blank, chars_of, concat, holds, insert_sorted, is_ascending, is_blank, join,
    law_sorted_set, lemma_ascending_unique, lemma_concat_push, lemma_holds, lemma_holds_piece,
    lemma_holds_within, lemma_trim_empty, lemma_up_to_first, opt_text, same, slices, sorted_set,
    texts, trim, trimmed, up_to_first,
};
use vstd::hash_map::StringHashMap;
use vstd::prelude::*;
use vstd::string::*;

verus! {

// ---- the vocabulary ---------------------------------------------------------

/// One distinct city, state and country of the library, and the second-level
/// division that it lies in, where that is known.
#[derive(Debug, Clone, PartialEq, Eq)]
pub struct CityVocabEntry {
    pub country: String,
    pub state: String,
    pub city: String,
    pub admin2: Option<String>,
}

/// Where cities go whose second-level division is not known.
pub const ORPHAN_BUCKET: &'static str = "(uncategorized)";

/// Country, state, second-level division and city.
pub open spec fn path_of(e: CityVocabEntry) -> Seq<Seq<char>> {
    seq![
        e.country@,
        e.state@,
        match e.admin2 {
            Some(a) => a@,
            None => ORPHAN_BUCKET@,
        },
        e.city@,
    ]
}

/// The names that stand below `scope` in the entries, entry by entry.
pub open spec fn names_below(entries: Seq<CityVocabEntry>, scope: Seq<Seq<char>>) -> Seq<
    Seq<char>,
>
    decreases entries.len(),
{
    if entries.len() == 0 {
        Seq::empty()
    } else {
        let before = names_below(entries.drop_last(), scope);
        if scope.is_prefix_of(path_of(entries.last())) {
            before.push(path_of(entries.last())[scope.len() as int])
        } else {
            before
        }
    }
}

/// The distinct names below `scope`, in order.
pub open spec fn children(entries: Seq<CityVocabEntry>, scope: Seq<Seq<char>>) -> Seq<Seq<char>> {
    sorted_set(names_below(entries, scope))
}

/// `    DIVISION: CITY, CITY`.
pub open spec fn division_line(
    entries: Seq<CityVocabEntry>,
    country: Seq<char>,
    state: Seq<char>,
    division: Seq<char>,
) -> Seq<char> {
    "    "@ + division + ": "@ + join(children(entries, seq![country, state, division]), ", "@)
        + "\n"@
}

/// A state and, below it, its divisions.
pub open spec fn state_block(
    entries: Seq<CityVocabEntry>,
    country: Seq<char>,
    state: Seq<char>,
) -> Seq<char> {
    "  "@ + state + "\n"@ + concat(
        children(entries, seq![country, state]).map_values(
            |d: Seq<char>| division_line(entries, country, state, d),
        ),
    )
}

/// A country and, below it, its states.
pub open spec fn country_block(entries: Seq<CityVocabEntry>, country: Seq<char>) -> Seq<char> {
    country + "\n"@ + concat(
        children(entries, seq![country]).map_values(
            |s: Seq<char>| state_block(entries, country, s),
        ),
    )
}

/// The vocabulary as an indented outline: country, state, second-level division
/// and cities. Each level is sorted and names no entry twice.
pub open spec fn outline(entries: Seq<CityVocabEntry>) -> Seq<char> {
    concat(
        children(entries, Seq::empty()).map_values(|c: Seq<char>| country_block(entries, c)),
    )
}

/// One of the four names of an entry.
fn name_at(e: &CityVocabEntry, level: usize) -> (r: &str)
    requires
        level < 4,
    ensures
        r@ == path_of(*e)[level as int],
{
    if level == 0 {
        e.country.as_str()
    } else if level == 1 {
        e.state.as_str()
    } else if level == 2 {
        match &e.admin2 {
            Some(a) => a.as_str(),
            None => ORPHAN_BUCKET,
        }
    } else {
        e.city.as_str()
    }
}

fn lies_below(e: &CityVocabEntry, scope: &Vec<&str>) -> (r: bool)
    requires
        scope.len() < 4,
    ensures
        r == slices(scope@).is_prefix_of(path_of(*e)),
{
    let mut i: usize = 0;
    while i < scope.len()
        invariant
            i <= scope.len(),
            scope.len() < 4,
            forall|j: int| 0 <= j < i ==> (#[trigger] slices(scope@)[j]) == path_of(*e)[j],
        decreases scope.len() - i,
    {
        assert(slices(scope@)[i as int] == scope@[i as int]@);
        if !same(scope[i], name_at(e, i)) {
            proof {
                let path = path_of(*e);
                if slices(scope@).is_prefix_of(path) {
                    assert(path.subrange(0, scope.len() as int)[i as int] == path[i as int]);
                }
            }
            return false;
        }
        i += 1;
    }
    assert(slices(scope@) =~= path_of(*e).subrange(0, scope.len() as int));
    true
}

fn list_children<'a>(entries: &'a Vec<CityVocabEntry>, scope: &Vec<&str>) -> (r: Vec<&'a str>)
    requires
        scope.len() < 4,
    ensures
        slices(r@) == children(entries@, slices(scope@)),
{
    let ghost want = slices(scope@);
    let mut out: Vec<&'a str> = Vec::new();
    let mut i: usize = 0;
    assert(slices(out@) =~= sorted_set(names_below(entries@.take(0), want)));
    while i < entries.len()
        invariant
            i <= entries.len(),
            scope.len() < 4,
            want == slices(scope@),
            slices(out@) == sorted_set(names_below(entries@.take(i as int), want)),
        decreases entries.len() - i,
    {
        assert(entries@.take(i + 1).drop_last() =~= entries@.take(i as int));
        if lies_below(&entries[i], scope) {
            let name = name_at(&entries[i], scope.len());
            proof {
                let before = names_below(entries@.take(i as int), want);
                assert(before.push(name@).drop_last() =~= before);
            }
            insert_sorted(&mut out, name);
        }
        i += 1;
    }
    assert(entries@.take(i as int) =~= entries@);
    out
}

fn join_slices(pieces: &Vec<&str>, sep: &str) -> (r: String)
    ensures
        r@ == join(slices(pieces@), sep@),
{
    let mut out = String::new();
    let mut i: usize = 0;
    let ghost all = slices(pieces@);
    assert(all.take(0) =~= Seq::<Seq<char>>::empty());
    while i < pieces.len()
        invariant
            i <= pieces.len(),
            all == slices(pieces@),
            out@ == join(all.take(i as int), sep@),
        decreases pieces.len() - i,
    {
        proof {
            assert(all.take(i + 1).drop_last() =~= all.take(i as int));
            assert(all.take(i + 1).last() == pieces@[i as int]@);
            if i == 0 {
                assert(Seq::<char>::empty() + all[0] =~= all[0]);
            }
        }
        if i > 0 {
            out.append(sep);
        }
        out.append(pieces[i]);
        i += 1;
    }
    assert(all.take(i as int) =~= all);
    out
}

fn write_division(
    entries: &Vec<CityVocabEntry>,
    country: &str,
    state: &str,
    division: &str,
) -> (r: String)
    ensures
        r@ == division_line(entries@, country@, state@, division@),
{
    let scope: Vec<&str> = vec![country, state, division];
    assert(slices(scope@) =~= seq![country@, state@, division@]);
    let cities = list_children(entries, &scope);
    let mut out = "    ".to_owned();
    out.append(division);
    out.append(": ");
    out.append(join_slices(&cities, ", ").as_str());
    out.append("\n");
    out
}

fn write_state(entries: &Vec<CityVocabEntry>, country: &str, state: &str) -> (r: String)
    ensures
        r@ == state_block(entries@, country@, state@),
{
    let scope: Vec<&str> = vec![country, state];
    assert(slices(scope@) =~= seq![country@, state@]);
    let divisions = list_children(entries, &scope);
    let mut out = "  ".to_owned();
    out.append(state);
    out.append("\n");
    let ghost lines = slices(divisions@).map_values(
        |d: Seq<char>| division_line(entries@, country@, state@, d),
    );
    let mut body = String::new();
    let mut i: usize = 0;
    assert(body@ =~= concat(lines.take(0)));
    while i < divisions.len()
        invariant
            i <= divisions.len(),
            lines == slices(divisions@).map_values(
                |d: Seq<char>| division_line(entries@, country@, state@, d),
            ),
            body@ == concat(lines.take(i as int)),
        decreases divisions.len() - i,
    {
        let line = write_division(entries, country, state, divisions[i]);
        assert(lines[i as int] == line@);
        proof {
            lemma_concat_push(lines.take(i as int), line@);
            assert(lines.take(i + 1) =~= lines.take(i as int).push(line@));
        }
        body.append(line.as_str());
        i += 1;
    }
    assert(lines.take(i as int) =~= lines);
    out.append(body.as_str());
    out
}

fn write_country(entries: &Vec<CityVocabEntry>, country: &str) -> (r: String)
    ensures
        r@ == country_block(entries@, country@),
{
    let scope: Vec<&str> = vec![country];
    assert(slices(scope@) =~= seq![country@]);
    let states = list_children(entries, &scope);
    let mut out = country.to_owned();
    out.append("\n");
    let ghost blocks = slices(states@).map_values(
        |s: Seq<char>| state_block(entries@, country@, s),
    );
    let mut body = String::new();
    let mut i: usize = 0;
    assert(body@ =~= concat(blocks.take(0)));
    while i < states.len()
        invariant
            i <= states.len(),
            blocks == slices(states@).map_values(
                |s: Seq<char>| state_block(entries@, country@, s),
            ),
            body@ == concat(blocks.take(i as int)),
        decreases states.len() - i,
    {
        let block = write_state(entries, country, states[i]);
        assert(blocks[i as int] == block@);
        proof {
            lemma_concat_push(blocks.take(i as int), block@);
            assert(blocks.take(i + 1) =~= blocks.take(i as int).push(block@));
        }
        body.append(block.as_str());
        i += 1;
    }
    assert(blocks.take(i as int) =~= blocks);
    out.append(body.as_str());
    out
}

/// Writes the vocabulary as an outline.
pub fn format_vocabulary(entries: &Vec<CityVocabEntry>) -> (r: String)
    ensures
        r@ == outline(entries@),
{
    let scope: Vec<&str> = Vec::new();
    assert(slices(scope@) =~= Seq::<Seq<char>>::empty());
    let countries = list_children(entries, &scope);
    let ghost blocks = slices(countries@).map_values(|c: Seq<char>| country_block(entries@, c));
    let mut out = String::new();
    let mut i: usize = 0;
    assert(out@ =~= concat(blocks.take(0)));
    while i < countries.len()
        invariant
            i <= countries.len(),
            blocks == slices(countries@).map_values(
                |c: Seq<char>| country_block(entries@, c),
            ),
            out@ == concat(blocks.take(i as int)),
        decreases countries.len() - i,
    {
        let block = write_country(entries, countries[i]);
        assert(blocks[i as int] == block@);
        proof {
            lemma_concat_push(blocks.take(i as int), block@);
            assert(blocks.take(i + 1) =~= blocks.take(i as int).push(block@));
        }
        out.append(block.as_str());
        i += 1;
    }
    assert(blocks.take(i as int) =~= blocks);
    out
}

/// At every level of the outline the names are ascending, so that none stands
/// there twice, and they are exactly the names that the entries have there.
pub proof fn law_outline_levels_are_sorted_sets(
    entries: Seq<CityVocabEntry>,
    scope: Seq<Seq<char>>,
)
    requires
        scope.len() < 4,
    ensures
        is_ascending(children(entries, scope)),
        forall|name: Seq<char>| #[trigger]
            children(entries, scope).contains(name) == exists|i: int|
                0 <= i < entries.len() && scope.push(name).is_prefix_of(
                    path_of(#[trigger] entries[i]),
                ),
{
    law_sorted_set(names_below(entries, scope));
    lemma_names_below(entries, scope);
    assert forall|name: Seq<char>| #[trigger] children(entries, scope).contains(name)
        == exists|i: int|
        0 <= i < entries.len() && scope.push(name).is_prefix_of(path_of(#[trigger] entries[i])) by {
        assert(names_below(entries, scope).contains(name) == names_one(entries, scope, name));
    }
}

/// One of the entries has the name below `scope`.
pub open spec fn names_one(
    entries: Seq<CityVocabEntry>,
    scope: Seq<Seq<char>>,
    name: Seq<char>,
) -> bool {
    exists|i: int|
        0 <= i < entries.len() && scope.push(name).is_prefix_of(path_of(#[trigger] entries[i]))
}

proof fn lemma_names_below(entries: Seq<CityVocabEntry>, scope: Seq<Seq<char>>)
    requires
        scope.len() < 4,
    ensures
        forall|name: Seq<char>| #[trigger]
            names_below(entries, scope).contains(name) == names_one(entries, scope, name),
    decreases entries.len(),
{
    if entries.len() > 0 {
        let past = entries.drop_last();
        let last = path_of(entries.last());
        lemma_names_below(past, scope);
        let before = names_below(past, scope);
        let now = names_below(entries, scope);
        assert forall|name: Seq<char>| #[trigger] now.contains(name) == names_one(
            entries,
            scope,
            name,
        ) by {
            let longer = scope.push(name);
            assert(longer.is_prefix_of(last) == (scope.is_prefix_of(last) && last[scope.len() as int]
                == name)) by {
                if longer.is_prefix_of(last) {
                    assert(last.subrange(0, longer.len() as int)[scope.len() as int] == name);
                    assert forall|k: int| 0 <= k < scope.len() implies scope[k] == last[k] by {
                        assert(longer[k] == last.subrange(0, longer.len() as int)[k]);
                    }
                    assert(scope =~= last.subrange(0, scope.len() as int));
                }
                if scope.is_prefix_of(last) && last[scope.len() as int] == name {
                    assert forall|k: int| 0 <= k < longer.len() implies longer[k] == last[k] by {
                        if k < scope.len() {
                            assert(scope[k] == last.subrange(0, scope.len() as int)[k]);
                        }
                    }
                    assert(longer =~= last.subrange(0, longer.len() as int));
                }
            }
            if now.contains(name) {
                let k = choose|k: int| 0 <= k < now.len() && now[k] == name;
                if k < before.len() {
                    assert(before[k] == name);
                    assert(before.contains(name));
                    let i = choose|i: int|
                        0 <= i < past.len() && longer.is_prefix_of(path_of(#[trigger] past[i]));
                    assert(entries[i] == past[i]);
                } else {
                    assert(entries[entries.len() - 1] == entries.last());
                }
            }
            if names_one(entries, scope, name) {
                let i = choose|i: int|
                    0 <= i < entries.len() && longer.is_prefix_of(path_of(#[trigger] entries[i]));
                if i < past.len() {
                    assert(past[i] == entries[i]);
                    assert(names_one(past, scope, name));
                    assert(before.contains(name));
                    let k = choose|k: int| 0 <= k < before.len() && before[k] == name;
                    assert(now[k] == name);
                } else {
                    assert(now[now.len() - 1] == name);
                }
            }
        }
    }
}

/// The entries hold the place at this path.
pub open spec fn holds_path(entries: Seq<CityVocabEntry>, path: Seq<Seq<char>>) -> bool {
    exists|i: int| 0 <= i < entries.len() && path_of(#[trigger] entries[i]) == path
}

proof fn lemma_same_children(
    a: Seq<CityVocabEntry>,
    b: Seq<CityVocabEntry>,
    scope: Seq<Seq<char>>,
)
    requires
        scope.len() < 4,
        forall|path: Seq<Seq<char>>| #[trigger] holds_path(a, path) == holds_path(b, path),
    ensures
        children(a, scope) == children(b, scope),
{
    law_sorted_set(names_below(a, scope));
    law_sorted_set(names_below(b, scope));
    lemma_names_below(a, scope);
    lemma_names_below(b, scope);
    assert forall|name: Seq<char>| #[trigger] children(a, scope).contains(name) == children(
        b,
        scope,
    ).contains(name) by {
        let longer = scope.push(name);
        assert(names_below(a, scope).contains(name) == names_one(a, scope, name));
        assert(names_below(b, scope).contains(name) == names_one(b, scope, name));
        if names_one(a, scope, name) {
            let i = choose|i: int|
                0 <= i < a.len() && longer.is_prefix_of(path_of(#[trigger] a[i]));
            assert(holds_path(a, path_of(a[i])));
            assert(holds_path(b, path_of(a[i])));
            let j = choose|j: int| 0 <= j < b.len() && path_of(#[trigger] b[j]) == path_of(a[i]);
            assert(longer.is_prefix_of(path_of(b[j])));
        }
        if names_one(b, scope, name) {
            let i = choose|i: int|
                0 <= i < b.len() && longer.is_prefix_of(path_of(#[trigger] b[i]));
            assert(holds_path(b, path_of(b[i])));
            assert(holds_path(a, path_of(b[i])));
            let j = choose|j: int| 0 <= j < a.len() && path_of(#[trigger] a[j]) == path_of(b[i]);
            assert(longer.is_prefix_of(path_of(a[j])));
        }
    }
    lemma_ascending_unique(children(a, scope), children(b, scope));
}

/// The outline depends only on which places there are: neither the order of the
/// entries nor repeated entries change it.
pub proof fn law_outline_ignores_order(a: Seq<CityVocabEntry>, b: Seq<CityVocabEntry>)
    requires
        forall|path: Seq<Seq<char>>| #[trigger] holds_path(a, path) == holds_path(b, path),
    ensures
        outline(a) == outline(b),
{
    assert forall|c: Seq<char>| #[trigger] country_block(a, c) == country_block(b, c) by {
        assert forall|s: Seq<char>| #[trigger] state_block(a, c, s) == state_block(b, c, s) by {
            assert forall|d: Seq<char>| #[trigger] division_line(a, c, s, d) == division_line(
                b,
                c,
                s,
                d,
            ) by {
                lemma_same_children(a, b, seq![c, s, d]);
            }
            lemma_same_children(a, b, seq![c, s]);
            assert(children(a, seq![c, s]).map_values(|d: Seq<char>| division_line(a, c, s, d))
                =~= children(b, seq![c, s]).map_values(
                |d: Seq<char>| division_line(b, c, s, d),
            ));
        }
        lemma_same_children(a, b, seq![c]);
        assert(children(a, seq![c]).map_values(|s: Seq<char>| state_block(a, c, s)) =~= children(
            b,
            seq![c],
        ).map_values(|s: Seq<char>| state_block(b, c, s)));
    }
    lemma_same_children(a, b, Seq::empty());
    assert(children(a, Seq::empty()).map_values(|c: Seq<char>| country_block(a, c)) =~= children(
        b,
        Seq::empty(),
    ).map_values(|c: Seq<char>| country_block(b, c)));
}

// ---- second-level divisions -------------------------------------------------

/// Country, state and city.
pub type PlaceKey = (Seq<char>, Seq<char>, Seq<char>);

struct Admin2Row {
    country: String,
    state: String,
    city: String,
    admin2: String,
    /// The row before this one with the same city.
    earlier: Option<usize>,
}

/// The second-level division of each country, state and city.
pub struct Admin2Lookup {
    rows: Vec<Admin2Row>,
    /// The last row of each city.
    latest: StringHashMap<usize>,
}

/// The last of the first `n` rows with the city.
spec fn last_of_city(rows: Seq<Admin2Row>, n: nat, city: Seq<char>) -> Option<usize>
    decreases n,
{
    if n == 0 {
        None
    } else if rows[n - 1].city@ == city {
        Some((n - 1) as usize)
    } else {
        last_of_city(rows, (n - 1) as nat, city)
    }
}

/// The last of the first `n` rows with the key.
spec fn last_of_key(rows: Seq<Admin2Row>, n: nat, key: PlaceKey) -> Option<Seq<char>>
    decreases n,
{
    if n == 0 {
        None
    } else if (rows[n - 1].country@, rows[n - 1].state@, rows[n - 1].city@) == key {
        Some(rows[n - 1].admin2@)
    } else {
        last_of_key(rows, (n - 1) as nat, key)
    }
}

proof fn lemma_city_then_key(rows: Seq<Admin2Row>, n: nat, key: PlaceKey)
    requires
        n <= rows.len() <= usize::MAX,
    ensures
        match last_of_city(rows, n, key.2) {
            Some(i) => i < n && rows[i as int].city@ == key.2 && last_of_key(rows, n, key)
                == last_of_key(rows, (i + 1) as nat, key),
            None => last_of_key(rows, n, key) is None,
        },
    decreases n,
{
    if n > 0 && rows[n - 1].city@ != key.2 {
        lemma_city_then_key(rows, (n - 1) as nat, key);
    }
}

proof fn lemma_rows_kept(rows: Seq<Admin2Row>, row: Admin2Row, n: nat, city: Seq<char>, key: PlaceKey)
    requires
        n <= rows.len(),
    ensures
        last_of_city(rows.push(row), n, city) == last_of_city(rows, n, city),
        last_of_key(rows.push(row), n, key) == last_of_key(rows, n, key),
    decreases n,
{
    if n > 0 {
        lemma_rows_kept(rows, row, (n - 1) as nat, city, key);
    }
}

/// The chain of a city starts at its last row.
spec fn chain_starts(rows: Seq<Admin2Row>, latest: Map<Seq<char>, usize>, city: Seq<char>) -> bool {
    match last_of_city(rows, rows.len(), city) {
        Some(i) => latest.contains_key(city) && latest[city] == i,
        None => !latest.contains_key(city),
    }
}

/// The chain goes on from row `k` at the row before it with the same city.
spec fn chain_goes_on(rows: Seq<Admin2Row>, k: int) -> bool {
    rows[k].earlier == last_of_city(rows, k as nat, rows[k].city@)
}

impl View for Admin2Lookup {
    type V = Map<PlaceKey, Seq<char>>;

    closed spec fn view(&self) -> Map<PlaceKey, Seq<char>> {
        let rows = self.rows@;
        Map::new(
            |key: PlaceKey| last_of_key(rows, rows.len(), key) is Some,
            |key: PlaceKey| last_of_key(rows, rows.len(), key)->0,
        )
    }
}

impl Admin2Lookup {
    /// The rows of one city are chained from the last to the first.
    #[verifier::type_invariant]
    closed spec fn chained(&self) -> bool {
        &&& forall|city: Seq<char>| #[trigger] chain_starts(self.rows@, self.latest@, city)
        &&& forall|k: int| 0 <= k < self.rows@.len() ==> #[trigger] chain_goes_on(self.rows@, k)
    }

    pub fn new() -> (r: Admin2Lookup)
        ensures
            r@ == Map::<PlaceKey, Seq<char>>::empty(),
    {
        let r = Admin2Lookup { rows: Vec::new(), latest: StringHashMap::new() };
        assert(r@ =~= Map::<PlaceKey, Seq<char>>::empty());
        r
    }

    /// The lookup with the division of a place set.
    pub fn insert(self, country: String, state: String, city: String, admin2: String) -> (r:
        Admin2Lookup)
        ensures
            r@ == self@.insert((country@, state@, city@), admin2@),
    {
        proof {
            use_type_invariant(&self);
        }
        let ghost before = self@;
        let ghost old_rows = self.rows@;
        let ghost old_latest = self.latest@;
        let ghost key = (country@, state@, city@);
        let Admin2Lookup { mut rows, mut latest } = self;
        let earlier = match latest.get(city.as_str()) {
            Some(i) => Some(*i),
            None => None,
        };
        let index: usize = rows.len();
        let name = city.clone();
        let row = Admin2Row { country, state, city, admin2, earlier };
        let ghost added = row;
        assert(chain_starts(old_rows, old_latest, name@));
        rows.push(row);
        latest.insert(name, index);
        proof {
            assert(rows@ == old_rows.push(added));
            assert(rows.len() == rows@.len());
            assert forall|c: Seq<char>| #[trigger] chain_starts(rows@, latest@, c) by {
                lemma_rows_kept(old_rows, added, old_rows.len(), c, key);
                assert(chain_starts(old_rows, old_latest, c));
            }
            assert forall|k: int| 0 <= k < rows@.len() implies #[trigger] chain_goes_on(
                rows@,
                k,
            ) by {
                lemma_rows_kept(old_rows, added, k as nat, rows@[k].city@, key);
                if k < old_rows.len() {
                    assert(chain_goes_on(old_rows, k));
                }
            }
            assert forall|k: PlaceKey| #[trigger] last_of_key(rows@, rows@.len(), k) == if k == key {
                Some(added.admin2@)
            } else {
                last_of_key(old_rows, old_rows.len(), k)
            } by {
                lemma_rows_kept(old_rows, added, old_rows.len(), city@, k);
            }
        }
        let r = Admin2Lookup { rows, latest };
        proof {
            assert forall|k: PlaceKey| #[trigger] r@.contains_key(k) == before.insert(
                key,
                admin2@,
            ).contains_key(k) by {
                assert(last_of_key(rows@, rows@.len(), k) == last_of_key(rows@, rows@.len(), k));
            }
            assert(r@ =~= before.insert(key, admin2@));
        }
        r
    }

    /// The division of a place, where it is known.
    pub fn get(&self, country: &str, state: &str, city: &str) -> (r: Option<&String>)
        ensures
            match r {
                Some(a) => self@.contains_key((country@, state@, city@)) && a@ == self@[(
                    country@,
                    state@,
                    city@,
                )],
                None => !self@.contains_key((country@, state@, city@)),
            },
    {
        proof {
            use_type_invariant(self);
        }
        let ghost key = (country@, state@, city@);
        let ghost rows = self.rows@;
        assert(chain_starts(self.rows@, self.latest@, city@));
        let mut at: Option<usize> = match self.latest.get(city) {
            Some(i) => Some(*i),
            None => None,
        };
        let ghost mut n: nat = rows.len();
        assert(self.rows.len() == rows.len());
        while at.is_some()
            invariant
                self.chained(),
                rows == self.rows@,
                key == (country@, state@, city@),
                n <= rows.len() <= usize::MAX,
                at == last_of_city(rows, n, key.2),
                last_of_key(rows, rows.len(), key) == last_of_key(rows, n, key),
            decreases n,
        {
            proof {
                lemma_city_then_key(rows, n, key);
            }
            let i: usize = at.unwrap();
            let row = &self.rows[i];
            if same(row.country.as_str(), country) && same(row.state.as_str(), state) {
                return Some(&row.admin2);
            }
            assert(chain_goes_on(rows, i as int));
            at = row.earlier;
            proof {
                n = i as nat;
            }
        }
        proof {
            lemma_city_then_key(rows, n, key);
        }
        None
    }

    pub fn is_empty(&self) -> (r: bool)
        ensures
            r == (self@ =~= Map::<PlaceKey, Seq<char>>::empty()),
    {
        proof {
            let rows = self.rows@;
            if rows.len() > 0 {
                let last = rows[rows.len() - 1];
                let key = (last.country@, last.state@, last.city@);
                assert(self@.contains_key(key));
            } else {
                assert(self@ =~= Map::<PlaceKey, Seq<char>>::empty());
            }
        }
        self.rows.is_empty()
    }
}

// ---- the table of divisions -------------------------------------------------

/// A line without the carriage return at its end.
pub open spec fn without_return(line: Seq<char>) -> Seq<char> {
    if line.len() > 0 && line.last() == '\r' {
        line.drop_last()
    } else {
        line
    }
}

/// The lines of a text. A line ends with a line feed, or a carriage return and
/// a line feed; the last one may lack its end.
pub open spec fn lines_of(text: Seq<char>) -> Seq<Seq<char>>
    decreases text.len(),
{
    if text.len() == 0 {
        Seq::empty()
    } else {
        let head = up_to_first(text, '\n');
        if head.len() >= text.len() {
            seq![text]
        } else {
            seq![without_return(head)] + lines_of(text.skip(head.len() as int + 1))
        }
    }
}

/// What stands before and behind the first tab.
pub open spec fn at_tab(line: Seq<char>) -> Option<(Seq<char>, Seq<char>)> {
    let head = up_to_first(line, '\t');
    if head.len() < line.len() {
        Some((head, line.skip(head.len() as int + 1)))
    } else {
        None
    }
}

/// A row of the table: country, state, city and division, parted by tabs, none
/// of them empty. A tab behind the third belongs to the division.
pub open spec fn row_of(line: Seq<char>) -> Option<(PlaceKey, Seq<char>)> {
    match at_tab(line) {
        None => None,
        Some((country, rest)) => match at_tab(rest) {
            None => None,
            Some((state, rest)) => match at_tab(rest) {
                None => None,
                Some((city, division)) => if country.len() > 0 && state.len() > 0 && city.len() > 0
                    && division.len() > 0 {
                    Some(((country, state, city), division))
                } else {
                    None
                },
            },
        },
    }
}

/// The table that the lines make up; a later row replaces an earlier one.
pub open spec fn table_of(lines: Seq<Seq<char>>) -> Map<PlaceKey, Seq<char>>
    decreases lines.len(),
{
    if lines.len() == 0 {
        Map::empty()
    } else {
        let before = table_of(lines.drop_last());
        match row_of(lines.last()) {
            Some((key, division)) => before.insert(key, division),
            None => before,
        }
    }
}

/// The numbers of the lines, from 1, that are neither empty nor a row.
pub open spec fn bad_lines(lines: Seq<Seq<char>>) -> Seq<usize>
    decreases lines.len(),
{
    if lines.len() == 0 {
        Seq::empty()
    } else {
        let before = bad_lines(lines.drop_last());
        if lines.last().len() > 0 && row_of(lines.last()) is None {
            before.push(lines.len() as usize)
        } else {
            before
        }
    }
}

fn split_at_tab(line: &str) -> (r: Option<(&str, &str)>)
    ensures
        match r {
            Some(p) => at_tab(line@) == Some((p.0@, p.1@)),
            None => at_tab(line@) is None,
        },
{
    let head = before_first(line, '\t');
    let n: usize = line.unicode_len();
    let k: usize = head.unicode_len();
    if k < n {
        assert(line@.skip(k + 1) =~= line@.subrange(k + 1, n as int));
        Some((head, line.substring_char(k + 1, n)))
    } else {
        None
    }
}

fn read_row(line: &str) -> (r: Option<(&str, &str, &str, &str)>)
    ensures
        match r {
            Some(p) => row_of(line@) == Some(((p.0@, p.1@, p.2@), p.3@)),
            None => row_of(line@) is None,
        },
{
    if let Some((country, rest)) = split_at_tab(line) {
        if let Some((state, rest)) = split_at_tab(rest) {
            if let Some((city, division)) = split_at_tab(rest) {
                if !country.is_empty() && !state.is_empty() && !city.is_empty()
                    && !division.is_empty() {
                    return Some((country, state, city, division));
                }
            }
        }
    }
    None
}

/// The characters `from..to` as a string.
fn stretch(chars: &Vec<char>, from: usize, to: usize) -> (r: String)
    requires
        from <= to <= chars.len(),
    ensures
        r@ == chars@.subrange(from as int, to as int),
{
    let mut out = String::new();
    let mut i: usize = from;
    assert(out@ =~= chars@.subrange(from as int, from as int));
    while i < to
        invariant
            from <= i <= to <= chars.len(),
            out@ == chars@.subrange(from as int, i as int),
        decreases to - i,
    {
        out.push(chars[i]);
        assert(out@ =~= chars@.subrange(from as int, i + 1));
        i += 1;
    }
    out
}

/// Parts a text into its lines.
pub fn split_lines(text: &str) -> (r: Vec<String>)
    ensures
        texts(r@) == lines_of(text@),
{
    let chars = chars_of(text);
    let n: usize = chars.len();
    let mut out: Vec<String> = Vec::new();
    let mut from: usize = 0;
    assert(text@.skip(0) =~= text@);
    assert(texts(out@) + lines_of(text@) =~= lines_of(text@));
    while from < n
        invariant
            chars@ == text@,
            n == text@.len(),
            n == chars.len(),
            from <= n,
            texts(out@) + lines_of(text@.skip(from as int)) == lines_of(text@),
        decreases n - from,
    {
        let ghost rest = text@.skip(from as int);
        let ghost before = texts(out@);
        let mut to: usize = from;
        while to < n && chars[to] != '\n'
            invariant
                chars@ == text@,
                n == text@.len(),
                n == chars.len(),
                from <= to <= n,
                forall|j: int| from <= j < to ==> #[trigger] text@[j] != '\n',
            decreases n - to,
        {
            to += 1;
        }
        let ghost head = text@.subrange(from as int, to as int);
        proof {
            assert forall|j: int| 0 <= j < to - from implies #[trigger] rest[j] != '\n' by {
                assert(rest[j] == text@[j + from]);
            }
            lemma_up_to_first(rest, '\n', to - from);
            assert(rest.take(to - from) =~= head);
        }
        if to == n {
            assert(head =~= rest);
            let line = stretch(&chars, from, to);
            let ghost l = line@;
            out.push(line);
            assert(texts(out@) =~= before.push(l));
            assert(texts(out@) + lines_of(text@.skip(n as int)) =~= before + lines_of(rest));
            from = n;
        } else {
            let end: usize = if to > from && chars[to - 1] == '\r' {
                to - 1
            } else {
                to
            };
            let line = stretch(&chars, from, end);
            let ghost l = line@;
            assert(l =~= without_return(head));
            out.push(line);
            assert(texts(out@) =~= before.push(l));
            assert(rest.skip(to - from + 1) =~= text@.skip(to + 1));
            assert(texts(out@) + lines_of(text@.skip(to + 1)) =~= before + lines_of(rest));
            from = to + 1;
        }
    }
    assert(texts(out@) + lines_of(text@.skip(from as int)) =~= texts(out@));
    out
}

/// Reads the table of divisions. Empty lines are passed over; the numbers of
/// the other lines that are not rows are given back.
pub fn read_admin2_table(text: &str) -> (r: (Admin2Lookup, Vec<usize>))
    ensures
        r.0@ == table_of(lines_of(text@)),
        r.1@ == bad_lines(lines_of(text@)),
{
    let lines = split_lines(text);
    let ghost all = texts(lines@);
    let mut table = Admin2Lookup::new();
    let mut bad: Vec<usize> = Vec::new();
    let mut i: usize = 0;
    while i < lines.len()
        invariant
            i <= lines.len(),
            all == texts(lines@),
            table@ == table_of(all.take(i as int)),
            bad@ == bad_lines(all.take(i as int)),
        decreases lines.len() - i,
    {
        assert(all.take(i + 1).drop_last() =~= all.take(i as int));
        assert(all.take(i + 1).last() == lines@[i as int]@);
        match read_row(lines[i].as_str()) {
            Some((country, state, city, division)) => {
                table = table.insert(
                    country.to_owned(),
                    state.to_owned(),
                    city.to_owned(),
                    division.to_owned(),
                );
            },
            None => {
                if !lines[i].as_str().is_empty() {
                    bad.push(i + 1);
                }
            },
        }
        i += 1;
    }
    assert(all.take(i as int) =~= all);
    (table, bad)
}

/// The division of an entry after the lookup: what the lookup says, or what it
/// was where the lookup says nothing.
pub open spec fn enriched_admin2(
    e: CityVocabEntry,
    lookup: Map<PlaceKey, Seq<char>>,
) -> Option<Seq<char>> {
    let key = (e.country@, e.state@, e.city@);
    if lookup.contains_key(key) {
        Some(lookup[key])
    } else {
        opt_text(e.admin2)
    }
}

pub open spec fn enriched(
    before: Seq<CityVocabEntry>,
    lookup: Map<PlaceKey, Seq<char>>,
    after: Seq<CityVocabEntry>,
) -> bool {
    &&& after.len() == before.len()
    &&& forall|i: int|
        0 <= i < before.len() ==> {
            &&& (#[trigger] after[i]).country == before[i].country
            &&& after[i].state == before[i].state
            &&& after[i].city == before[i].city
            &&& opt_text(after[i].admin2) == enriched_admin2(before[i], lookup)
        }
}

/// Fills in the second-level divisions that the lookup knows.
pub fn enrich_with_admin2(vocab: &mut Vec<CityVocabEntry>, lookup: &Admin2Lookup)
    ensures
        enriched(old(vocab)@, lookup@, final(vocab)@),
{
    let mut i: usize = 0;
    while i < vocab.len()
        invariant
            i <= vocab.len(),
            vocab.len() == old(vocab)@.len(),
            enriched(old(vocab)@.take(i as int), lookup@, vocab@.take(i as int)),
            forall|j: int| i <= j < vocab.len() ==> vocab@[j] == old(vocab)@[j],
        decreases vocab.len() - i,
    {
        let ghost before = vocab@;
        let found = match lookup.get(
            vocab[i].country.as_str(),
            vocab[i].state.as_str(),
            vocab[i].city.as_str(),
        ) {
            Some(a) => Some(a.clone()),
            None => None,
        };
        if found.is_some() {
            let entry = CityVocabEntry {
                country: vocab[i].country.clone(),
                state: vocab[i].state.clone(),
                city: vocab[i].city.clone(),
                admin2: found,
            };
            vocab.set(i, entry);
        }
        proof {
            let was = old(vocab)@.take(i + 1);
            let now = vocab@.take(i + 1);
            assert forall|j: int| 0 <= j < was.len() implies {
                &&& (#[trigger] now[j]).country == was[j].country
                &&& now[j].state == was[j].state
                &&& now[j].city == was[j].city
                &&& opt_text(now[j].admin2) == enriched_admin2(was[j], lookup@)
            } by {
                if j < i {
                    assert(now[j] == before.take(i as int)[j]);
                    assert(was[j] == old(vocab)@.take(i as int)[j]);
                }
            }
        }
        i += 1;
    }
    assert(old(vocab)@.take(i as int) =~= old(vocab)@);
    assert(vocab@.take(i as int) =~= vocab@);
}

// ---- resolving a place ------------------------------------------------------

/// A place to filter by; broader places have fewer fields.
#[derive(Debug, PartialEq, Eq)]
pub struct PlaceMatch {
    pub country: Option<String>,
    pub state: Option<String>,
    pub city: Option<String>,
}

#[verifier::ext_equal]
pub ghost struct PlaceView {
    pub country: Option<Seq<char>>,
    pub state: Option<Seq<char>>,
    pub city: Option<Seq<char>>,
}

impl View for PlaceMatch {
    type V = PlaceView;

    open spec fn view(&self) -> PlaceView {
        PlaceView {
            country: opt_text(self.country),
            state: opt_text(self.state),
            city: opt_text(self.city),
        }
    }
}

/// The place that filters nothing.
pub open spec fn anywhere() -> PlaceView {
    PlaceView { country: None, state: None, city: None }
}

impl Default for PlaceMatch {
    fn default() -> (r: PlaceMatch)
        ensures
            r@ == anywhere(),
    {
        PlaceMatch { country: None, state: None, city: None }
    }
}

/// A blank field counts as missing.
pub open spec fn not_blank(field: Option<Seq<char>>) -> Option<Seq<char>> {
    match field {
        Some(s) => if is_blank(s) {
            None
        } else {
            Some(s)
        },
        None => None,
    }
}

pub open spec fn without_blanks(m: PlaceView) -> PlaceView {
    PlaceView {
        country: not_blank(m.country),
        state: not_blank(m.state),
        city: not_blank(m.city),
    }
}

fn drop_blank(field: Option<String>) -> (r: Option<String>)
    ensures
        opt_text(r) == not_blank(opt_text(field)),
{
    match field {
        Some(s) => if blank(s.as_str()) {
            None
        } else {
            Some(s)
        },
        None => None,
    }
}

fn same_option(a: &Option<String>, b: &Option<String>) -> (r: bool)
    ensures
        r == (opt_text(*a) == opt_text(*b)),
{
    match (a, b) {
        (Some(x), Some(y)) => same(x.as_str(), y.as_str()),
        (None, None) => true,
        _ => false,
    }
}

impl PlaceMatch {
    /// Whether nothing is filtered.
    pub fn is_empty(&self) -> (r: bool)
        ensures
            r == (self@ == anywhere()),
    {
        self.country.is_none() && self.state.is_none() && self.city.is_none()
    }

    /// Drops the fields that are blank.
    pub fn normalize_empties(&mut self)
        ensures
            final(self)@ == without_blanks(old(self)@),
    {
        self.country = drop_blank(self.country.take());
        self.state = drop_blank(self.state.take());
        self.city = drop_blank(self.city.take());
    }

    fn matches_place(&self, other: &PlaceMatch) -> (r: bool)
        ensures
            r == (self@ == other@),
    {
        same_option(&self.country, &other.country) && same_option(&self.state, &other.state)
            && same_option(&self.city, &other.city)
    }
}

impl Clone for PlaceMatch {
    fn clone(&self) -> (r: PlaceMatch)
        ensures
            r == *self,
    {
        PlaceMatch {
            country: self.country.clone(),
            state: self.state.clone(),
            city: self.city.clone(),
        }
    }
}

pub open spec fn place_views(list: Seq<PlaceMatch>) -> Seq<PlaceView> {
    list.map_values(|m: PlaceMatch| m@)
}

/// What remains of the places that the model named: blank fields are dropped,
/// and so are places without any field and repetitions.
pub open spec fn kept_places(list: Seq<PlaceView>) -> Seq<PlaceView>
    decreases list.len(),
{
    if list.len() == 0 {
        Seq::empty()
    } else {
        let before = kept_places(list.drop_last());
        let m = without_blanks(list.last());
        if m == anywhere() || before.contains(m) {
            before
        } else {
            before.push(m)
        }
    }
}

fn has_place(list: &Vec<PlaceMatch>, m: &PlaceMatch) -> (r: bool)
    ensures
        r == place_views(list@).contains(m@),
{
    let mut i: usize = 0;
    while i < list.len()
        invariant
            i <= list.len(),
            forall|j: int| 0 <= j < i ==> #[trigger] place_views(list@)[j] != m@,
        decreases list.len() - i,
    {
        if list[i].matches_place(m) {
            assert(place_views(list@)[i as int] == m@);
            return true;
        }
        i += 1;
    }
    false
}

/// Cleans the places that the model named.
pub fn clean_places(list: &Vec<PlaceMatch>) -> (r: Vec<PlaceMatch>)
    ensures
        place_views(r@) == kept_places(place_views(list@)),
{
    let ghost all = place_views(list@);
    let mut out: Vec<PlaceMatch> = Vec::new();
    let mut i: usize = 0;
    assert(place_views(out@) =~= kept_places(all.take(0)));
    while i < list.len()
        invariant
            i <= list.len(),
            all == place_views(list@),
            place_views(out@) == kept_places(all.take(i as int)),
        decreases list.len() - i,
    {
        assert(all.take(i + 1).drop_last() =~= all.take(i as int));
        let mut m = list[i].clone();
        m.normalize_empties();
        if !m.is_empty() && !has_place(&out, &m) {
            let ghost before = out@;
            let ghost added = m;
            out.push(m);
            assert(place_views(out@) =~= place_views(before).push(added@));
        }
        i += 1;
    }
    assert(all.take(i as int) =~= all);
    out
}

/// A field that may be missing or null. The outer `None` is a value of another
/// kind.
pub open spec fn optional_text(value: Option<JsonView>) -> Option<Option<Seq<char>>> {
    match value {
        None => Some(None),
        Some(JsonView::Null) => Some(None),
        Some(JsonView::Text(s)) => Some(Some(s)),
        Some(_) => None,
    }
}

/// A place in an answer of the model.
pub open spec fn place_in(doc: JsonView) -> Option<PlaceView> {
    if !is_record(doc, 3) {
        None
    } else {
        match (
            optional_text(slot(doc, "country"@, 0)),
            optional_text(slot(doc, "state"@, 1)),
            optional_text(slot(doc, "city"@, 2)),
        ) {
            (Some(country), Some(state), Some(city)) => Some(PlaceView { country, state, city }),
            _ => None,
        }
    }
}

/// The places of an answer, all of which have to be readable.
pub open spec fn places_in(doc: JsonView) -> Option<Seq<PlaceView>> {
    if !is_record(doc, 1) {
        None
    } else {
        match slot(doc, "matches"@, 0) {
            Some(JsonView::List(items)) => if forall|i: int|
                0 <= i < items.len() ==> place_in(#[trigger] items[i]) is Some {
                Some(items.map_values(|j: JsonView| place_in(j)->0))
            } else {
                None
            },
            _ => None,
        }
    }
}

fn read_optional(value: Option<&Json>) -> (r: Option<Option<String>>)
    ensures
        match r {
            Some(o) => optional_text(opt_json(value)) == Some(opt_text(o)),
            None => optional_text(opt_json(value)) is None,
        },
{
    match value {
        None => Some(None),
        Some(Json::Null) => Some(None),
        Some(Json::Text(s)) => Some(Some(s.clone())),
        Some(_) => None,
    }
}

fn read_place(doc: &Json) -> (r: Option<PlaceMatch>)
    ensures
        match r {
            Some(m) => place_in(doc@) == Some(m@),
            None => place_in(doc@) is None,
        },
{
    if !doc.record(3) {
        return None;
    }
    let country = read_optional(doc.field("country", 0));
    let state = read_optional(doc.field("state", 1));
    let city = read_optional(doc.field("city", 2));
    match (country, state, city) {
        (Some(country), Some(state), Some(city)) => Some(PlaceMatch { country, state, city }),
        _ => None,
    }
}

/// Reads the places of an answer.
pub fn read_places(doc: &Json) -> (r: Option<Vec<PlaceMatch>>)
    ensures
        match r {
            Some(v) => places_in(doc@) == Some(place_views(v@)),
            None => places_in(doc@) is None,
        },
{
    if !doc.record(1) {
        return None;
    }
    match doc.field("matches", 0) {
        Some(Json::List(items)) => {
            let ghost views = items@.map_values(|j: Json| j@);
            proof {
                lemma_list_view(*items);
            }
            let mut out: Vec<PlaceMatch> = Vec::new();
            let mut i: usize = 0;
            while i < items.len()
                invariant
                    i <= items.len(),
                    views == items@.map_values(|j: Json| j@),
                    slot(doc@, "matches"@, 0) == Some(JsonView::List(views)),
                    is_record(doc@, 1),
                    out.len() == i,
                    forall|j: int|
                        0 <= j < i ==> place_in(#[trigger] views[j]) == Some(out@[j]@),
                decreases items.len() - i,
            {
                assert(views[i as int] == items@[i as int]@);
                match read_place(&items[i]) {
                    Some(m) => out.push(m),
                    None => {
                        return None;
                    },
                }
                i += 1;
            }
            assert(place_views(out@) =~= views.map_values(|j: JsonView| place_in(j)->0));
            Some(out)
        },
        _ => None,
    }
}

pub const PROMPT_HEAD: &'static str =
    "You map a user's free-form description of a place to the exact (city, state, country) tuples a photo library uses for filtering.\n\nTwo halves to keep straight:\n1. The USER INPUT is free-form: Chinese, English, abbreviated, names of countries, provinces, districts, prefectures, neighborhoods. You INTERPRET it using your geographic knowledge.\n2. The OUTPUT strings (country, state, city) must come from the vocabulary below byte-for-byte. The library filters by exact match; an invented string returns nothing.\n\nWhat the vocabulary actually is — this is critical context:\nThe library uses GeoNames as its reverse-geocoder. Each photo's GPS coords are mapped to the nearest GeoNames populated-place entry; THAT entry's name fills the `city` field, and a preprocessing step has joined each entry with its GeoNames admin2 (prefecture / 县级市 / county / district / ward).\n- `country` is GeoNames' long-form country name. Always use the long form as it appears in the vocabulary: `People's Republic of China` (NEVER `China`), `Russian Federation`, `United Arab Emirates`, etc.\n- `state` is GeoNames' admin1 division: province / 省 / direct-administered municipality in mainland China, prefecture in Japan, state in the US, region in Italy, federal subject in Russia.\n- The **admin2 group** (indented inside each state in the vocabulary, with `:` after its name) is the prefecture-level subdivision: 县级市 / prefecture-city in China (`三亚市`, `文昌市`, `Haikou Shi`), special ward in Tokyo (`Minato-ku`, `Chūō Ku`), county / county equivalent in the US, département in France, etc. This is the level at which most user queries naturally land. It is shown to you for free — you do NOT need to recall which populated places belong to which admin2; the vocabulary already tells you.\n- `city` is the noisy GeoNames populated-place entry: a neighbourhood (`Quinze-Vingts`), a district / township (`Haitangwan`), a sub-district / street office (`Báigōng Jiēdào`), a science park (`Keji yuan`), a park / landmark (`Happy Harbour`), or anything else a contributor put on the map.\n- The bucket labelled `(uncategorized)` inside a state collects cities whose admin2 the preprocessing step could NOT identify. For those, you DO have to fall back on your own geographic knowledge — but only those, not the whole vocabulary.\n\nImportant: the admin2 names are themselves vocabulary metadata, NOT output values. They help you decide WHICH cities to return. The matches you emit only use country / state / city.\n\nYour job: the user is asking about a real-world region; figure out which vocabulary entries lie inside it. With admin2 grouping shown above, this is usually a straightforward lookup: if the user names an admin2, every city in that bucket is in scope.\n\nVocabulary (country → state → admin2 → cities; cities are comma-separated after the admin2 name; `(uncategorized)` holds cities with no joined admin2):\n\n";

pub const PROMPT_TAIL: &'static str =
    "\n\nOutput strict JSON, no prose:\n{\"matches\": [{\"country\": \"...\", \"state\": \"...\", \"city\": \"...\"}, ...]}\n\nCORE PRINCIPLE — match the user's precision, not coarser, not finer.\nThe level of detail in the output (country only / country+state / country+state+city) must match the level the user actually targeted. NEVER \"fall back to a broader level\" if a finer match isn't possible — broadening returns photos from places the user did NOT ask about. If you cannot identify the user's place at the precision they specified, return {\"matches\": []}. Empty is the correct answer when there is no overlap; do not substitute a neighbouring or enclosing region.\n\nHow to pick the level:\n- User names a COUNTRY (`日本`, `Japan`, `中国`, `US`) → one match, only `country` set. Do NOT list every state.\n- User names a STATE / PROVINCE / direct-administered municipality that exists as a vocabulary state (`海南`, `Hainan`, `上海`, `Tokyo`) → one match with `country` + `state`. Do NOT enumerate its admin2s or cities.\n- User names an ADMIN2 — a prefecture-level city / county / ward (`三亚市`, `文昌市`, `Minato-ku`, `Haidian Qu`). Find that admin2 in the vocabulary and emit ONE match per city under it. This is the most common case; the vocabulary already lists them for you, no guessing needed.\n- User names a VOCABULARY CITY directly (`Pudong`, `Haitangwan`) → one match with all three fields.\n- User input doesn't match any admin2 verbatim but is a sub-state region you can identify (an alias / Chinese name / informal name like `三亚` for `三亚市`, `海淀` for `Haidian Qu`, `Shibuya` for `Shibuya-ku`). Same as the admin2 case — return every city under the matched admin2.\n- User names a sub-state region with NO matching admin2 in the vocabulary — only then fall back on your geographic knowledge of which `(uncategorized)` cities lie inside it. Do NOT enumerate cities from OTHER admin2s of the same state; that would broaden the result.\n- If after all the above you cannot identify ANY vocabulary city as inside the user's region, return {\"matches\": []}. Empty is the correct answer when there is no overlap.\n\nReturn MULTIPLE matches when (a) the user's sub-state region contains multiple vocabulary cities (the common case for any prefecture / district / county / metro area), or (b) the same city name appears under multiple states.\n\nGeneric level-of-detail examples (substitute the actual country/state/city names from the vocabulary):\n- Whole country → {\"country\": \"<long-form country name from the vocabulary>\"}.\n- A vocabulary state → {\"country\": \"...\", \"state\": \"<state name>\"}. Do NOT enumerate its cities.\n- A vocabulary city → {\"country\": \"...\", \"state\": \"...\", \"city\": \"<city name>\"}.\n- A sub-state region (district / prefecture / county / neighbourhood) → one match per vocabulary city you can identify as lying inside that region, possibly several.\n- A region that has no overlap with the vocabulary → {\"matches\": []}.\n\nFORMAT: omit `state` and `city` entirely when they are not used — do NOT include them as empty strings. `{\"country\": \"...\", \"state\": \"Hainan\"}` is correct; `{\"country\": \"...\", \"state\": \"Hainan\", \"city\": \"\"}` is WRONG (the library would then exact-match on `city = \"\"` and return zero photos).\n";

/// What the model is told of the vocabulary and of its task.
pub open spec fn place_prompt(vocab: Seq<CityVocabEntry>) -> Seq<char> {
    PROMPT_HEAD@ + outline(vocab) + PROMPT_TAIL@
}

/// What an answer of the model comes to.
pub open spec fn places_from_reply(
    reply: Result<String, Error>,
    r: Result<Vec<PlaceMatch>, Error>,
) -> bool {
    match reply {
        Err(e) => r == Err::<Vec<PlaceMatch>, Error>(e),
        Ok(raw) => {
            let named = match json_of(raw@) {
                Ok(doc) => places_in(doc),
                Err(_) => None,
            };
            match named {
                None => r is Err && (r->Err_0 matches Error::PlaceReplyNotJson { reply: t, cause }
                    && t@ == raw@ && opt_text(cause) == json_fault(raw@)),
                Some(list) => r is Ok && place_views(r->Ok_0@) == kept_places(list),
            }
        },
    }
}

/// What resolving a place comes to: an error where the library knows no place,
/// and otherwise what the model answers.
pub open spec fn resolved<L: ChatBackend>(
    llm: &L,
    input: Seq<char>,
    vocab: Seq<CityVocabEntry>,
    r: Result<Vec<PlaceMatch>, Error>,
) -> bool {
    if vocab.len() == 0 {
        r == Err::<Vec<PlaceMatch>, Error>(Error::NothingGeocoded)
    } else {
        exists|reply: Result<String, Error>| #[trigger]
            chat_reply(llm, place_prompt(vocab), input, reply) && places_from_reply(reply, r)
    }
}

/// What resolving a place needs may be asked for: nothing where the library knows
/// no place.
pub open spec fn resolving_allowed<L: ChatBackend>(
    llm: &L,
    input: Seq<char>,
    vocab: Seq<CityVocabEntry>,
) -> bool {
    vocab.len() > 0 ==> llm.may_chat(dialogue(place_prompt(vocab), input))
}

/// Maps a place in words to places of the vocabulary.
pub fn resolve_with_vocab<L: ChatBackend>(
    llm: &L,
    input: &str,
    vocab: &Vec<CityVocabEntry>,
) -> (r: Result<Vec<PlaceMatch>, Error>)
    requires
        resolving_allowed(llm, input@, vocab@),
    ensures
        resolved(llm, input@, vocab@, r),
{
    if vocab.is_empty() {
        return Err(Error::NothingGeocoded);
    }
    let mut prompt = PROMPT_HEAD.to_owned();
    prompt.append(format_vocabulary(vocab).as_str());
    prompt.append(PROMPT_TAIL);
    assert(prompt@ == place_prompt(vocab@));
    let reply = chat(llm, prompt.as_str(), input);
    assert(chat_reply(llm, place_prompt(vocab@), input@, reply));
    match reply {
        Err(e) => Err(e),
        Ok(raw) => {
            let (named, cause) = match read_json(raw.as_str()) {
                Ok(doc) => (read_places(&doc), None),
                Err(cause) => (None, Some(cause)),
            };
            match named {
                None => Err(Error::PlaceReplyNotJson { reply: raw, cause }),
                Some(list) => Ok(clean_places(&list)),
            }
        },
    }
}

/// The backend answered `reply` when asked for the vocabulary.
pub open spec fn vocabulary_reply<P: PlacesBackend>(
    backend: &P,
    reply: Result<Vec<CityVocabEntry>, Error>,
) -> bool {
    call_ensures(P::cities_vocabulary, (backend,), reply)
}

/// What resolving a place against the library comes to.
pub open spec fn place_resolved<P: PlacesBackend, L: ChatBackend>(
    places_be: &P,
    llm: &L,
    input: Seq<char>,
    lookup: Map<PlaceKey, Seq<char>>,
    r: Result<Vec<PlaceMatch>, Error>,
) -> bool {
    if is_blank(input) {
        r == Err::<Vec<PlaceMatch>, Error>(Error::PlaceEmpty)
    } else {
        exists|known: Result<Vec<CityVocabEntry>, Error>| #[trigger]
            vocabulary_reply(places_be, known) && match known {
                Err(e) => r == Err::<Vec<PlaceMatch>, Error>(e),
                Ok(before) => exists|vocab: Seq<CityVocabEntry>| #[trigger]
                    enriched(before@, lookup, vocab) && resolved(llm, trim(input), vocab, r),
            }
    }
}

/// What resolving a place against the library needs may be asked for: nothing
/// where the place is blank, and the model only once the vocabulary is there.
pub open spec fn place_allowed<P: PlacesBackend, L: ChatBackend>(
    places_be: &P,
    llm: &L,
    input: Seq<char>,
    lookup: Map<PlaceKey, Seq<char>>,
) -> bool {
    !is_blank(input) ==> {
        &&& places_be.may_list_places()
        &&& forall|before: Vec<CityVocabEntry>, vocab: Seq<CityVocabEntry>|
            #[trigger] vocabulary_reply(places_be, Ok(before)) && #[trigger] enriched(
                before@,
                lookup,
                vocab,
            ) ==> resolving_allowed(llm, trim(input), vocab)
    }
}

/// Maps a place in words to places that the library knows.
pub fn resolve_place<P: PlacesBackend, L: ChatBackend>(
    places_be: &P,
    llm: &L,
    input: &str,
    lookup: &Admin2Lookup,
) -> (r: Result<Vec<PlaceMatch>, Error>)
    requires
        place_allowed(places_be, llm, input@, lookup@),
    ensures
        place_resolved(places_be, llm, input@, lookup@, r),
{
    let wanted = trimmed(input);
    proof {
        lemma_trim_empty(input@);
    }
    if wanted.is_empty() {
        return Err(Error::PlaceEmpty);
    }
    let known = places_be.cities_vocabulary();
    assert(vocabulary_reply(places_be, known));
    match known {
        Err(e) => Err(e),
        Ok(before) => {
            let mut vocab = before;
            enrich_with_admin2(&mut vocab, lookup);
            assert(enriched(before@, lookup@, vocab@));
            resolve_with_vocab(llm, wanted, &vocab)
        },
    }
}

/// No place is kept that filters nothing or has a blank field, and none is
/// kept twice.
pub proof fn law_kept_places_are_usable(list: Seq<PlaceView>)
    ensures
        kept_places(list).no_duplicates(),
        forall|i: int|
            0 <= i < kept_places(list).len() ==> {
                let m = #[trigger] kept_places(list)[i];
                m != anywhere() && without_blanks(m) == m
            },
    decreases list.len(),
{
    if list.len() > 0 {
        law_kept_places_are_usable(list.drop_last());
        let before = kept_places(list.drop_last());
        let m = without_blanks(list.last());
        assert(without_blanks(m) =~= m);
        if m != anywhere() && !before.contains(m) {
            assert forall|i: int, j: int|
                0 <= i < kept_places(list).len() && 0 <= j < kept_places(list).len() && i
                    != j implies kept_places(list)[i] != kept_places(list)[j] by {
                if i < before.len() {
                    assert(before.contains(before[i]));
                }
                if j < before.len() {
                    assert(before.contains(before[j]));
                }
            }
        }
    }
}

// ---- what holds of places ---------------------------------------------------

/// A field that is missing, or holds nothing but white space, filters nothing; any other
/// field stays as it was named.
pub proof fn law_blank_fields_are_dropped(m: PlaceView)
    ensures
        without_blanks(m).country == (if m.country is Some && trim(m.country->0).len() > 0 {
            m.country
        } else {
            None
        }),
        without_blanks(m).state == (if m.state is Some && trim(m.state->0).len() > 0 {
            m.state
        } else {
            None
        }),
        without_blanks(m).city == (if m.city is Some && trim(m.city->0).len() > 0 {
            m.city
        } else {
            None
        }),
{
    if let Some(s) = m.country {
        lemma_trim_empty(s);
    }
    if let Some(s) = m.state {
        lemma_trim_empty(s);
    }
    if let Some(s) = m.city {
        lemma_trim_empty(s);
    }
}

/// Nothing that was named is lost: every named place with a field that is not blank is kept.
/// Nothing else is kept, and the places stay in the order in which they were first named.
pub proof fn law_no_named_place_is_lost(list: Seq<PlaceView>)
    ensures
        forall|i: int|
            0 <= i < list.len() && without_blanks(#[trigger] list[i]) != anywhere()
                ==> kept_places(list).contains(without_blanks(list[i])),
        forall|k: int|
            0 <= k < kept_places(list).len() ==> was_named(list, #[trigger] kept_places(list)[k]),
        forall|a: int, b: int|
            0 <= a < b < kept_places(list).len() ==> named_before(
                list,
                #[trigger] kept_places(list)[a],
                #[trigger] kept_places(list)[b],
            ),
        forall|a: int, b: int|
            0 <= a < b < kept_places(list).len() ==> #[trigger] kept_places(list)[a]
                != #[trigger] kept_places(list)[b],
    decreases list.len(),
{
    law_kept_places_are_usable(list);
    if list.len() > 0 {
        let past = list.drop_last();
        let before = kept_places(past);
        let now = kept_places(list);
        let m = without_blanks(list.last());
        law_no_named_place_is_lost(past);
        assert forall|k: int| 0 <= k < before.len() implies #[trigger] now[k] == before[k] by {}
        assert forall|p: PlaceView| #[trigger] before.contains(p) implies now.contains(p) by {
            let k = choose|k: int| 0 <= k < before.len() && before[k] == p;
            assert(now[k] == p);
        }
        assert forall|i: int|
            0 <= i < list.len() && without_blanks(#[trigger] list[i])
                != anywhere() implies now.contains(without_blanks(list[i])) by {
            if i < past.len() {
                assert(past[i] == list[i]);
            } else if !before.contains(m) {
                assert(now[now.len() - 1] == m);
            }
        }
        assert forall|k: int| 0 <= k < now.len() implies was_named(list, #[trigger] now[k]) by {
            if k < before.len() {
                assert(was_named(past, before[k]));
                let i = choose|i: int|
                    0 <= i < past.len() && without_blanks(#[trigger] past[i]) == before[k];
                assert(list[i] == past[i]);
            } else {
                assert(without_blanks(list[list.len() - 1]) == now[k]);
            }
        }
        assert forall|a: int, b: int| 0 <= a < b < now.len() implies named_before(
            list,
            #[trigger] now[a],
            #[trigger] now[b],
        ) by {
            assert(now[a] == before[a]);
            if b < before.len() {
                assert(named_before(past, before[a], before[b]));
                let i = choose|i: int|
                    0 <= i < past.len() && without_blanks(#[trigger] past[i]) == before[a]
                        && forall|j: int|
                        0 <= j <= i ==> without_blanks(#[trigger] past[j]) != before[b];
                assert(list[i] == past[i]);
                assert forall|j: int| 0 <= j <= i implies without_blanks(#[trigger] list[j])
                    != now[b] by {
                    assert(list[j] == past[j]);
                }
            } else {
                assert(was_named(past, before[a]));
                let i = choose|i: int|
                    0 <= i < past.len() && without_blanks(#[trigger] past[i]) == before[a];
                assert(list[i] == past[i]);
                assert forall|j: int| 0 <= j <= i implies without_blanks(#[trigger] list[j])
                    != now[b] by {
                    assert(list[j] == past[j]);
                    if without_blanks(past[j]) == now[b] {
                        assert(before.contains(now[b]));
                    }
                }
            }
        }
    }
}

/// The place was named, with or without blank fields besides.
pub open spec fn was_named(list: Seq<PlaceView>, m: PlaceView) -> bool {
    exists|i: int| 0 <= i < list.len() && without_blanks(#[trigger] list[i]) == m
}

/// The first place was named before the second was named at all.
pub open spec fn named_before(list: Seq<PlaceView>, first: PlaceView, second: PlaceView) -> bool {
    exists|i: int|
        0 <= i < list.len() && without_blanks(#[trigger] list[i]) == first && forall|j: int|
            0 <= j <= i ==> without_blanks(#[trigger] list[j]) != second
}

/// A place of an answer has its country, state and city from the members of these names; a
/// member that is missing or null is none.
pub proof fn law_place_is_read_by_name(
    doc: JsonView,
    country: Option<Seq<char>>,
    state: Option<Seq<char>>,
    city: Option<Seq<char>>,
)
    requires
        doc is Fields,
        named_or_absent(doc, "country"@, country),
        named_or_absent(doc, "state"@, state),
        named_or_absent(doc, "city"@, city),
    ensures
        place_in(doc) == Some(PlaceView { country, state, city }),
{
    law_members_by_name(doc, "country"@, JsonView::Null);
    law_members_by_name(doc, "state"@, JsonView::Null);
    law_members_by_name(doc, "city"@, JsonView::Null);
    if let Some(t) = country {
        law_members_by_name(doc, "country"@, JsonView::Text(t));
    }
    if let Some(t) = state {
        law_members_by_name(doc, "state"@, JsonView::Text(t));
    }
    if let Some(t) = city {
        law_members_by_name(doc, "city"@, JsonView::Text(t));
    }
    lemma_absent(doc, "country"@);
    lemma_absent(doc, "state"@);
    lemma_absent(doc, "city"@);
}

/// The document has this text under the name, or nothing but null where there is none.
pub open spec fn named_or_absent(doc: JsonView, name: Seq<char>, text: Option<Seq<char>>) -> bool {
    match text {
        Some(t) => has_member(doc, name, JsonView::Text(t)),
        None => has_member(doc, name, JsonView::Null) || forall|v: JsonView|
            !(#[trigger] has_member(doc, name, v)),
    }
}

proof fn lemma_absent(doc: JsonView, name: Seq<char>)
    ensures
        (forall|v: JsonView| !(#[trigger] has_member(doc, name, v))) ==> member(doc, name) is None,
{
    if let Some(v) = member(doc, name) {
        law_members_by_name(doc, name, v);
    }
}

/// All places of an answer are read, each in its position.
pub proof fn law_all_matches_are_read(doc: JsonView, items: Seq<JsonView>)
    requires
        has_member(doc, "matches"@, JsonView::List(items)),
    ensures
        (exists|i: int| 0 <= i < items.len() && place_in(#[trigger] items[i]) is None)
            ==> places_in(doc) is None,
        (forall|i: int| 0 <= i < items.len() ==> place_in(#[trigger] items[i]) is Some) ==> {
            &&& places_in(doc) is Some
            &&& places_in(doc)->0.len() == items.len()
            &&& forall|i: int|
                0 <= i < items.len() ==> Some(places_in(doc)->0[i]) == place_in(#[trigger] items[i])
        },
{
    law_members_by_name(doc, "matches"@, JsonView::List(items));
}

/// The model is shown the vocabulary, and asked for the place in the words that were given.
pub proof fn law_model_sees_the_vocabulary<L: ChatBackend>(
    llm: &L,
    input: Seq<char>,
    vocab: Seq<CityVocabEntry>,
    list: Vec<PlaceMatch>,
) -> (r: (&Vec<Message>, String))
    requires
        resolved(llm, input, vocab, Ok(list)),
    ensures
        vocab.len() > 0,
        call_ensures(L::chat_json, (llm, r.0), Ok::<String, Error>(r.1)),
        r.0@.len() == 2,
        r.0@[0].role@ == "system"@,
        holds(r.0@[0].content@, outline(vocab)),
        r.0@[1].role@ == "user"@,
        r.0@[1].content@ == input,
        places_from_reply(Ok(r.1), Ok(list)),
{
    let reply = choose|reply: Result<String, Error>| #[trigger]
        chat_reply(llm, place_prompt(vocab), input, reply) && places_from_reply(reply, Ok(list));
    let asked = choose|asked: &Vec<Message>|
        message_views(asked@) == dialogue(place_prompt(vocab), input) && #[trigger] call_ensures(
            L::chat_json,
            (llm, asked),
            reply,
        );
    let views = message_views(asked@);
    assert(views.len() == asked@.len());
    assert(views[0] == asked@[0]@);
    assert(views[1] == asked@[1]@);
    lemma_holds(PROMPT_HEAD@, outline(vocab), PROMPT_TAIL@);
    (asked, reply->Ok_0)
}

/// What a reply that names places comes to: those places, cleaned.
pub proof fn law_reply_becomes_places(raw: String, doc: JsonView, list: Vec<PlaceMatch>)
    requires
        json_of(raw@) == Ok::<JsonView, Seq<char>>(doc),
        places_from_reply(Ok(raw), Ok(list)),
    ensures
        places_in(doc) is Some,
        forall|i: int|
            0 <= i < places_in(doc)->0.len() && without_blanks(#[trigger] places_in(doc)->0[i])
                != anywhere() ==> exists|k: int|
                0 <= k < list@.len() && (#[trigger] list@[k])@ == without_blanks(
                    places_in(doc)->0[i],
                ),
        forall|k: int| 0 <= k < list@.len() ==> was_named(places_in(doc)->0, (#[trigger] list@[k])@),
{
    let named = places_in(doc)->0;
    law_no_named_place_is_lost(named);
    assert(place_views(list@) == kept_places(named));
    assert forall|i: int| 0 <= i < named.len() && without_blanks(#[trigger] named[i])
        != anywhere() implies exists|k: int|
        0 <= k < list@.len() && (#[trigger] list@[k])@ == without_blanks(named[i]) by {
        let m = without_blanks(named[i]);
        assert(kept_places(named).contains(m));
        let k = choose|k: int| 0 <= k < kept_places(named).len() && kept_places(named)[k] == m;
        assert(place_views(list@)[k] == list@[k]@);
        assert(list@[k]@ == m);
    }
    assert forall|k: int| 0 <= k < list@.len() implies was_named(named, (#[trigger] list@[k])@) by {
        assert(place_views(list@)[k] == list@[k]@);
        assert(was_named(named, kept_places(named)[k]));
    }
}

/// Every place of the vocabulary stands in the outline: its city on the line of its
/// division, below its state, below its country. A city without a division stands on the
/// line for such.
pub proof fn law_every_place_stands_in_the_outline(entries: Seq<CityVocabEntry>, i: int) -> (r: (
    Seq<char>,
    Seq<char>,
    Seq<Seq<char>>,
))
    requires
        0 <= i < entries.len(),
    ensures
        holds(outline(entries), r.0),
        (entries[i].country@ + "\n"@).is_prefix_of(r.0),
        holds(r.0, r.1),
        ("  "@ + entries[i].state@ + "\n"@).is_prefix_of(r.1),
        holds(
            r.1,
            "    "@ + (if entries[i].admin2 is Some {
                entries[i].admin2->0@
            } else {
                "(uncategorized)"@
            }) + ": "@ + join(r.2, ", "@) + "\n"@,
        ),
        r.2.contains(entries[i].city@),
        forall|k: int|
            0 <= k < r.2.len() ==> exists|j: int| #[trigger]
                in_division(entries, i, j) && entries[j].city@ == #[trigger] r.2[k],
{
    let e = entries[i];
    let (c, s, city) = (e.country@, e.state@, e.city@);
    let d = path_of(e)[2];
    let countries = children(entries, Seq::empty());
    let states = children(entries, seq![c]);
    let divisions = children(entries, seq![c, s]);
    let cities = children(entries, seq![c, s, d]);
    lemma_child(entries, Seq::empty(), i);
    lemma_child(entries, seq![c], i);
    lemma_child(entries, seq![c, s], i);
    lemma_child(entries, seq![c, s, d], i);
    let x = choose|k: int| 0 <= k < countries.len() && countries[k] == c;
    let y = choose|k: int| 0 <= k < states.len() && states[k] == s;
    let z = choose|k: int| 0 <= k < divisions.len() && divisions[k] == d;
    let blocks = countries.map_values(|c: Seq<char>| country_block(entries, c));
    lemma_holds_piece(blocks, x);
    let country = country_block(entries, c);
    assert(blocks[x] == country);
    let below = states.map_values(|s: Seq<char>| state_block(entries, c, s));
    lemma_holds_piece(below, y);
    let state = state_block(entries, c, s);
    assert(below[y] == state);
    lemma_holds_within(c + "\n"@, concat(below), Seq::empty(), state);
    let lines = divisions.map_values(|d: Seq<char>| division_line(entries, c, s, d));
    lemma_holds_piece(lines, z);
    let line = division_line(entries, c, s, d);
    assert(lines[z] == line);
    lemma_holds_within("  "@ + s + "\n"@, concat(lines), Seq::empty(), line);
    assert(country.take((c + "\n"@).len() as int) =~= c + "\n"@);
    assert(state.take(("  "@ + s + "\n"@).len() as int) =~= "  "@ + s + "\n"@);
    law_sorted_set(names_below(entries, seq![c, s, d]));
    lemma_names_below(entries, seq![c, s, d]);
    assert forall|k: int| 0 <= k < cities.len() implies exists|j: int| #[trigger]
        in_division(entries, i, j) && entries[j].city@ == #[trigger] cities[k] by {
        assert(cities.contains(cities[k]));
        assert(names_below(entries, seq![c, s, d]).contains(cities[k]));
        let longer = seq![c, s, d].push(cities[k]);
        assert(names_one(entries, seq![c, s, d], cities[k]));
        let j = choose|j: int|
            0 <= j < entries.len() && longer.is_prefix_of(path_of(#[trigger] entries[j]));
        let p = path_of(entries[j]);
        assert(longer[0] == p[0] && longer[1] == p[1] && longer[2] == p[2] && longer[3] == p[3]);
        assert(in_division(entries, i, j));
    }
    (country, state, cities)
}

/// Entries `i` and `j` lie in one division of one state of one country.
pub open spec fn in_division(entries: Seq<CityVocabEntry>, i: int, j: int) -> bool {
    &&& 0 <= j < entries.len()
    &&& entries[i].country@ == entries[j].country@
    &&& entries[i].state@ == entries[j].state@
    &&& path_of(entries[i])[2] == path_of(entries[j])[2]
}

proof fn lemma_child(entries: Seq<CityVocabEntry>, scope: Seq<Seq<char>>, i: int)
    requires
        0 <= i < entries.len(),
        scope.len() < 4,
        scope.is_prefix_of(path_of(entries[i])),
    ensures
        children(entries, scope).contains(path_of(entries[i])[scope.len() as int]),
{
    let name = path_of(entries[i])[scope.len() as int];
    law_sorted_set(names_below(entries, scope));
    lemma_names_below(entries, scope);
    let longer = scope.push(name);
    let p = path_of(entries[i]);
    assert(longer =~= p.take(longer.len() as int)) by {
        assert(scope =~= p.take(scope.len() as int));
    }
    assert(names_one(entries, scope, name));
    assert(names_below(entries, scope).contains(name));
}

/// A line of the table of divisions names a country, a state, a city and their division,
/// with tabs between them, and is read as such.
pub proof fn law_table_lines_are_read(
    country: Seq<char>,
    state: Seq<char>,
    city: Seq<char>,
    division: Seq<char>,
)
    requires
        country.len() > 0 && !country.contains('\t'),
        state.len() > 0 && !state.contains('\t'),
        city.len() > 0 && !city.contains('\t'),
        division.len() > 0,
    ensures
        row_of(country + "\t"@ + state + "\t"@ + city + "\t"@ + division) == Some(
            ((country, state, city), division),
        ),
{
    reveal_strlit("\t");
    let line = country + "\t"@ + state + "\t"@ + city + "\t"@ + division;
    lemma_at_tab(country, state + "\t"@ + city + "\t"@ + division);
    lemma_at_tab(state, city + "\t"@ + division);
    lemma_at_tab(city, division);
    assert(line =~= country + "\t"@ + (state + "\t"@ + city + "\t"@ + division));
    assert(state + "\t"@ + city + "\t"@ + division =~= state + "\t"@ + (city + "\t"@ + division));
}

proof fn lemma_at_tab(head: Seq<char>, rest: Seq<char>)
    requires
        !head.contains('\t'),
    ensures
        at_tab(head + "\t"@ + rest) == Some((head, rest)),
{
    reveal_strlit("\t");
    let line = head + "\t"@ + rest;
    let n = head.len() as int;
    assert forall|i: int| 0 <= i < n implies #[trigger] line[i] != '\t' by {
        assert(line[i] == head[i]);
        assert(head.contains(head[i]));
    }
    assert(line[n] == '\t');
    lemma_up_to_first(line, '\t', n);
    assert(line.take(n) =~= head);
    assert(line.skip(n + 1) =~= rest);
}

/// A line that is read as a row is the four names with tabs between them.
pub proof fn law_rows_are_their_lines(line: Seq<char>)
    ensures
        row_of(line) matches Some(row) ==> line == row.0.0 + "\t"@ + row.0.1 + "\t"@ + row.0.2
            + "\t"@ + row.1 && row.0.0.len() > 0 && row.0.1.len() > 0 && row.0.2.len() > 0
            && row.1.len() > 0,
{
    if let Some(row) = row_of(line) {
        reveal_strlit("\t");
        lemma_tab_splits(line);
        let (country, rest) = at_tab(line)->0;
        lemma_tab_splits(rest);
        let (state, more) = at_tab(rest)->0;
        lemma_tab_splits(more);
        assert(line =~= row.0.0 + "\t"@ + row.0.1 + "\t"@ + row.0.2 + "\t"@ + row.1);
    }
}

proof fn lemma_tab_splits(line: Seq<char>)
    ensures
        at_tab(line) matches Some(p) ==> line == p.0 + "\t"@ + p.1,
{
    reveal_strlit("\t");
    crate::text::law_split_at_the_first(line, '\t');
    if let Some(p) = at_tab(line) {
        assert(line =~= p.0 + "\t"@ + p.1);
    }
}

/// One more line adds its row to the table, or replaces the row of the same place; a line
/// that is no row changes nothing, and is told by its number unless it is empty.
pub proof fn law_table_grows_by_lines(lines: Seq<Seq<char>>, line: Seq<char>)
    requires
        lines.len() < usize::MAX,
    ensures
        match row_of(line) {
            Some(row) => table_of(lines.push(line)) == table_of(lines).insert(row.0, row.1)
                && bad_lines(lines.push(line)) == bad_lines(lines),
            None => table_of(lines.push(line)) == table_of(lines) && bad_lines(lines.push(line))
                == (if line.len() == 0 {
                bad_lines(lines)
            } else {
                bad_lines(lines).push((lines.len() + 1) as usize)
            }),
        },
        table_of(Seq::empty()) == Map::<PlaceKey, Seq<char>>::empty(),
{
    assert(lines.push(line).drop_last() =~= lines);
    if line.len() == 0 {
        crate::text::law_split_at_the_first(line, '\t');
    }
}

/// The lines of a text are its stretches between line feeds, without a carriage return at
/// their ends.
pub proof fn law_text_is_read_line_by_line(line: Seq<char>, rest: Seq<char>)
    requires
        !line.contains('\n'),
    ensures
        line.len() == 0 || line.last() != '\r' ==> lines_of(line + "\n"@ + rest) == seq![line]
            + lines_of(rest),
        lines_of(line + "\r\n"@ + rest) == seq![line] + lines_of(rest),
        line.len() > 0 ==> lines_of(line) == seq![line],
        lines_of(Seq::empty()).len() == 0,
{
    reveal_strlit("\n");
    reveal_strlit("\r\n");
    lemma_first_line(line, rest);
    lemma_first_line(line.push('\r'), rest);
    assert(line.push('\r') + "\n"@ + rest =~= line + "\r\n"@ + rest);
    assert(without_return(line.push('\r')) =~= line);
    crate::text::law_split_at_the_first(line, '\n');
    if line.len() > 0 {
        let head = up_to_first(line, '\n');
        if head.len() < line.len() {
            assert(line.contains(line[head.len() as int]));
        }
    }
}

proof fn lemma_first_line(line: Seq<char>, rest: Seq<char>)
    requires
        forall|i: int| 0 <= i < line.len() ==> #[trigger] line[i] != '\n',
    ensures
        lines_of(line + "\n"@ + rest) == seq![without_return(line)] + lines_of(rest),
{
    reveal_strlit("\n");
    let text = line + "\n"@ + rest;
    let n = line.len() as int;
    assert forall|i: int| 0 <= i < n implies #[trigger] text[i] != '\n' by {
        assert(text[i] == line[i]);
    }
    assert(text[n] == '\n');
    lemma_up_to_first(text, '\n', n);
    assert(text.take(n) =~= line);
    assert(text.skip(n + 1) =~= rest);
}

/// Where the table knows the division of a place, the entry gets it; nothing else about the
/// entries changes.
pub proof fn law_divisions_are_filled_in(
    before: Seq<CityVocabEntry>,
    lookup: Map<PlaceKey, Seq<char>>,
    after: Seq<CityVocabEntry>,
    i: int,
)
    requires
        enriched(before, lookup, after),
        0 <= i < before.len(),
    ensures
        after.len() == before.len(),
        after[i].country@ == before[i].country@,
        after[i].state@ == before[i].state@,
        after[i].city@ == before[i].city@,
        lookup.contains_key((before[i].country@, before[i].state@, before[i].city@))
            ==> after[i].admin2 is Some && after[i].admin2->0@ == lookup[(
            before[i].country@,
            before[i].state@,
            before[i].city@,
        )],
        !lookup.contains_key((before[i].country@, before[i].state@, before[i].city@)) ==> opt_text(
            after[i].admin2,
        ) == opt_text(before[i].admin2),
{
    assert(after[i].country == before[i].country);
}

/// The functions on places do what is said of them: cleaning keeps the places that are to be
/// kept, and the vocabulary is written as its outline.
pub proof fn law_places_are_cleaned_and_written(
    list: &Vec<PlaceMatch>,
    kept: Vec<PlaceMatch>,
    entries: &Vec<CityVocabEntry>,
    text: String,
    path: &Json,
    named: Option<Vec<PlaceMatch>>,
)
    requires
        call_ensures(clean_places, (list,), kept),
        call_ensures(format_vocabulary, (entries,), text),
        call_ensures(read_places, (path,), named),
    ensures
        place_views(kept@) == kept_places(place_views(list@)),
        text@ == outline(entries@),
        named matches Some(l) ==> places_in(path@) == Some(place_views(l@)),
        named is None ==> places_in(path@) is None,
{
}

/// The table of divisions is read from its lines, and the lines that are none are told.
pub proof fn law_table_is_read_from_its_lines(text: &str, r: (Admin2Lookup, Vec<usize>))
    requires
        call_ensures(read_admin2_table, (text,), r),
    ensures
        (r.0)@ == table_of(lines_of(text@)),
        (r.1)@ == bad_lines(lines_of(text@)),
{
}

} // verus!
