//! Server paths and the local paths of the same files.
use crate::config::PathMapEntry;
use crate::text::{
    after_prefix, begins_with, ends_with, opt_slice, opt_text, rest_after, strip_leading,
    without_leading,
};
use vstd::prelude::*;
use vstd::string::*;

verus! {

// ---- joining paths ----------------------------------------------------------

/// `rest` below `base`: an absolute `rest` replaces `base`; otherwise the two
/// are joined by one slash, which is not doubled.
pub open spec fn join_path(base: Seq<char>, rest: Seq<char>) -> Seq<char> {
    if rest.len() > 0 && rest[0] == '/' {
        rest
    } else if base.len() == 0 || base.last() == '/' {
        base + rest
    } else {
        base + seq!['/'] + rest
    }
}

pub fn joined_path(base: &str, rest: &str) -> (r: String)
    ensures
        r@ == join_path(base@, rest@),
{
    if begins_with(rest, '/') {
        return rest.to_owned();
    }
    let mut out = base.to_owned();
    if !base.is_empty() && !ends_with(base, '/') {
        out.push('/');
    }
    out.append(rest);
    assert(base@.push('/') =~= base@ + seq!['/']);
    out
}

// ---- translation ------------------------------------------------------------

/// What follows `prefix` in `path`, where `prefix` ends at a component
/// boundary: at the end of the path or before a slash.
pub open spec fn rest_below(path: Seq<char>, prefix: Seq<char>) -> Option<Seq<char>> {
    match after_prefix(path, prefix) {
        Some(rest) => if rest.len() == 0 || rest[0] == '/' {
            Some(rest)
        } else {
            None
        },
        None => None,
    }
}

pub fn strip_path_prefix<'a>(path: &'a str, prefix: &str) -> (r: Option<&'a str>)
    ensures
        opt_slice(r) == rest_below(path@, prefix@),
{
    match rest_after(path, prefix) {
        Some(rest) => if rest.is_empty() || begins_with(rest, '/') {
            Some(rest)
        } else {
            None
        },
        None => None,
    }
}

/// The local path below an entry.
pub open spec fn local_below(entry: PathMapEntry, rest: Seq<char>) -> Seq<char> {
    if rest.len() == 0 {
        entry.local@
    } else {
        join_path(entry.local@, strip_leading(rest, '/'))
    }
}

/// The local path of a server path: the first entry whose server prefix covers
/// it decides.
pub open spec fn local_of(path: Seq<char>, mappings: Seq<PathMapEntry>) -> Option<Seq<char>>
    decreases mappings.len(),
{
    if mappings.len() == 0 {
        None
    } else {
        match rest_below(path, mappings[0].server@) {
            Some(rest) => Some(local_below(mappings[0], rest)),
            None => local_of(path, mappings.drop_first()),
        }
    }
}

/// Translates a server path to the local path of the same file. Where no entry
/// covers it there is none.
pub fn translate(server_path: &str, mappings: &Vec<PathMapEntry>) -> (r: Option<String>)
    ensures
        opt_text(r) == local_of(server_path@, mappings@),
{
    let mut i: usize = 0;
    assert(mappings@.skip(0) =~= mappings@);
    while i < mappings.len()
        invariant
            i <= mappings.len(),
            local_of(server_path@, mappings@) == local_of(
                server_path@,
                mappings@.skip(i as int),
            ),
        decreases mappings.len() - i,
    {
        let entry = &mappings[i];
        assert(mappings@.skip(i as int)[0] == *entry);
        assert(mappings@.skip(i as int).drop_first() =~= mappings@.skip(i + 1));
        if let Some(rest) = strip_path_prefix(server_path, entry.server.as_str()) {
            if rest.is_empty() {
                return Some(entry.local.clone());
            }
            return Some(joined_path(entry.local.as_str(), without_leading(rest, '/')));
        }
        i += 1;
    }
    None
}

/// The server path of a local path: the first entry whose local prefix covers
/// it decides.
pub open spec fn server_of(path: Seq<char>, mappings: Seq<PathMapEntry>) -> Option<Seq<char>>
    decreases mappings.len(),
{
    if mappings.len() == 0 {
        None
    } else {
        match rest_below(path, mappings[0].local@) {
            Some(rest) => Some(mappings[0].server@ + rest),
            None => server_of(path, mappings.drop_first()),
        }
    }
}

/// Translates a local path to the server path of the same file.
pub fn reverse_translate(local_path: &str, mappings: &Vec<PathMapEntry>) -> (r: Option<String>)
    ensures
        opt_text(r) == server_of(local_path@, mappings@),
{
    let mut i: usize = 0;
    assert(mappings@.skip(0) =~= mappings@);
    while i < mappings.len()
        invariant
            i <= mappings.len(),
            server_of(local_path@, mappings@) == server_of(
                local_path@,
                mappings@.skip(i as int),
            ),
        decreases mappings.len() - i,
    {
        let entry = &mappings[i];
        assert(mappings@.skip(i as int)[0] == *entry);
        assert(mappings@.skip(i as int).drop_first() =~= mappings@.skip(i + 1));
        if let Some(rest) = strip_path_prefix(local_path, entry.local.as_str()) {
            let mut server = entry.server.clone();
            server.append(rest);
            return Some(server);
        }
        i += 1;
    }
    None
}

// ---- what translation guarantees --------------------------------------------

/// A prefix covers a path exactly where the path is the prefix, or goes on
/// below it after a slash. `/a/b` covers `/a/b/c` and not `/a/bc`.
pub proof fn law_prefix_ends_at_a_component(path: Seq<char>, prefix: Seq<char>)
    ensures
        rest_below(path, prefix) is Some <==> (path == prefix || (prefix + seq!['/']).is_prefix_of(
            path,
        )),
{
    let slashed = prefix + seq!['/'];
    if path == prefix {
        assert(path.skip(prefix.len() as int).len() == 0);
        assert(prefix =~= path.subrange(0, prefix.len() as int));
    }
    if slashed.is_prefix_of(path) {
        assert(prefix =~= path.subrange(0, prefix.len() as int)) by {
            assert forall|i: int| 0 <= i < prefix.len() implies prefix[i] == path[i] by {
                assert(slashed[i] == path[i]);
            }
        }
        assert(path.skip(prefix.len() as int)[0] == slashed[prefix.len() as int]);
    }
    if rest_below(path, prefix) is Some {
        let rest = path.skip(prefix.len() as int);
        if rest.len() == 0 {
            assert(path =~= prefix);
        } else {
            assert(rest[0] == path[prefix.len() as int]);
            assert(slashed =~= path.subrange(0, slashed.len() as int));
        }
    }
}

/// `k` is the first entry whose server prefix covers the path.
pub open spec fn first_by_server(path: Seq<char>, mappings: Seq<PathMapEntry>, k: int) -> bool {
    &&& 0 <= k < mappings.len()
    &&& rest_below(path, mappings[k].server@) is Some
    &&& forall|j: int| 0 <= j < k ==> rest_below(path, #[trigger] mappings[j].server@) is None
}

/// `k` is the first entry whose local prefix covers the path.
pub open spec fn first_by_local(path: Seq<char>, mappings: Seq<PathMapEntry>, k: int) -> bool {
    &&& 0 <= k < mappings.len()
    &&& rest_below(path, mappings[k].local@) is Some
    &&& forall|j: int| 0 <= j < k ==> rest_below(path, #[trigger] mappings[j].local@) is None
}

/// Entries are tried in order, and the first that covers the path decides.
pub proof fn law_first_match_wins(path: Seq<char>, mappings: Seq<PathMapEntry>, k: int)
    ensures
        first_by_server(path, mappings, k) ==> local_of(path, mappings) == Some(
            local_below(mappings[k], rest_below(path, mappings[k].server@)->0),
        ),
        first_by_local(path, mappings, k) ==> server_of(path, mappings) == Some(
            mappings[k].server@ + rest_below(path, mappings[k].local@)->0,
        ),
    decreases mappings.len(),
{
    if mappings.len() > 0 && k > 0 {
        let tail = mappings.drop_first();
        if first_by_server(path, mappings, k) {
            assert(rest_below(path, mappings[0].server@) is None);
            assert forall|j: int| 0 <= j < k - 1 implies rest_below(
                path,
                #[trigger] tail[j].server@,
            ) is None by {
                assert(tail[j] == mappings[j + 1]);
            }
            assert(first_by_server(path, tail, k - 1));
        }
        if first_by_local(path, mappings, k) {
            assert(rest_below(path, mappings[0].local@) is None);
            assert forall|j: int| 0 <= j < k - 1 implies rest_below(
                path,
                #[trigger] tail[j].local@,
            ) is None by {
                assert(tail[j] == mappings[j + 1]);
            }
            assert(first_by_local(path, tail, k - 1));
        }
        law_first_match_wins(path, tail, k - 1);
    }
}

/// Where a path goes on below a prefix, it does so after a single slash, and the
/// local prefix is not empty and has no slash at its end.
pub open spec fn joins_cleanly(local: Seq<char>, rest: Seq<char>) -> bool {
    rest.len() > 0 ==> {
        &&& local.len() > 0
        &&& local.last() != '/'
        &&& rest.len() >= 2 ==> rest[1] != '/'
    }
}

/// Translating to the local path and back gives the server path again, where one
/// entry is the first to cover both and the path goes on cleanly below it.
pub proof fn law_reverse_undoes_translate(
    path: Seq<char>,
    mappings: Seq<PathMapEntry>,
    k: int,
)
    requires
        first_by_server(path, mappings, k),
        joins_cleanly(mappings[k].local@, rest_below(path, mappings[k].server@)->0),
        forall|j: int|
            0 <= j < k ==> rest_below(
                local_of(path, mappings)->0,
                #[trigger] mappings[j].local@,
            ) is None,
    ensures
        local_of(path, mappings) is Some,
        server_of(local_of(path, mappings)->0, mappings) == Some(path),
{
    let entry = mappings[k];
    let rest = rest_below(path, entry.server@)->0;
    law_first_match_wins(path, mappings, k);
    let local = local_of(path, mappings)->0;
    assert(path =~= entry.server@ + rest);
    if rest.len() == 0 {
        assert(local.skip(entry.local@.len() as int) =~= rest);
        assert(entry.local@ =~= local.subrange(0, entry.local@.len() as int));
    } else {
        let tail = rest.drop_first();
        reveal_with_fuel(strip_leading, 2);
        assert(strip_leading(rest, '/') == tail);
        assert(local =~= entry.local@ + seq!['/'] + tail);
        assert(entry.local@ =~= local.subrange(0, entry.local@.len() as int));
        assert(local.skip(entry.local@.len() as int) =~= rest);
    }
    assert(rest_below(local, entry.local@) == Some(rest));
    law_first_match_wins(local, mappings, k);
}

/// Translating to the server path and back gives the local path again, under
/// the same conditions the other way round.
pub proof fn law_translate_undoes_reverse(
    path: Seq<char>,
    mappings: Seq<PathMapEntry>,
    k: int,
)
    requires
        first_by_local(path, mappings, k),
        joins_cleanly(mappings[k].local@, rest_below(path, mappings[k].local@)->0),
        forall|j: int|
            0 <= j < k ==> rest_below(
                server_of(path, mappings)->0,
                #[trigger] mappings[j].server@,
            ) is None,
    ensures
        server_of(path, mappings) is Some,
        local_of(server_of(path, mappings)->0, mappings) == Some(path),
{
    let entry = mappings[k];
    let rest = rest_below(path, entry.local@)->0;
    law_first_match_wins(path, mappings, k);
    let server = server_of(path, mappings)->0;
    assert(path =~= entry.local@ + rest);
    assert(server =~= entry.server@ + rest);
    assert(entry.server@ =~= server.subrange(0, entry.server@.len() as int));
    assert(server.skip(entry.server@.len() as int) =~= rest);
    assert(rest_below(server, entry.server@) == Some(rest));
    law_first_match_wins(server, mappings, k);
    if rest.len() > 0 {
        let tail = rest.drop_first();
        reveal_with_fuel(strip_leading, 2);
        assert(strip_leading(rest, '/') == tail);
        assert(join_path(entry.local@, tail) =~= entry.local@ + seq!['/'] + tail);
        assert(entry.local@ + seq!['/'] + tail =~= path);
    }
}

/// A file below a mapped directory lies below the local directory of the same entry, at the
/// same relative path, and the other way round.
pub proof fn law_files_keep_their_relative_path(
    mappings: Seq<PathMapEntry>,
    k: int,
    rel: Seq<char>,
)
    requires
        0 <= k < mappings.len(),
        rel.len() > 0,
        rel[0] != '/',
        mappings[k].local@.len() > 0,
        mappings[k].local@.last() != '/',
    ensures
        (forall|j: int|
            0 <= j < k ==> !is_below(
                mappings[k].server@ + "/"@ + rel,
                (#[trigger] mappings[j]).server@,
            )) ==> local_of(mappings[k].server@ + "/"@ + rel, mappings) == Some(
            mappings[k].local@ + "/"@ + rel,
        ),
        (forall|j: int|
            0 <= j < k ==> !is_below(
                mappings[k].local@ + "/"@ + rel,
                (#[trigger] mappings[j]).local@,
            )) ==> server_of(mappings[k].local@ + "/"@ + rel, mappings) == Some(
            mappings[k].server@ + "/"@ + rel,
        ),
{
    reveal_strlit("/");
    let entry = mappings[k];
    let rest = "/"@ + rel;
    assert(rest.drop_first() =~= rel);
    assert(strip_leading(rest, '/') == strip_leading(rel, '/'));
    let server = entry.server@ + "/"@ + rel;
    let local = entry.local@ + "/"@ + rel;
    lemma_rest_below(server, entry.server@, rel);
    lemma_rest_below(local, entry.local@, rel);
    if forall|j: int| 0 <= j < k ==> !is_below(server, (#[trigger] mappings[j]).server@) {
        assert forall|j: int| 0 <= j < k implies rest_below(
            server,
            #[trigger] mappings[j].server@,
        ) is None by {
            assert(!is_below(server, mappings[j].server@));
            law_prefix_ends_at_a_component(server, mappings[j].server@);
        }
        law_first_match_wins(server, mappings, k);
        assert(entry.local@ + seq!['/'] + rel =~= local);
    }
    if forall|j: int| 0 <= j < k ==> !is_below(local, (#[trigger] mappings[j]).local@) {
        assert forall|j: int| 0 <= j < k implies rest_below(
            local,
            #[trigger] mappings[j].local@,
        ) is None by {
            assert(!is_below(local, mappings[j].local@));
            law_prefix_ends_at_a_component(local, mappings[j].local@);
        }
        law_first_match_wins(local, mappings, k);
        assert(entry.server@ + rest =~= server);
    }
}

/// `path` is the directory, or lies below it.
pub open spec fn is_below(path: Seq<char>, dir: Seq<char>) -> bool {
    path == dir || (dir + seq!['/']).is_prefix_of(path)
}

proof fn lemma_rest_below(path: Seq<char>, dir: Seq<char>, rel: Seq<char>)
    requires
        path == dir + "/"@ + rel,
    ensures
        rest_below(path, dir) == Some("/"@ + rel),
{
    reveal_strlit("/");
    assert(dir =~= path.subrange(0, dir.len() as int));
    assert(path.skip(dir.len() as int) =~= "/"@ + rel);
}

/// A path that lies below no mapped directory has no counterpart.
pub proof fn law_unmapped_paths_have_none(path: Seq<char>, mappings: Seq<PathMapEntry>)
    ensures
        (forall|j: int| 0 <= j < mappings.len() ==> !is_below(path, (#[trigger] mappings[j]).server@))
            <==> local_of(path, mappings) is None,
        (forall|j: int| 0 <= j < mappings.len() ==> !is_below(path, (#[trigger] mappings[j]).local@))
            <==> server_of(path, mappings) is None,
    decreases mappings.len(),
{
    if mappings.len() > 0 {
        let tail = mappings.drop_first();
        law_unmapped_paths_have_none(path, tail);
        law_prefix_ends_at_a_component(path, mappings[0].server@);
        law_prefix_ends_at_a_component(path, mappings[0].local@);
        assert forall|j: int| 1 <= j < mappings.len() implies #[trigger] mappings[j] == tail[
            j - 1] by {}
        if local_of(path, mappings) is None {
            assert forall|j: int| 0 <= j < mappings.len() implies !is_below(
                path,
                (#[trigger] mappings[j]).server@,
            ) by {
                if j > 0 {
                    assert(!is_below(path, tail[j - 1].server@));
                }
            }
        } else if rest_below(path, mappings[0].server@) is None {
            let j = choose|j: int| 0 <= j < tail.len() && is_below(path, (#[trigger] tail[j]).server@);
            assert(mappings[j + 1] == tail[j]);
        }
        if server_of(path, mappings) is None {
            assert forall|j: int| 0 <= j < mappings.len() implies !is_below(
                path,
                (#[trigger] mappings[j]).local@,
            ) by {
                if j > 0 {
                    assert(!is_below(path, tail[j - 1].local@));
                }
            }
        } else if rest_below(path, mappings[0].local@) is None {
            let j = choose|j: int| 0 <= j < tail.len() && is_below(path, (#[trigger] tail[j]).local@);
            assert(mappings[j + 1] == tail[j]);
        }
    }
}

/// Translating a path gives its counterpart under the mappings, in either direction.
pub proof fn law_translation_is_by_the_mappings(
    path: &str,
    mappings: &Vec<PathMapEntry>,
    local: Option<String>,
    server: Option<String>,
)
    requires
        call_ensures(translate, (path, mappings), local),
        call_ensures(reverse_translate, (path, mappings), server),
    ensures
        opt_text(local) == local_of(path@, mappings@),
        opt_text(server) == server_of(path@, mappings@),
{
}

} // verus!
