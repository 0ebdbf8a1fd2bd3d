//! Hiding the members of a stack behind its cover.
use crate::client::{SearchBackend, StacksBackend};
use crate::commands::search::args::SearchArgs;
use crate::error::Error;
use crate::ids::IdSet;
use crate::models::{Asset, RequestView, SearchRequest, SearchResponse, Stack};
use crate::text::{opt_text, same};
use vstd::prelude::*;
use vstd::string::*;

verus! {

/// `id` is a member of the stack and not its cover.
pub open spec fn behind_cover(stack: Stack, id: Seq<char>) -> bool {
    id != stack.primary_asset_id@ && exists|m: int|
        0 <= m < stack.assets@.len() && (#[trigger] stack.assets@[m]).id@ == id
}

/// `id` is behind the cover of one of the stacks.
pub open spec fn is_hidden(stacks: Seq<Stack>, id: Seq<char>) -> bool {
    exists|s: int| 0 <= s < stacks.len() && #[trigger] behind_cover(stacks[s], id)
}

/// The ids of the members of the stacks that are not covers.
pub fn hidden_stacked_ids(stacks: &Vec<Stack>) -> (r: IdSet)
    ensures
        forall|id: Seq<char>| #[trigger] r@.contains(id) == is_hidden(stacks@, id),
{
    let mut out = IdSet::new();
    let mut s: usize = 0;
    while s < stacks.len()
        invariant
            s <= stacks.len(),
            forall|id: Seq<char>| #[trigger]
                out@.contains(id) == is_hidden(stacks@.take(s as int), id),
        decreases stacks.len() - s,
    {
        let ghost before = out@;
        let stack = &stacks[s];
        let mut m: usize = 0;
        while m < stack.assets.len()
            invariant
                m <= stack.assets.len(),
                forall|id: Seq<char>| #[trigger]
                    out@.contains(id) == (before.contains(id) || (id != stack.primary_asset_id@
                        && exists|k: int| 0 <= k < m && (#[trigger] stack.assets@[k]).id@ == id)),
            decreases stack.assets.len() - m,
        {
            let ghost prior = out@;
            let id = &stack.assets[m].id;
            if !same(id.as_str(), stack.primary_asset_id.as_str()) {
                out.insert(id.as_str());
            }
            assert forall|x: Seq<char>| #[trigger] out@.contains(x) == (before.contains(x) || (x
                != stack.primary_asset_id@ && exists|k: int|
                0 <= k < m + 1 && (#[trigger] stack.assets@[k]).id@ == x)) by {
                assert(prior.contains(x) == prior.contains(x));
                if x == id@ && x != stack.primary_asset_id@ {
                    assert(stack.assets@[m as int].id@ == x);
                }
            }
            m += 1;
        }
        proof {
            let now = stacks@.take(s + 1);
            let past = stacks@.take(s as int);
            assert forall|id: Seq<char>| #[trigger] out@.contains(id) == is_hidden(now, id) by {
                if out@.contains(id) {
                    if before.contains(id) {
                        let k = choose|k: int|
                            0 <= k < past.len() && #[trigger] behind_cover(past[k], id);
                        assert(behind_cover(now[k], id));
                    } else {
                        assert(behind_cover(now[s as int], id));
                    }
                }
                if is_hidden(now, id) {
                    let k = choose|k: int|
                        0 <= k < now.len() && #[trigger] behind_cover(now[k], id);
                    if k < s {
                        assert(behind_cover(past[k], id));
                        assert(is_hidden(past, id));
                    }
                }
            }
        }
        s += 1;
    }
    assert(stacks@.take(s as int) =~= stacks@);
    out
}

/// The cover of a stack stays visible, unless it is behind the cover of
/// another stack.
pub proof fn law_covers_stay_visible(stacks: Seq<Stack>, s: int)
    requires
        0 <= s < stacks.len(),
        forall|t: int|
            0 <= t < stacks.len() && t != s ==> !behind_cover(
                #[trigger] stacks[t],
                stacks[s].primary_asset_id@,
            ),
    ensures
        !is_hidden(stacks, stacks[s].primary_asset_id@),
{
}

/// The assets that are not hidden, in their order.
pub open spec fn visible(items: Seq<Asset>, hidden: Set<Seq<char>>) -> Seq<Asset>
    decreases items.len(),
{
    if items.len() == 0 {
        Seq::empty()
    } else {
        let before = visible(items.drop_last(), hidden);
        if hidden.contains(items.last().id@) {
            before
        } else {
            before.push(items.last())
        }
    }
}

/// No hidden asset is visible, and every other one is.
pub proof fn law_hidden_assets_are_dropped(items: Seq<Asset>, hidden: Set<Seq<char>>)
    ensures
        forall|a: Asset| #[trigger]
            visible(items, hidden).contains(a) == (items.contains(a) && !hidden.contains(a.id@)),
    decreases items.len(),
{
    if items.len() > 0 {
        let past = items.drop_last();
        let before = visible(past, hidden);
        let now = visible(items, hidden);
        law_hidden_assets_are_dropped(past, hidden);
        assert forall|a: Asset| #[trigger] now.contains(a) == (items.contains(a)
            && !hidden.contains(a.id@)) by {
            if now.contains(a) {
                let k = choose|k: int| 0 <= k < now.len() && now[k] == a;
                if k < before.len() {
                    assert(before[k] == a);
                    assert(before.contains(a));
                    let i = choose|i: int| 0 <= i < past.len() && past[i] == a;
                    assert(items[i] == a);
                } else {
                    assert(items[items.len() - 1] == a);
                }
            }
            if items.contains(a) && !hidden.contains(a.id@) {
                let i = choose|i: int| 0 <= i < items.len() && items[i] == a;
                if i < past.len() {
                    assert(past[i] == a);
                    assert(past.contains(a));
                    assert(before.contains(a));
                    let k = choose|k: int| 0 <= k < before.len() && before[k] == a;
                    assert(now[k] == a);
                } else {
                    assert(now[now.len() - 1] == a);
                }
            }
        }
    }
}

/// An answer without the hidden assets.
pub open spec fn without_hidden(
    inner: Result<SearchResponse, Error>,
    hidden: Set<Seq<char>>,
    r: Result<SearchResponse, Error>,
) -> bool {
    match inner {
        Err(e) => r == Err::<SearchResponse, Error>(e),
        Ok(page) => {
            &&& r is Ok
            &&& r->Ok_0.assets.items@ == visible(page.assets.items@, hidden)
            &&& r->Ok_0.assets.next_page == page.assets.next_page
            &&& r->Ok_0.assets.total == page.assets.total
            &&& r->Ok_0.assets.count == page.assets.count
        },
    }
}

/// A search that hides the members of stacks behind their covers. All searches
/// go through it, so that none of them shows a hidden asset.
pub struct StackFilteredBackend<'a, S> {
    pub inner: &'a S,
    pub hidden: IdSet,
}

impl<'a, S: SearchBackend> StackFilteredBackend<'a, S> {
    pub fn new(inner: &'a S, hidden: IdSet) -> (r: StackFilteredBackend<'a, S>)
        ensures
            r.inner == inner,
            r.hidden == hidden,
    {
        StackFilteredBackend { inner, hidden }
    }
}

impl<'a, S: SearchBackend> SearchBackend for StackFilteredBackend<'a, S> {
    open spec fn may_search(&self, req: RequestView) -> bool {
        self.inner.may_search(req)
    }

    fn search(&self, req: &SearchRequest) -> (r: Result<SearchResponse, Error>)
        ensures
            exists|inner: Result<SearchResponse, Error>| #[trigger]
                call_ensures(S::search, (self.inner, req), inner) && without_hidden(
                    inner,
                    self.hidden@,
                    r,
                ),
    {
        let reply = self.inner.search(req);
        assert(call_ensures(S::search, (self.inner, req), reply));
        match reply {
            Err(e) => Err(e),
            Ok(page) => {
                let items = &page.assets.items;
                let mut kept: Vec<Asset> = Vec::new();
                let mut i: usize = 0;
                while i < items.len()
                    invariant
                        i <= items.len(),
                        kept@ == visible(items@.take(i as int), self.hidden@),
                    decreases items.len() - i,
                {
                    assert(items@.take(i + 1).drop_last() =~= items@.take(i as int));
                    if !self.hidden.contains(items[i].id.as_str()) {
                        kept.push(items[i].clone());
                    }
                    i += 1;
                }
                assert(items@.take(i as int) =~= items@);
                let ghost before = page;
                let mut page = page;
                page.assets.items = kept;
                let r = Ok(page);
                assert(without_hidden(Ok(before), self.hidden@, r));
                r
            },
        }
    }
}

/// The backend answered `reply` when asked for the stacks.
pub open spec fn stacks_reply<B: StacksBackend>(
    backend: &B,
    reply: Result<Vec<Stack>, Error>,
) -> bool {
    call_ensures(B::stacks, (backend,), reply)
}

/// What is hidden, given what the server says of its stacks: without an answer
/// nothing is hidden, and the user is warned.
pub open spec fn hidden_from_reply(
    reply: Result<Vec<Stack>, Error>,
    hidden: Set<Seq<char>>,
    warning: Option<Seq<char>>,
) -> bool {
    match reply {
        Ok(stacks) => warning is None && forall|id: Seq<char>| #[trigger]
            hidden.contains(id) == is_hidden(stacks@, id),
        Err(e) => hidden == Set::<Seq<char>>::empty() && warning == Some(
            "warn: could not fetch /api/stacks ("@ + e.full_text()
                + "); results may include stacked duplicates"@,
        ),
    }
}

/// The assets to hide, and a warning where the stacks could not be fetched. The
/// server is not asked where nothing is to be hidden.
pub fn hidden_for<B: StacksBackend>(backend: &B, args: &SearchArgs) -> (r: (
    IdSet,
    Option<String>,
))
    requires
        !args.include_stacked ==> backend.may_list_stacks(),
    ensures
        if args.include_stacked {
            r.0@ == Set::<Seq<char>>::empty() && r.1 is None
        } else {
            exists|reply: Result<Vec<Stack>, Error>| #[trigger]
                stacks_reply(backend, reply) && hidden_from_reply(reply, r.0@, opt_text(r.1))
        },
{
    if args.include_stacked {
        return (IdSet::new(), None);
    }
    let reply = backend.stacks();
    assert(stacks_reply(backend, reply));
    match reply {
        Ok(stacks) => (hidden_stacked_ids(&stacks), None),
        Err(e) => {
            let mut warning = "warn: could not fetch /api/stacks (".to_owned();
            warning.append(e.full_message().as_str());
            warning.append("); results may include stacked duplicates");
            (IdSet::new(), Some(warning))
        },
    }
}

} // verus!
