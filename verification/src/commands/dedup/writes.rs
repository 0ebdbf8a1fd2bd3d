//! The changes that `dedup` makes on the server, and what it logs of them.
use crate::client::{DedupWriteBackend, WriteView};
use crate::commands::dedup::plan::GpsCopy;
use crate::error::Error;
use crate::models::Stack;
use crate::text::texts;
use vstd::prelude::*;
use vstd::string::*;

verus! {

/// One change on the server.
#[derive(Debug)]
pub enum Write {
    SetLocation(GpsCopy),
    Delete(Vec<String>),
    Dismiss(String),
    /// The first asset becomes the cover.
    Stack(Vec<String>),
}

impl View for Write {
    type V = WriteView;

    open spec fn view(&self) -> WriteView {
        match self {
            Write::SetLocation(c) => WriteView::SetLocation(c@),
            Write::Delete(ids) => WriteView::Delete(texts(ids@)),
            Write::Dismiss(id) => WriteView::Dismiss(id@),
            Write::Stack(ids) => WriteView::Stack(texts(ids@)),
        }
    }
}

pub open spec fn write_views(writes: Seq<Write>) -> Seq<WriteView> {
    writes.map_values(|w: Write| w@)
}

/// Whether a stack was made is all that matters of the answer.
pub open spec fn only_success(r: Result<Stack, Error>) -> Result<(), Error> {
    match r {
        Ok(_) => Ok(()),
        Err(e) => Err(e),
    }
}

/// The backend answered `reply` when asked for the change.
pub open spec fn write_reply<W: DedupWriteBackend>(
    backend: &W,
    write: WriteView,
    reply: Result<(), Error>,
) -> bool {
    match write {
        WriteView::SetLocation(c) => exists|id: &str|
            id@ == c.0 && #[trigger] call_ensures(
                W::update_asset_location,
                (backend, id, &c.1, &c.2),
                reply,
            ),
        WriteView::Delete(ids) => exists|asked: &Vec<String>|
            texts(asked@) == ids && #[trigger] call_ensures(
                W::delete_assets,
                (backend, asked),
                reply,
            ),
        WriteView::Dismiss(id) => exists|asked: &str|
            asked@ == id && #[trigger] call_ensures(
                W::dismiss_duplicate_group,
                (backend, asked),
                reply,
            ),
        WriteView::Stack(ids) => exists|asked: &Vec<String>, made: Result<Stack, Error>|
            texts(asked@) == ids && reply == only_success(made) && #[trigger] call_ensures(
                W::create_stack,
                (backend, asked),
                made,
            ),
    }
}

/// The backend answered `replies` when asked for the changes, one by one.
pub open spec fn write_replies<W: DedupWriteBackend>(
    backend: &W,
    writes: Seq<WriteView>,
    replies: Seq<Result<(), Error>>,
) -> bool {
    &&& replies.len() == writes.len()
    &&& forall|i: int|
        0 <= i < writes.len() ==> write_reply(backend, #[trigger] writes[i], replies[i])
}

/// The changes may be asked for in their order: each once those before it are
/// answered.
pub open spec fn all_allowed<W: DedupWriteBackend>(backend: &W, writes: Seq<WriteView>) -> bool {
    forall|k: int, replies: Seq<Result<(), Error>>|
        0 <= k < writes.len() && #[trigger] write_replies(backend, writes.take(k), replies)
            ==> backend.allows(writes[k])
}

fn perform<W: DedupWriteBackend>(backend: &W, write: &Write) -> (r: Result<(), Error>)
    requires
        backend.allows(write@),
    ensures
        write_reply(backend, write@, r),
{
    match write {
        Write::SetLocation(c) => backend.update_asset_location(
            c.asset_id.as_str(),
            &c.latitude,
            &c.longitude,
        ),
        Write::Delete(ids) => backend.delete_assets(ids),
        Write::Dismiss(id) => backend.dismiss_duplicate_group(id.as_str()),
        Write::Stack(ids) => {
            let made = backend.create_stack(ids);
            let ghost answer = made;
            let r = match made {
                Ok(_) => Ok(()),
                Err(e) => Err(e),
            };
            assert(r == only_success(answer));
            r
        },
    }
}

/// Makes the changes one after the other. A failure does not stop the rest.
pub fn perform_all<W: DedupWriteBackend>(backend: &W, writes: &Vec<Write>) -> (r: Vec<
    Result<(), Error>,
>)
    requires
        all_allowed(backend, write_views(writes@)),
    ensures
        write_replies(backend, write_views(writes@), r@),
{
    let mut out: Vec<Result<(), Error>> = Vec::new();
    let mut i: usize = 0;
    while i < writes.len()
        invariant
            i <= writes.len(),
            all_allowed(backend, write_views(writes@)),
            write_replies(backend, write_views(writes@).take(i as int), out@),
        decreases writes.len() - i,
    {
        assert(write_views(writes@)[i as int] == writes@[i as int]@);
        let r = perform(backend, &writes[i]);
        let ghost before = out@;
        out.push(r);
        proof {
            let now = write_views(writes@).take(i + 1);
            assert forall|j: int| 0 <= j < now.len() implies write_reply(
                backend,
                #[trigger] now[j],
                out@[j],
            ) by {
                if j < i {
                    assert(now[j] == write_views(writes@).take(i as int)[j]);
                    assert(out@[j] == before[j]);
                }
            }
        }
        i += 1;
    }
    assert(write_views(writes@).take(i as int) =~= write_views(writes@));
    out
}

// ---- what holds of changes --------------------------------------------------

/// Each change is asked for by the method that makes it, with the ids and the coordinates
/// that it names.
pub proof fn law_changes_are_asked_for_as_they_are<W: DedupWriteBackend>(
    backend: &W,
    write: WriteView,
    reply: Result<(), Error>,
)
    requires
        write_reply(backend, write, reply),
    ensures
        write matches WriteView::SetLocation((id, lat, lng)) ==> exists|asked: &str|
            asked@ == id && #[trigger] call_ensures(
                W::update_asset_location,
                (backend, asked, &lat, &lng),
                reply,
            ),
        write matches WriteView::Delete(ids) ==> exists|asked: &Vec<String>|
            texts(asked@) == ids && #[trigger] call_ensures(
                W::delete_assets,
                (backend, asked),
                reply,
            ),
        write matches WriteView::Dismiss(id) ==> exists|asked: &str|
            asked@ == id && #[trigger] call_ensures(
                W::dismiss_duplicate_group,
                (backend, asked),
                reply,
            ),
        write matches WriteView::Stack(ids) ==> exists|asked: &Vec<String>, made: Result<Stack, Error>|
            texts(asked@) == ids && (reply is Ok <==> made is Ok) && (made matches Err(e) ==> reply
                == Err::<(), Error>(e)) && #[trigger] call_ensures(
                W::create_stack,
                (backend, asked),
                made,
            ),
{
    if let WriteView::Stack(ids) = write {
        let (asked, made) = choose|asked: &Vec<String>, made: Result<Stack, Error>|
            texts(asked@) == ids && reply == only_success(made) && #[trigger] call_ensures(
                W::create_stack,
                (backend, asked),
                made,
            );
        assert(call_ensures(W::create_stack, (backend, asked), made));
    }
}

/// Every change of a list is asked for, and each answer belongs to its change.
pub proof fn law_every_change_is_asked_for<W: DedupWriteBackend>(
    backend: &W,
    writes: Seq<WriteView>,
    replies: Seq<Result<(), Error>>,
    i: int,
)
    requires
        write_replies(backend, writes, replies),
        0 <= i < writes.len(),
    ensures
        replies.len() == writes.len(),
        write_reply(backend, writes[i], replies[i]),
{
}

/// A change is viewed with the ids and coordinates that it holds.
pub proof fn law_changes_are_viewed_as_they_are(write: Write)
    ensures
        write matches Write::SetLocation(c) ==> write@ == WriteView::SetLocation(
            (c.asset_id@, c.latitude, c.longitude),
        ),
        write matches Write::Delete(ids) ==> write@ == WriteView::Delete(
            ids@.map_values(|s: String| s@),
        ),
        write matches Write::Dismiss(id) ==> write@ == WriteView::Dismiss(id@),
        write matches Write::Stack(ids) ==> write@ == WriteView::Stack(
            ids@.map_values(|s: String| s@),
        ),
{
}

} // verus!
