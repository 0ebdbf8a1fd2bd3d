//! Search keywords that a language model draws from a query.
use crate::error::Error;
use crate::ids::IdSet;
use crate::json::{json_fault, json_of, read_json, record_texts};
use crate::llm::{chat, chat_reply, dialogue, message_views, ChatBackend, Message};
use crate::text::{
    blank, is_blank, lemma_trim_empty, lemma_trim_twice, opt_text, texts, trim, trimmed,
};
use vstd::prelude::*;
use vstd::string::*;

verus! {

// ---- lists of texts ---------------------------------------------------------

/// The first `n` items, or all where there are fewer.
pub open spec fn first<T>(list: Seq<T>, n: nat) -> Seq<T> {
    if n < list.len() {
        list.take(n as int)
    } else {
        list
    }
}

/// The texts without repetitions; each stays where it comes first.
pub open spec fn distinct(list: Seq<Seq<char>>) -> Seq<Seq<char>>
    decreases list.len(),
{
    if list.len() == 0 {
        Seq::empty()
    } else {
        let before = distinct(list.drop_last());
        if before.contains(list.last()) {
            before
        } else {
            before.push(list.last())
        }
    }
}

/// The texts that are not blank, trimmed.
pub open spec fn trimmed_texts(list: Seq<Seq<char>>) -> Seq<Seq<char>>
    decreases list.len(),
{
    if list.len() == 0 {
        Seq::empty()
    } else {
        let before = trimmed_texts(list.drop_last());
        if is_blank(list.last()) {
            before
        } else {
            before.push(trim(list.last()))
        }
    }
}

/// The distinct texts are the texts of the list, none of them twice.
pub proof fn law_distinct(list: Seq<Seq<char>>)
    ensures
        distinct(list).no_duplicates(),
        distinct(list).len() <= list.len(),
        forall|x: Seq<char>| #[trigger] distinct(list).contains(x) == list.contains(x),
    decreases list.len(),
{
    if list.len() > 0 {
        let past = list.drop_last();
        let before = distinct(past);
        let last = list.last();
        law_distinct(past);
        assert forall|x: Seq<char>| #[trigger] distinct(list).contains(x) == list.contains(x) by {
            if list.contains(x) {
                let i = choose|i: int| 0 <= i < list.len() && list[i] == x;
                if i < past.len() {
                    assert(past[i] == x);
                    assert(before.contains(x));
                    let k = choose|k: int| 0 <= k < before.len() && before[k] == x;
                    assert(distinct(list)[k] == x);
                } else if !before.contains(last) {
                    assert(distinct(list)[before.len() as int] == x);
                }
            }
            if distinct(list).contains(x) {
                let k = choose|k: int| 0 <= k < distinct(list).len() && distinct(list)[k] == x;
                if k < before.len() {
                    assert(before[k] == x);
                    assert(before.contains(x));
                    assert(past.contains(x));
                    let i = choose|i: int| 0 <= i < past.len() && past[i] == x;
                    assert(list[i] == x);
                } else {
                    assert(list[list.len() - 1] == x);
                }
            }
        }
        if !before.contains(last) {
            let now = distinct(list);
            assert forall|i: int, j: int|
                0 <= i < now.len() && 0 <= j < now.len() && i != j implies now[i] != now[j] by {
                if i < before.len() {
                    assert(before.contains(before[i]));
                }
                if j < before.len() {
                    assert(before.contains(before[j]));
                }
            }
        }
    }
}

/// Drops repetitions and keeps the order.
pub fn dedup_preserving_order(items: &Vec<String>) -> (r: Vec<String>)
    ensures
        texts(r@) == distinct(texts(items@)),
{
    let ghost all = texts(items@);
    let mut seen = IdSet::new();
    let mut out: Vec<String> = Vec::new();
    let mut i: usize = 0;
    assert(texts(out@) =~= distinct(all.take(0)));
    while i < items.len()
        invariant
            i <= items.len(),
            all == texts(items@),
            texts(out@) == distinct(all.take(i as int)),
            forall|x: Seq<char>| #[trigger] seen@.contains(x) == texts(out@).contains(x),
        decreases items.len() - i,
    {
        assert(all.take(i + 1).drop_last() =~= all.take(i as int));
        assert(all.take(i + 1).last() == items@[i as int]@);
        let ghost before = texts(out@);
        let ghost was = seen@;
        assert(was.contains(items@[i as int]@) == before.contains(items@[i as int]@));
        if seen.insert(items[i].as_str()) {
            let ghost added = items@[i as int]@;
            out.push(items[i].clone());
            assert(texts(out@) =~= before.push(added));
            assert forall|x: Seq<char>| #[trigger] seen@.contains(x) == texts(out@).contains(x) by {
                assert(was.contains(x) == before.contains(x));
                if before.contains(x) {
                    let k = choose|k: int| 0 <= k < before.len() && before[k] == x;
                    assert(texts(out@)[k] == x);
                }
                assert(texts(out@)[before.len() as int] == added);
            }
        } else {
            assert(was.insert(items@[i as int]@) =~= was);
        }
        i += 1;
    }
    assert(all.take(i as int) =~= all);
    out
}

// ---- keywords ---------------------------------------------------------------

/// The keywords that are used of those that the model named: trimmed, not
/// blank, at most `cap` of them, and each once.
pub open spec fn usable_keywords(named: Seq<Seq<char>>, cap: nat) -> Seq<Seq<char>> {
    distinct(first(trimmed_texts(named), cap))
}

/// Takes the usable keywords out of those that the model named.
pub fn clean_keywords(named: &Vec<String>, cap: usize) -> (r: Vec<String>)
    ensures
        texts(r@) == usable_keywords(texts(named@), cap as nat),
{
    let ghost all = texts(named@);
    let mut kept: Vec<String> = Vec::new();
    let mut i: usize = 0;
    assert(texts(kept@) =~= trimmed_texts(all.take(0)));
    while i < named.len()
        invariant
            i <= named.len(),
            all == texts(named@),
            texts(kept@) == trimmed_texts(all.take(i as int)),
        decreases named.len() - i,
    {
        assert(all.take(i + 1).drop_last() =~= all.take(i as int));
        assert(all.take(i + 1).last() == named@[i as int]@);
        if !blank(named[i].as_str()) {
            let ghost before = texts(kept@);
            let word = trimmed(named[i].as_str()).to_owned();
            let ghost added = word@;
            kept.push(word);
            assert(texts(kept@) =~= before.push(added));
        }
        i += 1;
    }
    assert(all.take(i as int) =~= all);
    let ghost whole = kept@;
    if kept.len() > cap {
        kept.truncate(cap);
        assert(texts(kept@) =~= texts(whole).take(cap as int));
    }
    dedup_preserving_order(&kept)
}

/// What an answer of the model comes to.
pub open spec fn keywords_from_reply(
    reply: Result<String, Error>,
    cap: nat,
    r: Result<Vec<String>, Error>,
) -> bool {
    match reply {
        Err(e) => r == Err::<Vec<String>, Error>(e),
        Ok(raw) => {
            let named = match json_of(raw@) {
                Ok(doc) => record_texts(doc, "keywords"@),
                Err(_) => None,
            };
            match named {
                None => r is Err && (r->Err_0 matches Error::KeywordReplyNotJson { reply: t, cause }
                    && t@ == raw@ && opt_text(cause) == json_fault(raw@)),
                Some(list) => r is Ok && texts(r->Ok_0@) == usable_keywords(list, cap),
            }
        },
    }
}

/// What asking for keywords comes to.
pub open spec fn expanded<L: ChatBackend>(
    llm: &L,
    prompt: Seq<char>,
    query: Seq<char>,
    cap: nat,
    r: Result<Vec<String>, Error>,
) -> bool {
    exists|reply: Result<String, Error>| #[trigger]
        chat_reply(llm, prompt, query, reply) && keywords_from_reply(reply, cap, r)
}

/// Asks for keywords and takes at most `cap` of them.
pub fn expand_with<L: ChatBackend>(llm: &L, prompt: &str, query: &str, cap: usize) -> (r: Result<
    Vec<String>,
    Error,
>)
    requires
        llm.may_chat(dialogue(prompt@, query@)),
    ensures
        expanded(llm, prompt@, query@, cap as nat, r),
{
    let reply = chat(llm, prompt, query);
    assert(chat_reply(llm, prompt@, query@, reply));
    match reply {
        Err(e) => Err(e),
        Ok(raw) => {
            let (named, cause) = match read_json(raw.as_str()) {
                Ok(doc) => (doc.texts_in("keywords"), None),
                Err(cause) => (None, Some(cause)),
            };
            match named {
                None => Err(Error::KeywordReplyNotJson { reply: raw, cause }),
                Some(list) => Ok(clean_keywords(&list, cap)),
            }
        },
    }
}

/// The usable keywords are at most as many as the cap allows, none occurs
/// twice, and none is blank or has white space at its ends.
pub proof fn law_usable_keywords(named: Seq<Seq<char>>, cap: nat)
    ensures
        usable_keywords(named, cap).len() <= cap,
        usable_keywords(named, cap).no_duplicates(),
        forall|i: int|
            0 <= i < usable_keywords(named, cap).len() ==> {
                let word = #[trigger] usable_keywords(named, cap)[i];
                !is_blank(word) && trim(word) == word
            },
{
    let kept = first(trimmed_texts(named), cap);
    law_distinct(kept);
    lemma_trimmed_texts(named);
    assert forall|i: int| 0 <= i < usable_keywords(named, cap).len() implies ({
        let word = #[trigger] usable_keywords(named, cap)[i];
        !is_blank(word) && trim(word) == word
    }) by {
        let word = usable_keywords(named, cap)[i];
        assert(distinct(kept).contains(word));
        let k = choose|k: int| 0 <= k < kept.len() && kept[k] == word;
        assert(trimmed_texts(named)[k] == word);
    }
}

proof fn lemma_trimmed_texts(list: Seq<Seq<char>>)
    ensures
        forall|i: int|
            0 <= i < trimmed_texts(list).len() ==> {
                let word = #[trigger] trimmed_texts(list)[i];
                !is_blank(word) && trim(word) == word
            },
    decreases list.len(),
{
    if list.len() > 0 {
        let before = trimmed_texts(list.drop_last());
        lemma_trimmed_texts(list.drop_last());
        lemma_trim_empty(list.last());
        lemma_trim_twice(list.last());
        lemma_trim_empty(trim(list.last()));
        assert forall|i: int| 0 <= i < trimmed_texts(list).len() implies ({
            let word = #[trigger] trimmed_texts(list)[i];
            !is_blank(word) && trim(word) == word
        }) by {
            if i < before.len() {
                assert(trimmed_texts(list)[i] == before[i]);
            }
        }
    }
}

/// An answer whose keywords are distinct, trimmed and not blank, and no more than the cap, is
/// used as it is.
pub proof fn law_good_keywords_are_all_used(named: Seq<Seq<char>>, cap: nat)
    requires
        named.len() <= cap,
        named.no_duplicates(),
        forall|i: int|
            0 <= i < named.len() ==> !is_blank(#[trigger] named[i]) && trim(named[i]) == named[i],
    ensures
        usable_keywords(named, cap) == named,
{
    lemma_good_keywords(named);
}

proof fn lemma_good_keywords(named: Seq<Seq<char>>)
    requires
        named.no_duplicates(),
        forall|i: int|
            0 <= i < named.len() ==> !is_blank(#[trigger] named[i]) && trim(named[i]) == named[i],
    ensures
        trimmed_texts(named) == named,
        distinct(named) == named,
    decreases named.len(),
{
    if named.len() > 0 {
        let past = named.drop_last();
        assert forall|i: int| 0 <= i < past.len() implies !is_blank(#[trigger] past[i]) && trim(
            past[i],
        ) == past[i] by {
            assert(past[i] == named[i]);
        }
        assert(past.no_duplicates()) by {
            assert forall|i: int, j: int|
                0 <= i < past.len() && 0 <= j < past.len() && i != j implies past[i] != past[j] by {
                assert(named[i] != named[j]);
            }
        }
        lemma_good_keywords(past);
        assert(named =~= past.push(named.last()));
        assert(!is_blank(named[named.len() - 1]));
        if past.contains(named.last()) {
            let k = choose|k: int| 0 <= k < past.len() && past[k] == named.last();
            assert(named[k] == named[named.len() - 1]);
        }
    } else {
        assert(trimmed_texts(named) =~= named);
        assert(distinct(named) =~= named);
    }
}

/// One more keyword is taken without the white space around it, behind the others; a blank
/// one is not, and neither is one that is there already.
pub proof fn law_keywords_one_by_one(list: Seq<Seq<char>>, word: Seq<char>)
    ensures
        trim(word).len() > 0 ==> trimmed_texts(list.push(word)) == trimmed_texts(list).push(
            trim(word),
        ),
        trim(word).len() == 0 ==> trimmed_texts(list.push(word)) == trimmed_texts(list),
        list.contains(word) ==> distinct(list.push(word)) == distinct(list),
        !list.contains(word) ==> distinct(list.push(word)) == distinct(list).push(word),
{
    assert(list.push(word).drop_last() =~= list);
    lemma_trim_empty(word);
    law_distinct(list);
    assert(distinct(list).contains(word) == list.contains(word));
}

/// The first items are taken, as many as are allowed or there are.
pub proof fn law_first_are_a_prefix<T>(list: Seq<T>, n: nat)
    ensures
        first(list, n).is_prefix_of(list),
        first(list, n).len() == if n < list.len() {
            n
        } else {
            list.len()
        },
{
    assert(list.take(first(list, n).len() as int) =~= first(list, n));
}

/// The model is asked about the query in the words in which it was given, and the keywords
/// that it names are used.
pub proof fn law_keywords_come_from_the_query<L: ChatBackend>(
    llm: &L,
    prompt: Seq<char>,
    query: Seq<char>,
    cap: nat,
    words: Vec<String>,
) -> (r: (&Vec<Message>, String))
    requires
        expanded(llm, prompt, query, cap, Ok(words)),
    ensures
        call_ensures(L::chat_json, (llm, r.0), Ok::<String, Error>(r.1)),
        r.0@.len() == 2,
        r.0@[0].role@ == "system"@,
        r.0@[0].content@ == prompt,
        r.0@[1].role@ == "user"@,
        r.0@[1].content@ == query,
        json_of(r.1@) is Ok,
        record_texts(json_of(r.1@)->Ok_0, "keywords"@) is Some,
        texts(words@) == usable_keywords(
            record_texts(json_of(r.1@)->Ok_0, "keywords"@)->0,
            cap,
        ),
{
    let reply = choose|reply: Result<String, Error>| #[trigger]
        chat_reply(llm, prompt, query, reply) && keywords_from_reply(reply, cap, Ok(words));
    let asked = choose|asked: &Vec<Message>|
        message_views(asked@) == dialogue(prompt, query) && #[trigger] call_ensures(
            L::chat_json,
            (llm, asked),
            reply,
        );
    let views = message_views(asked@);
    assert(views.len() == asked@.len());
    assert(views[0] == asked@[0]@);
    assert(views[1] == asked@[1]@);
    (asked, reply->Ok_0)
}

/// The cap counts before repetitions are dropped: the usable keywords are those among the
/// first ones that are not blank, in their order.
pub proof fn law_cap_counts_before_repetitions(named: Seq<Seq<char>>, cap: nat, word: Seq<char>)
    ensures
        usable_keywords(named, cap).contains(word) <==> first(trimmed_texts(named), cap).contains(
            word,
        ),
        trimmed_texts(named).len() > cap ==> usable_keywords(named, cap) == usable_keywords(
            trimmed_texts(named).take(cap as int),
            cap,
        ),
{
    let kept = first(trimmed_texts(named), cap);
    law_distinct(kept);
    if trimmed_texts(named).len() > cap {
        lemma_trimmed_texts(named);
        assert forall|i: int| 0 <= i < kept.len() implies !is_blank(#[trigger] kept[i]) && trim(
            kept[i],
        ) == kept[i] by {
            assert(kept[i] == trimmed_texts(named)[i]);
        }
        lemma_already_trimmed(kept);
    }
}

proof fn lemma_already_trimmed(list: Seq<Seq<char>>)
    requires
        forall|i: int|
            0 <= i < list.len() ==> !is_blank(#[trigger] list[i]) && trim(list[i]) == list[i],
    ensures
        trimmed_texts(list) == list,
    decreases list.len(),
{
    if list.len() > 0 {
        let past = list.drop_last();
        assert forall|i: int| 0 <= i < past.len() implies !is_blank(#[trigger] past[i]) && trim(
            past[i],
        ) == past[i] by {
            assert(past[i] == list[i]);
        }
        lemma_already_trimmed(past);
        assert(!is_blank(list[list.len() - 1]));
        assert(list =~= past.push(list.last()));
    } else {
        assert(trimmed_texts(list) =~= list);
    }
}

} // verus!
