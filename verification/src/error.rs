//! What can go wrong, and how it is told to the user.
use crate::text::{decimal, holds, lemma_holds, numeral, opt_text};
use vstd::prelude::*;
use vstd::string::*;

verus! {

#[derive(Debug)]
pub enum Error {
    /// A backend failed; the text is its own account of it.
    Backend(String),
    /// A step failed because of another failure.
    During { what: String, cause: String },
    // configuration
    ServerUrlEmpty,
    ApiKeyEmpty,
    LlmBaseUrlEmpty,
    LlmApiKeyEmpty,
    LlmModelEmpty,
    VisionModelEmpty,
    // language model
    NoChoices,
    NullContent,
    EmptyContent,
    VisionModelNotSet,
    NoImages,
    // The cause tells where a reply is no JSON at all.
    KeywordReplyNotJson { reply: String, cause: Option<String> },
    RerankReplyNotJson { reply: String, cause: Option<String> },
    PickReplyNotJson { reply: String, cause: Option<String> },
    PlaceReplyNotJson { reply: String, cause: Option<String> },
    PickOutOfRange { index: usize, assets: usize },
    // places
    CitiesNotAList,
    PlaceEmpty,
    NothingGeocoded,
    // search
    LimitZero,
    NoFilter,
    QueryLimitTooHigh,
    DateEmpty,
    DateInvalid { date: String, cause: String },
    PlaceNeedsLlm,
    PlaceUnknown { input: String },
    DescriptionNeedsLlm,
    ThumbnailCount { candidates: usize, thumbnails: usize },
    // ask
    AskQueryEmpty,
    AskLimitZero,
    NoKeywords,
    // info
    NoMapping { path: String },
    NoHomeForTilde,
    NoHome,
    NoWorkingDirectory { cause: String },
    NoFileName { path: String },
    AssetNotFound { path: String, filename: String },
    PathShared { count: usize, path: String },
    // dedup
    ParallelZero,
    TimeGapNegative,
    DistanceNegative,
    SizeRatioOutOfRange,
}

impl Error {
    /// The message for the user.
    pub open spec fn text(self) -> Seq<char> {
        match self {
            Error::Backend(text) => text@,
            Error::During { what, cause } => what@,
            Error::ServerUrlEmpty => "config.server_url is empty"@,
            Error::ApiKeyEmpty => "config.api_key is empty"@,
            Error::LlmBaseUrlEmpty => "config.llm.base_url is empty"@,
            Error::LlmApiKeyEmpty => "config.llm.api_key is empty"@,
            Error::LlmModelEmpty => "config.llm.model is empty"@,
            Error::VisionModelEmpty =>
                "config.llm.vision_model is empty (omit the field if you don't want to set it)"@,
            Error::NoChoices => "LLM returned no choices"@,
            Error::NullContent =>
                "LLM returned null content — reasoning model likely hit max_tokens before emitting output; try raising it"@,
            Error::EmptyContent => "LLM returned empty content"@,
            Error::VisionModelNotSet => "config.llm.vision_model is not set"@,
            Error::NoImages => "pick_best called with zero images"@,
            Error::KeywordReplyNotJson { reply, cause: _ } => "LLM keyword reply was not valid JSON: "@
                + reply@,
            Error::RerankReplyNotJson { reply, cause: _ } => "LLM rerank reply was not valid JSON: "@ + reply@,
            Error::PickReplyNotJson { reply, cause: _ } => "vision pick reply was not valid JSON: "@ + reply@,
            Error::PlaceReplyNotJson { reply, cause: _ } => "LLM returned non-JSON for place resolution: "@
                + reply@,
            Error::PickOutOfRange { index, assets } => "vision pick returned winner_index="@
                + decimal(index as nat) + " but group only has "@ + decimal(assets as nat)
                + " assets"@,
            Error::CitiesNotAList => "/api/search/cities did not return an array"@,
            Error::PlaceEmpty => "--place is empty"@,
            Error::NothingGeocoded =>
                "the library has no geocoded assets; --place cannot be resolved"@,
            Error::LimitZero => "--limit must be > 0"@,
            Error::NoFilter =>
                "search requires at least one filter: --query, --taken-after, --taken-before, --place, --ocr, or --type"@,
            Error::QueryLimitTooHigh => "--limit cannot exceed 48 when -q/--query is set"@,
            Error::DateEmpty => "date filter is empty"@,
            Error::DateInvalid { date, cause: _ } => "invalid date `"@ + date@ + "`, expected YYYY-MM-DD"@,
            Error::PlaceNeedsLlm =>
                "--place requires an [llm] section in config.toml (base_url, api_key, model) to resolve the free-form input"@,
            Error::PlaceUnknown { input } => "no place in the library matches `"@ + input@
                + "` — try a different wording or check the library's geocoding"@,
            Error::DescriptionNeedsLlm =>
                "--description-only requires an [llm] section in config.toml (base_url, api_key, model)"@,
            Error::ThumbnailCount { candidates, thumbnails } => "rerank_rich_vision: "@ + decimal(
                candidates as nat,
            ) + " candidate(s) but "@ + decimal(thumbnails as nat) + " thumbnail(s)"@,
            Error::AskQueryEmpty => "ask: query is empty"@,
            Error::AskLimitZero => "ask: --limit must be > 0"@,
            Error::NoKeywords => "LLM returned no keywords for the query"@,
            Error::NoMapping { path } => "no path mapping matches "@ + path@
                + " — add a [[path_map]] entry whose `local` prefix covers it"@,
            Error::NoHomeForTilde => "cannot resolve home directory for tilde expansion"@,
            Error::NoHome => "cannot resolve home directory"@,
            Error::NoWorkingDirectory { cause: _ } => "cannot resolve current working directory"@,
            Error::NoFileName { path } => "could not extract filename from `"@ + path@ + "`"@,
            Error::AssetNotFound { path, filename } => "no Immich asset has originalPath `"@ + path@
                + "` (filename `"@ + filename@
                + "` was not found, or Immich knows it under a different path)"@,
            Error::PathShared { count, path } => decimal(count as nat)
                + " Immich assets share originalPath `"@ + path@
                + "` — this should never happen; reindex Immich or report a bug"@,
            Error::ParallelZero => "--parallel must be > 0"@,
            Error::TimeGapNegative => "--max-time-gap-secs must be >= 0"@,
            Error::DistanceNegative => "--max-distance-m must be >= 0"@,
            Error::SizeRatioOutOfRange => "--size-ratio must be in [0, 1]"@,
        }
    }

    /// What caused the failure, where that is known.
    pub open spec fn cause_text(self) -> Option<Seq<char>> {
        match self {
            Error::During { what, cause } => Some(cause@),
            Error::KeywordReplyNotJson { reply, cause } => opt_text(cause),
            Error::RerankReplyNotJson { reply, cause } => opt_text(cause),
            Error::PickReplyNotJson { reply, cause } => opt_text(cause),
            Error::PlaceReplyNotJson { reply, cause } => opt_text(cause),
            Error::DateInvalid { date, cause } => Some(cause@),
            Error::NoWorkingDirectory { cause } => Some(cause@),
            _ => None,
        }
    }

    /// The message and, after it, what caused the failure.
    pub open spec fn full_text(self) -> Seq<char> {
        match self.cause_text() {
            Some(cause) => self.text() + ": "@ + cause,
            None => self.text(),
        }
    }

    pub fn message(&self) -> (r: String)
        ensures
            r@ == self.text(),
    {
        match self {
            Error::Backend(text) => text.clone(),
            Error::During { what, cause: _ } => what.clone(),
            Error::ServerUrlEmpty => "config.server_url is empty".to_owned(),
            Error::ApiKeyEmpty => "config.api_key is empty".to_owned(),
            Error::LlmBaseUrlEmpty => "config.llm.base_url is empty".to_owned(),
            Error::LlmApiKeyEmpty => "config.llm.api_key is empty".to_owned(),
            Error::LlmModelEmpty => "config.llm.model is empty".to_owned(),
            Error::VisionModelEmpty =>
                "config.llm.vision_model is empty (omit the field if you don't want to set it)".to_owned(),
            Error::NoChoices => "LLM returned no choices".to_owned(),
            Error::NullContent =>
                "LLM returned null content — reasoning model likely hit max_tokens before emitting output; try raising it".to_owned(),
            Error::EmptyContent => "LLM returned empty content".to_owned(),
            Error::VisionModelNotSet => "config.llm.vision_model is not set".to_owned(),
            Error::NoImages => "pick_best called with zero images".to_owned(),
            Error::KeywordReplyNotJson { reply, cause: _ } => between(
                "LLM keyword reply was not valid JSON: ",
                reply.as_str(),
            ),
            Error::RerankReplyNotJson { reply, cause: _ } => between(
                "LLM rerank reply was not valid JSON: ",
                reply.as_str(),
            ),
            Error::PickReplyNotJson { reply, cause: _ } => between(
                "vision pick reply was not valid JSON: ",
                reply.as_str(),
            ),
            Error::PlaceReplyNotJson { reply, cause: _ } => between(
                "LLM returned non-JSON for place resolution: ",
                reply.as_str(),
            ),
            Error::PickOutOfRange { index, assets } => {
                let mut out = between(
                    "vision pick returned winner_index=",
                    numeral(*index as u128).as_str(),
                );
                out.append(" but group only has ");
                out.append(numeral(*assets as u128).as_str());
                out.append(" assets");
                out
            },
            Error::CitiesNotAList => "/api/search/cities did not return an array".to_owned(),
            Error::PlaceEmpty => "--place is empty".to_owned(),
            Error::NothingGeocoded =>
                "the library has no geocoded assets; --place cannot be resolved".to_owned(),
            Error::LimitZero => "--limit must be > 0".to_owned(),
            Error::NoFilter =>
                "search requires at least one filter: --query, --taken-after, --taken-before, --place, --ocr, or --type".to_owned(),
            Error::QueryLimitTooHigh => "--limit cannot exceed 48 when -q/--query is set".to_owned(),
            Error::DateEmpty => "date filter is empty".to_owned(),
            Error::DateInvalid { date, cause: _ } => {
                let mut out = between("invalid date `", date.as_str());
                out.append("`, expected YYYY-MM-DD");
                out
            },
            Error::PlaceNeedsLlm =>
                "--place requires an [llm] section in config.toml (base_url, api_key, model) to resolve the free-form input".to_owned(),
            Error::PlaceUnknown { input } => {
                let mut out = between("no place in the library matches `", input.as_str());
                out.append("` — try a different wording or check the library's geocoding");
                out
            },
            Error::DescriptionNeedsLlm =>
                "--description-only requires an [llm] section in config.toml (base_url, api_key, model)".to_owned(),
            Error::ThumbnailCount { candidates, thumbnails } => {
                let mut out = between(
                    "rerank_rich_vision: ",
                    numeral(*candidates as u128).as_str(),
                );
                out.append(" candidate(s) but ");
                out.append(numeral(*thumbnails as u128).as_str());
                out.append(" thumbnail(s)");
                out
            },
            Error::AskQueryEmpty => "ask: query is empty".to_owned(),
            Error::AskLimitZero => "ask: --limit must be > 0".to_owned(),
            Error::NoKeywords => "LLM returned no keywords for the query".to_owned(),
            Error::NoMapping { path } => {
                let mut out = between("no path mapping matches ", path.as_str());
                out.append(" — add a [[path_map]] entry whose `local` prefix covers it");
                out
            },
            Error::NoHomeForTilde => "cannot resolve home directory for tilde expansion".to_owned(),
            Error::NoHome => "cannot resolve home directory".to_owned(),
            Error::NoWorkingDirectory { cause: _ } => "cannot resolve current working directory".to_owned(),
            Error::NoFileName { path } => {
                let mut out = between("could not extract filename from `", path.as_str());
                out.append("`");
                out
            },
            Error::AssetNotFound { path, filename } => {
                let mut out = between("no Immich asset has originalPath `", path.as_str());
                out.append("` (filename `");
                out.append(filename.as_str());
                out.append("` was not found, or Immich knows it under a different path)");
                out
            },
            Error::PathShared { count, path } => {
                let mut out = between(
                    numeral(*count as u128).as_str(),
                    " Immich assets share originalPath `",
                );
                out.append(path.as_str());
                out.append("` — this should never happen; reindex Immich or report a bug");
                out
            },
            Error::ParallelZero => "--parallel must be > 0".to_owned(),
            Error::TimeGapNegative => "--max-time-gap-secs must be >= 0".to_owned(),
            Error::DistanceNegative => "--max-distance-m must be >= 0".to_owned(),
            Error::SizeRatioOutOfRange => "--size-ratio must be in [0, 1]".to_owned(),
        }
    }

    pub fn cause(&self) -> (r: Option<String>)
        ensures
            opt_text(r) == self.cause_text(),
    {
        match self {
            Error::During { what: _, cause } => Some(cause.clone()),
            Error::KeywordReplyNotJson { reply: _, cause } => cause.clone(),
            Error::RerankReplyNotJson { reply: _, cause } => cause.clone(),
            Error::PickReplyNotJson { reply: _, cause } => cause.clone(),
            Error::PlaceReplyNotJson { reply: _, cause } => cause.clone(),
            Error::DateInvalid { date: _, cause } => Some(cause.clone()),
            Error::NoWorkingDirectory { cause } => Some(cause.clone()),
            _ => None,
        }
    }

    pub fn full_message(&self) -> (r: String)
        ensures
            r@ == self.full_text(),
    {
        let mut out = self.message();
        if let Some(cause) = self.cause() {
            out.append(": ");
            out.append(cause.as_str());
        }
        out
    }

    /// A service answered with a status that is no success. `about` names the
    /// request, where that helps.
    pub fn refused(service: &str, status: &str, about: &str, body: &str) -> (r: Error)
        ensures
            r matches Error::Backend(text) && text@ == service@ + " returned "@ + status@ + about@
                + ": "@ + body@,
    {
        let mut text = between(service, " returned ");
        text.append(status);
        text.append(about);
        text.append(": ");
        text.append(body);
        Error::Backend(text)
    }

    /// Says which step failed because of `self`.
    pub fn during(self, what: String) -> (r: Error)
        ensures
            r matches Error::During { what: w, cause: c } && w@ == what@ && c@ == self.full_text(),
    {
        let cause = self.full_message();
        Error::During { what, cause }
    }
}

fn between(a: &str, b: &str) -> (r: String)
    ensures
        r@ == a@ + b@,
{
    let mut out = a.to_owned();
    out.append(b);
    out
}

// ---- what messages tell -----------------------------------------------------

/// A message names what it is about, and its cause follows it.
#[verifier::rlimit(60)]
pub proof fn law_messages_name_their_subject(e: Error)
    ensures
        e.cause_text() is None ==> e.full_text() == e.text(),
        e.cause_text() matches Some(c) ==> e.full_text() == e.text() + ": "@ + c,
        e matches Error::Backend(t) ==> e.text() == t@ && e.cause_text() is None,
        e matches Error::During { what, cause } ==> e.text() == what@ && e.cause_text() == Some(
            cause@,
        ),
        e matches Error::KeywordReplyNotJson { reply, cause } ==> reply@.is_suffix_of(e.text()),
        e matches Error::RerankReplyNotJson { reply, cause } ==> reply@.is_suffix_of(e.text()),
        e matches Error::PickReplyNotJson { reply, cause } ==> reply@.is_suffix_of(e.text()),
        e matches Error::PlaceReplyNotJson { reply, cause } ==> reply@.is_suffix_of(e.text()),
        e matches Error::DateInvalid { date, cause } ==> holds(e.text(), "`"@ + date@ + "`"@)
            && e.cause_text() == Some(cause@),
        e matches Error::PlaceUnknown { input } ==> holds(e.text(), "`"@ + input@ + "`"@),
        e matches Error::NoMapping { path } ==> holds(e.text(), path@),
        e matches Error::NoFileName { path } ==> holds(e.text(), path@),
        e matches Error::AssetNotFound { path, filename } ==> holds(
            e.text(),
            "originalPath `"@ + path@ + "` (filename `"@ + filename@ + "`"@,
        ),
        e matches Error::PathShared { count, path } ==> decimal(count as nat).is_prefix_of(e.text())
            && holds(e.text(), path@),
        e matches Error::PickOutOfRange { index, assets } ==> holds(
            e.text(),
            "winner_index="@ + decimal(index as nat),
        ) && holds(e.text(), decimal(assets as nat) + " assets"@),
        e matches Error::ThumbnailCount { candidates, thumbnails } ==> holds(
            e.text(),
            decimal(candidates as nat) + " candidate(s)"@,
        ) && holds(e.text(), decimal(thumbnails as nat) + " thumbnail(s)"@),
{
    let text = e.text();
    match e {
        Error::KeywordReplyNotJson { reply, cause } => {
            assert(text.skip(text.len() - reply@.len()) =~= reply@);
        },
        Error::RerankReplyNotJson { reply, cause } => {
            assert(text.skip(text.len() - reply@.len()) =~= reply@);
        },
        Error::PickReplyNotJson { reply, cause } => {
            assert(text.skip(text.len() - reply@.len()) =~= reply@);
        },
        Error::PlaceReplyNotJson { reply, cause } => {
            assert(text.skip(text.len() - reply@.len()) =~= reply@);
        },
        Error::DateInvalid { date, cause } => {
            reveal_strlit("`");
            reveal_strlit("invalid date `");
            reveal_strlit("`, expected YYYY-MM-DD");
            let (open, close) = ("invalid date `"@, "`, expected YYYY-MM-DD"@);
            assert(open =~= open.drop_last() + "`"@);
            assert(close =~= "`"@ + close.drop_first());
            lemma_quoted(open, open.drop_last(), date@, close, close.drop_first(), text);
        },
        Error::PlaceUnknown { input } => {
            lemma_unknown_place(input@, text);
        },
        Error::NoMapping { path } => {
            lemma_holds(
                "no path mapping matches "@,
                path@,
                " — add a [[path_map]] entry whose `local` prefix covers it"@,
            );
        },
        Error::NoFileName { path } => {
            lemma_holds("could not extract filename from `"@, path@, "`"@);
        },
        Error::AssetNotFound { path, filename } => {
            lemma_not_found(path@, filename@, text);
        },
        Error::PathShared { count, path } => {
            let n = decimal(count as nat);
            assert(text.take(n.len() as int) =~= n);
            lemma_holds(
                n + " Immich assets share originalPath `"@,
                path@,
                "` — this should never happen; reindex Immich or report a bug"@,
            );
        },
        Error::PickOutOfRange { index, assets } => {
            lemma_out_of_range(index as nat, assets as nat, text);
        },
        Error::ThumbnailCount { candidates, thumbnails } => {
            lemma_counts(candidates as nat, thumbnails as nat, text);
        },
        _ => {},
    }
}

proof fn lemma_quoted(
    open: Seq<char>,
    before: Seq<char>,
    subject: Seq<char>,
    close: Seq<char>,
    behind: Seq<char>,
    text: Seq<char>,
)
    requires
        open == before + "`"@,
        close == "`"@ + behind,
        text == open + subject + close,
    ensures
        holds(text, "`"@ + subject + "`"@),
{
    let middle = "`"@ + subject + "`"@;
    assert(text =~= before + middle + behind);
    lemma_holds(before, middle, behind);
}

proof fn lemma_unknown_place(input: Seq<char>, text: Seq<char>)
    requires
        text == "no place in the library matches `"@ + input
            + "` — try a different wording or check the library's geocoding"@,
    ensures
        holds(text, "`"@ + input + "`"@),
{
    let open = "no place in the library matches `"@;
    let close = "` — try a different wording or check the library's geocoding"@;
    reveal_strlit("`");
    reveal_strlit("no place in the library matches `");
    reveal_strlit("` — try a different wording or check the library's geocoding");
    assert(open =~= open.drop_last() + "`"@);
    assert(close =~= "`"@ + close.drop_first());
    lemma_quoted(open, open.drop_last(), input, close, close.drop_first(), text);
}

proof fn lemma_not_found(path: Seq<char>, filename: Seq<char>, text: Seq<char>)
    requires
        text == "no Immich asset has originalPath `"@ + path + "` (filename `"@ + filename
            + "` was not found, or Immich knows it under a different path)"@,
    ensures
        holds(text, "originalPath `"@ + path + "` (filename `"@ + filename + "`"@),
{
    let close = "` was not found, or Immich knows it under a different path)"@;
    reveal_strlit("no Immich asset has originalPath `");
    reveal_strlit("no Immich asset has ");
    reveal_strlit("originalPath `");
    reveal_strlit("`");
    reveal_strlit("` was not found, or Immich knows it under a different path)");
    assert("no Immich asset has originalPath `"@ =~= "no Immich asset has "@ + "originalPath `"@);
    assert(close =~= "`"@ + close.drop_first());
    let middle = "originalPath `"@ + path + "` (filename `"@ + filename + "`"@;
    assert(text =~= "no Immich asset has "@ + middle + close.drop_first());
    lemma_holds("no Immich asset has "@, middle, close.drop_first());
}

proof fn lemma_out_of_range(index: nat, assets: nat, text: Seq<char>)
    requires
        text == "vision pick returned winner_index="@ + decimal(index) + " but group only has "@
            + decimal(assets) + " assets"@,
    ensures
        holds(text, "winner_index="@ + decimal(index)),
        holds(text, decimal(assets) + " assets"@),
{
    reveal_strlit("vision pick returned winner_index=");
    reveal_strlit("vision pick returned ");
    reveal_strlit("winner_index=");
    assert("vision pick returned winner_index="@ =~= "vision pick returned "@ + "winner_index="@);
    let a = "winner_index="@ + decimal(index);
    let b = decimal(assets) + " assets"@;
    let gap = " but group only has "@;
    assert(text =~= "vision pick returned "@ + a + (gap + b));
    lemma_holds("vision pick returned "@, a, gap + b);
    assert(text =~= ("vision pick returned "@ + a + gap) + b + Seq::<char>::empty());
    lemma_holds("vision pick returned "@ + a + gap, b, Seq::empty());
}

proof fn lemma_counts(candidates: nat, thumbnails: nat, text: Seq<char>)
    requires
        text == "rerank_rich_vision: "@ + decimal(candidates) + " candidate(s) but "@ + decimal(
            thumbnails,
        ) + " thumbnail(s)"@,
    ensures
        holds(text, decimal(candidates) + " candidate(s)"@),
        holds(text, decimal(thumbnails) + " thumbnail(s)"@),
{
    reveal_strlit(" candidate(s) but ");
    reveal_strlit(" candidate(s)");
    reveal_strlit(" but ");
    assert(" candidate(s) but "@ =~= " candidate(s)"@ + " but "@);
    let head = "rerank_rich_vision: "@;
    let a = decimal(candidates) + " candidate(s)"@;
    let b = decimal(thumbnails) + " thumbnail(s)"@;
    assert(text =~= head + a + (" but "@ + b));
    lemma_holds(head, a, " but "@ + b);
    assert(text =~= (head + a + " but "@) + b + Seq::<char>::empty());
    lemma_holds(head + a + " but "@, b, Seq::empty());
}

} // verus!
