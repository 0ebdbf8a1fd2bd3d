//! What the command prints.
use crate::commands::info::lookup::InfoBundle;
use crate::commands::info::prune::{prune_for_json, pruned};
use crate::commands::info::text::{detail_text, emit_text};
use crate::json::{Json, JsonView};
use vstd::prelude::*;

verus! {

#[derive(Debug)]
pub struct InfoArgs {
    /// The local path of the photo or video. A tilde stands for the home
    /// directory; a relative path starts at the working directory.
    pub path: String,
    pub format: OutputFormat,
}

#[derive(Copy, Clone, Debug)]
pub enum OutputFormat {
    /// Text in sections, one fact per line.
    Text,
    /// The detail of the asset as JSON, with the local path, the albums and the
    /// recognised texts.
    Json,
}

#[derive(Debug)]
pub enum Report {
    Text(String),
    Document(Json),
}

pub ghost enum ReportView {
    Text(Seq<char>),
    Document(JsonView),
}

impl View for Report {
    type V = ReportView;

    open spec fn view(&self) -> ReportView {
        match self {
            Report::Text(text) => ReportView::Text(text@),
            Report::Document(doc) => ReportView::Document(doc@),
        }
    }
}

/// What is printed of an asset in a format.
pub open spec fn reported(
    bundle: InfoBundle,
    format: OutputFormat,
    percents: Seq<Option<String>>,
) -> ReportView {
    match format {
        OutputFormat::Json => ReportView::Document(pruned(bundle.asset@)),
        OutputFormat::Text => ReportView::Text(
            detail_text(bundle.asset@, bundle.albums@, bundle.ocr@, percents),
        ),
    }
}

/// Reports what is known of an asset. `percents` holds the scores of the
/// recognised texts in per cent.
pub fn report(bundle: &InfoBundle, format: OutputFormat, percents: &Vec<Option<String>>) -> (r:
    Report)
    ensures
        r@ == reported(*bundle, format, percents@),
{
    match format {
        OutputFormat::Json => Report::Document(prune_for_json(&bundle.asset)),
        OutputFormat::Text => Report::Text(
            emit_text(&bundle.asset, &bundle.albums, &bundle.ocr, percents),
        ),
    }
}

} // verus!
