//! Resolution of a table, step by step: the resolver decides, the caller
//! fetches and decodes. Each stage says what the caller is to do next; the
//! caller's reply takes the resolution to its next stage or to its end.

use vstd::prelude::*;
use crate::error::{Failure, ParseError};
use crate::header::{lemma_validated, prefix_view, validate_header, validated};
use crate::html::{extract_pointer, header_url_of};
use crate::levels::{derive_levels, lemma_level_index, level_index};
use crate::table::{DifficultTable, DifficultTableElement, Entry, Table};
use crate::url::{base_of, base_url, classify, is_absolute, kind_of, lemma_resolved, UrlKind};

verus! {

/// What a resolution waits for.
#[derive(Debug)]
pub enum Stage {
    /// The text of the page at `url`, which names the header document.
    FetchPage { url: String },
    /// The text of the header document at `url`; `prefix_url` is the base
    /// for what the header refers to.
    FetchHeader { url: String, prefix_url: Option<String> },
    /// The header that the JSON text `text` holds.
    DecodeHeader { text: String, prefix_url: Option<String> },
    /// The text of the chart list at `header.data_url`.
    FetchContents { header: DifficultTable },
    /// The charts that the JSON text `text` holds.
    DecodeContents { text: String, header: DifficultTable },
}

/// What the caller has to say to a stage.
#[derive(Debug)]
pub enum Reply {
    /// The text that was fetched.
    Text(String),
    /// The header that was decoded: no charts and no levels in it yet.
    Header(DifficultTable),
    /// The charts that were decoded.
    Contents(Vec<DifficultTableElement>),
    /// The text is not JSON of the expected shape.
    SerdeError(serde_json::Error),
    /// The transfer failed.
    ReqwestError(reqwest::Error),
    /// The body could not be read.
    IOError(std::io::Error),
}

/// What a stage asks of the caller.
#[derive(Debug)]
pub enum Request<'a> {
    /// To fetch the text at `url`, and to reply with the text or with the
    /// failure of the transfer.
    Fetch { url: &'a str },
    /// To decode the JSON text `text` as a header, and to reply with the
    /// header or with the failure of the decoder.
    DecodeHeader { text: &'a str },
    /// To decode the JSON text `text` as a list of charts, and to reply with
    /// the charts or with the failure of the decoder.
    DecodeContents { text: &'a str },
}

/// Where a resolution stands after a reply.
#[derive(Debug)]
pub enum Progress {
    /// It goes on: the stage says with what.
    Pending(Stage),
    /// It is complete: this is the table.
    Done(DifficultTable),
    /// It has failed, for good.
    Failed(ParseError),
}

/// The model of a `Stage`.
pub ghost enum StageModel {
    FetchPage { url: Seq<char> },
    FetchHeader { url: Seq<char>, prefix_url: Option<Seq<char>> },
    DecodeHeader { text: Seq<char>, prefix_url: Option<Seq<char>> },
    FetchContents { header: Table },
    DecodeContents { text: Seq<char>, header: Table },
}

/// The model of a `Reply`.
pub ghost enum ReplyModel {
    Text(Seq<char>),
    Header(Table),
    Contents(Seq<Entry>),
    SerdeError(serde_json::Error),
    ReqwestError(reqwest::Error),
    IOError(std::io::Error),
}

/// The model of a `Request`.
pub ghost enum RequestModel {
    Fetch { url: Seq<char> },
    DecodeHeader { text: Seq<char> },
    DecodeContents { text: Seq<char> },
}

/// The model of a `Progress`.
pub ghost enum ProgressModel {
    Pending(StageModel),
    Done(Table),
    Failed(Failure),
}

impl View for Stage {
    type V = StageModel;

    open spec fn view(&self) -> StageModel {
        match *self {
            Stage::FetchPage { url } => StageModel::FetchPage { url: url@ },
            Stage::FetchHeader { url, prefix_url } => StageModel::FetchHeader {
                url: url@,
                prefix_url: prefix_view(prefix_url),
            },
            Stage::DecodeHeader { text, prefix_url } => StageModel::DecodeHeader {
                text: text@,
                prefix_url: prefix_view(prefix_url),
            },
            Stage::FetchContents { header } => StageModel::FetchContents { header: header@ },
            Stage::DecodeContents { text, header } => StageModel::DecodeContents {
                text: text@,
                header: header@,
            },
        }
    }
}

impl View for Reply {
    type V = ReplyModel;

    open spec fn view(&self) -> ReplyModel {
        match *self {
            Reply::Text(text) => ReplyModel::Text(text@),
            Reply::Header(header) => ReplyModel::Header(header@),
            Reply::Contents(contents) => ReplyModel::Contents(contents.deep_view()),
            Reply::SerdeError(e) => ReplyModel::SerdeError(e),
            Reply::ReqwestError(e) => ReplyModel::ReqwestError(e),
            Reply::IOError(e) => ReplyModel::IOError(e),
        }
    }
}

impl<'a> View for Request<'a> {
    type V = RequestModel;

    open spec fn view(&self) -> RequestModel {
        match *self {
            Request::Fetch { url } => RequestModel::Fetch { url: url@ },
            Request::DecodeHeader { text } => RequestModel::DecodeHeader { text: text@ },
            Request::DecodeContents { text } => RequestModel::DecodeContents { text: text@ },
        }
    }
}

impl View for Progress {
    type V = ProgressModel;

    open spec fn view(&self) -> ProgressModel {
        match *self {
            Progress::Pending(stage) => ProgressModel::Pending(stage@),
            Progress::Done(table) => ProgressModel::Done(table@),
            Progress::Failed(e) => ProgressModel::Failed(e@),
        }
    }
}

impl StageModel {
    /// What this stage asks of the caller: a page and a header document
    /// are fetched from the stage's URL, the chart list from the `data_url`
    /// of the header; a text is decoded as what the stage waits for.
    pub open spec fn request(self) -> RequestModel {
        match self {
            StageModel::FetchPage { url } => RequestModel::Fetch { url: url },
            StageModel::FetchHeader { url, .. } => RequestModel::Fetch { url: url },
            StageModel::DecodeHeader { text, .. } => RequestModel::DecodeHeader { text: text },
            StageModel::FetchContents { header } => RequestModel::Fetch { url: header.data_url },
            StageModel::DecodeContents { text, .. } => RequestModel::DecodeContents { text: text },
        }
    }

    /// Whether this stage waits for a text to be fetched.
    pub open spec fn fetches(self) -> bool {
        self.request() is Fetch
    }

    /// Whether this stage waits for a text to be decoded.
    pub open spec fn decodes(self) -> bool {
        !self.fetches()
    }

    /// Whether the header that this stage holds, where it holds one, has
    /// passed validation.
    pub open spec fn well_formed(self) -> bool {
        match self {
            StageModel::FetchContents { header } => header.has_required_fields(),
            StageModel::DecodeContents { header, .. } => header.has_required_fields(),
            _ => true,
        }
    }
}

impl Stage {
    /// What this stage asks of the caller.
    pub fn request(&self) -> (r: Request<'_>)
        ensures
            r@ == self@.request(),
    {
        match self {
            Stage::FetchPage { url } => Request::Fetch { url: url.as_str() },
            Stage::FetchHeader { url, .. } => Request::Fetch { url: url.as_str() },
            Stage::DecodeHeader { text, .. } => Request::DecodeHeader { text: text.as_str() },
            Stage::FetchContents { header } => Request::Fetch { url: header.data_url.as_str() },
            Stage::DecodeContents { text, .. } => Request::DecodeContents { text: text.as_str() },
        }
    }
}

/// The first stage of resolving the table at `url`: a `.json` URL is the
/// header document's own, a `.htm` or `.html` URL that of a page which
/// names the header document; no other URL is taken.
pub open spec fn begun(url: Seq<char>) -> Result<StageModel, Failure> {
    match kind_of(url) {
        None => Err(Failure::UnSupportedURLFormat),
        Some(UrlKind::Json) => Ok(
            StageModel::FetchHeader { url: url, prefix_url: Some(base_of(url)) },
        ),
        Some(UrlKind::Html) => Ok(StageModel::FetchPage { url: url }),
    }
}

/// Where the resolution at `stage` stands after `reply`.
///
/// A page must name its header document. A header document must not be
/// empty, and the header in it must pass `validated`. The charts complete
/// the table, with their level index. A failure reported to the stage that
/// waits for such work ends the resolution with that failure. A reply that
/// does not answer the stage leaves it as it is.
pub open spec fn advanced(stage: StageModel, reply: ReplyModel) -> ProgressModel {
    match (stage, reply) {
        (StageModel::FetchPage { url }, ReplyModel::Text(page)) => match header_url_of(page, url) {
            Ok(header_url) => ProgressModel::Pending(
                StageModel::FetchHeader { url: header_url, prefix_url: Some(base_of(url)) },
            ),
            Err(e) => ProgressModel::Failed(e),
        },
        (StageModel::FetchHeader { url, prefix_url }, ReplyModel::Text(text)) => if text.len()
            == 0 {
            ProgressModel::Failed(Failure::CorruptedHeaderData("Get nothing from "@ + url))
        } else {
            ProgressModel::Pending(StageModel::DecodeHeader { text: text, prefix_url: prefix_url })
        },
        (StageModel::DecodeHeader { text, prefix_url }, ReplyModel::Header(header)) => match validated(
            header,
            prefix_url,
        ) {
            Ok(checked) => ProgressModel::Pending(StageModel::FetchContents { header: checked }),
            Err(e) => ProgressModel::Failed(e),
        },
        (StageModel::FetchContents { header }, ReplyModel::Text(text)) => ProgressModel::Pending(
            StageModel::DecodeContents { text: text, header: header },
        ),
        (StageModel::DecodeContents { text, header }, ReplyModel::Contents(contents)) => ProgressModel::Done(
            Table { contents: contents, levels: level_index(contents), ..header },
        ),
        (_, ReplyModel::ReqwestError(e)) => if stage.fetches() {
            ProgressModel::Failed(Failure::ReqwestError(e))
        } else {
            ProgressModel::Pending(stage)
        },
        (_, ReplyModel::IOError(e)) => if stage.fetches() {
            ProgressModel::Failed(Failure::IOError(e))
        } else {
            ProgressModel::Pending(stage)
        },
        (_, ReplyModel::SerdeError(e)) => if stage.decodes() {
            ProgressModel::Failed(Failure::SerdeError(e))
        } else {
            ProgressModel::Pending(stage)
        },
        _ => ProgressModel::Pending(stage),
    }
}

/// Begins to resolve the table at `url`.
///
/// The URL must begin with `http` and end in `.json`, `.htm` or `.html`;
/// any other is refused here, before anything is fetched.
pub fn parse(url: String) -> (r: Result<Stage, ParseError>)
    ensures
        match begun(url@) {
            Ok(stage) => r matches Ok(first) && first@ == stage,
            Err(e) => r matches Err(x) && x@ == e,
        },
        kind_of(url@) is None ==> (r matches Err(x) && x@ == Failure::UnSupportedURLFormat),
{
    match classify(url.as_str()) {
        Err(e) => Err(e),
        Ok(UrlKind::Json) => {
            let base = base_url(url.as_str());
            Ok(Stage::FetchHeader { url: url, prefix_url: Some(base) })
        },
        Ok(UrlKind::Html) => Ok(Stage::FetchPage { url: url }),
    }
}

/// Begins to resolve a table from the JSON text `data` of its header
/// document; `prefix_url` is the base for what the header refers to.
pub fn parse_from_json(prefix_url: Option<String>, data: String) -> (stage: Stage)
    ensures
        stage@ == (StageModel::DecodeHeader { text: data@, prefix_url: prefix_view(prefix_url) }),
{
    Stage::DecodeHeader { text: data, prefix_url: prefix_url }
}

/// Takes the resolution at `stage` on with the caller's `reply`.
pub fn advance(stage: Stage, reply: Reply) -> (r: Progress)
    ensures
        r@ == advanced(stage@, reply@),
{
    match stage {
        Stage::FetchPage { url } => match reply {
            Reply::Text(page) => match extract_pointer(page.as_str(), url.as_str()) {
                Ok((header_url, base)) => Progress::Pending(
                    Stage::FetchHeader { url: header_url, prefix_url: Some(base) },
                ),
                Err(e) => Progress::Failed(e),
            },
            Reply::ReqwestError(e) => Progress::Failed(ParseError::ReqwestError(e)),
            Reply::IOError(e) => Progress::Failed(ParseError::IOError(e)),
            _ => Progress::Pending(Stage::FetchPage { url: url }),
        },
        Stage::FetchHeader { url, prefix_url } => match reply {
            Reply::Text(text) => {
                if text.as_str().is_empty() {
                    let detail = String::from_str("Get nothing from ").concat(url.as_str());
                    Progress::Failed(ParseError::CorruptedHeaderData(detail))
                } else {
                    Progress::Pending(Stage::DecodeHeader { text: text, prefix_url: prefix_url })
                }
            },
            Reply::ReqwestError(e) => Progress::Failed(ParseError::ReqwestError(e)),
            Reply::IOError(e) => Progress::Failed(ParseError::IOError(e)),
            _ => Progress::Pending(Stage::FetchHeader { url: url, prefix_url: prefix_url }),
        },
        Stage::DecodeHeader { text, prefix_url } => match reply {
            Reply::Header(header) => match validate_header(header, &prefix_url) {
                Ok(checked) => Progress::Pending(Stage::FetchContents { header: checked }),
                Err(e) => Progress::Failed(e),
            },
            Reply::SerdeError(e) => Progress::Failed(ParseError::SerdeError(e)),
            _ => Progress::Pending(Stage::DecodeHeader { text: text, prefix_url: prefix_url }),
        },
        Stage::FetchContents { header } => match reply {
            Reply::Text(text) => Progress::Pending(
                Stage::DecodeContents { text: text, header: header },
            ),
            Reply::ReqwestError(e) => Progress::Failed(ParseError::ReqwestError(e)),
            Reply::IOError(e) => Progress::Failed(ParseError::IOError(e)),
            _ => Progress::Pending(Stage::FetchContents { header: header }),
        },
        Stage::DecodeContents { text, header } => match reply {
            Reply::Contents(contents) => {
                let levels = derive_levels(&contents);
                let mut table = header;
                table.contents = contents;
                table.levels = levels;
                Progress::Done(table)
            },
            Reply::SerdeError(e) => Progress::Failed(ParseError::SerdeError(e)),
            _ => Progress::Pending(Stage::DecodeContents { text: text, header: header }),
        },
    }
}

/// A document that is not JSON of the expected shape ends the resolution
/// with the decoder's own failure, whichever document it is.
pub proof fn lemma_malformed_document(stage: StageModel, e: serde_json::Error)
    requires
        stage.decodes(),
    ensures
        advanced(stage, ReplyModel::SerdeError(e)) == ProgressModel::Failed(Failure::SerdeError(e)),
{
}

/// A transfer that fails ends the resolution with the transfer's own
/// failure, whatever was being fetched.
pub proof fn lemma_failed_transfer(stage: StageModel, e: reqwest::Error, io: std::io::Error)
    requires
        stage.fetches(),
    ensures
        advanced(stage, ReplyModel::ReqwestError(e)) == ProgressModel::Failed(
            Failure::ReqwestError(e),
        ),
        advanced(stage, ReplyModel::IOError(io)) == ProgressModel::Failed(Failure::IOError(io)),
{
}

/// A header that lacks its name, its symbol or its chart list ends the
/// resolution with a failure that names what is missing; so does a relative
/// chart list without a base.
pub proof fn lemma_incomplete_header(text: Seq<char>, prefix_url: Option<Seq<char>>, header: Table)
    ensures
        ({
            let stage = StageModel::DecodeHeader { text: text, prefix_url: prefix_url };
            let next = advanced(stage, ReplyModel::Header(header));
            &&& header.name.len() == 0 ==> next == ProgressModel::Failed(
                Failure::CorruptedHeaderData("Difficult table name cannot be empty"@),
            )
            &&& header.name.len() > 0 && header.symbol.len() == 0 ==> next
                == ProgressModel::Failed(
                Failure::CorruptedHeaderData("Difficult table symbol cannot be empty"@),
            )
            &&& header.name.len() > 0 && header.symbol.len() > 0 && header.data_url.len() == 0
                ==> next == ProgressModel::Failed(
                Failure::CorruptedHeaderData("Difficult table data_url cannot be empty"@),
            )
            &&& header.name.len() > 0 && header.symbol.len() > 0 && header.data_url.len() > 0
                && !is_absolute(header.data_url) && prefix_url is None ==> next
                == ProgressModel::Failed(
                Failure::CorruptedHeaderData(
                    "data_url is a relative path while no prefix url is provided"@,
                ),
            )
        }),
{
    lemma_validated(header, prefix_url);
}

/// The table that a resolution ends with has the level index of its own
/// charts, and has levels exactly if it has charts.
pub proof fn lemma_done(text: Seq<char>, header: Table, contents: Seq<Entry>)
    ensures
        ({
            let stage = StageModel::DecodeContents { text: text, header: header };
            &&& advanced(stage, ReplyModel::Contents(contents)) matches ProgressModel::Done(table)
            &&& table.contents == contents
            &&& table.levels == level_index(table.contents)
            &&& table.levels.len() > 0 <==> table.contents.len() > 0
            &&& table == Table { contents: table.contents, levels: table.levels, ..header }
        }),
{
    lemma_level_index(contents);
}

/// From a `.json` URL to the table: where the header document is not empty,
/// its header has a name, a symbol and an absolute chart list, and the chart
/// list holds a chart, the resolution asks for the header document at the
/// URL, then for the chart list at the header's `data_url`, and ends with a
/// table that has name, symbol, chart list, charts and levels.
pub proof fn lemma_resolution_from_json(
    url: Seq<char>,
    header_text: Seq<char>,
    header: Table,
    contents_text: Seq<char>,
    contents: Seq<Entry>,
)
    requires
        kind_of(url) == Some(UrlKind::Json),
        header_text.len() > 0,
        header.name.len() > 0,
        header.symbol.len() > 0,
        is_absolute(header.data_url),
        contents.len() > 0,
    ensures
        ({
            &&& begun(url) matches Ok(first)
            &&& first.request() == RequestModel::Fetch { url: url }
            &&& advanced(first, ReplyModel::Text(header_text)) matches ProgressModel::Pending(
                second,
            )
            &&& second.request() == RequestModel::DecodeHeader { text: header_text }
            &&& advanced(second, ReplyModel::Header(header)) matches ProgressModel::Pending(third)
            &&& third.request() == RequestModel::Fetch { url: header.data_url }
            &&& advanced(third, ReplyModel::Text(contents_text)) matches ProgressModel::Pending(
                fourth,
            )
            &&& fourth.request() == RequestModel::DecodeContents { text: contents_text }
            &&& advanced(fourth, ReplyModel::Contents(contents)) matches ProgressModel::Done(table)
            &&& table.name.len() > 0
            &&& table.symbol.len() > 0
            &&& table.data_url.len() > 0
            &&& table.contents.len() > 0
            &&& table.levels.len() > 0
            &&& table == Table { contents: contents, levels: level_index(contents), ..header }
        }),
{
    lemma_resolved(Some(base_of(url)), header.data_url);
    lemma_level_index(contents);
}

/// Every stage that a resolution comes to is well-formed, and the table
/// that it ends with is resolved: so it is at its beginning, and so it
/// stays with every reply.
pub proof fn lemma_resolution_invariant(url: Seq<char>, stage: StageModel, reply: ReplyModel)
    requires
        stage.well_formed(),
    ensures
        begun(url) matches Ok(first) ==> first.well_formed(),
        advanced(stage, reply) matches ProgressModel::Pending(next) ==> next.well_formed(),
        advanced(stage, reply) matches ProgressModel::Done(table) ==> table.is_resolved(),
{
    if let StageModel::DecodeHeader { text, prefix_url } = stage {
        if let ReplyModel::Header(header) = reply {
            lemma_validated(header, prefix_url);
            lemma_resolved(prefix_url, header.data_url);
        }
    }
}

} // verus!
