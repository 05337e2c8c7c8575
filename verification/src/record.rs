//! The three shapes of an input record and how a line is told apart.

use vstd::prelude::*;
use crate::json::{Member, MemberView, members_view, object_view, parsed_object, parse_object, text_of, flag_of, find_text, find_flag};

verus! {

/// One input record.
#[derive(Debug)]
pub enum Record {
    /// A crawled page: its URL and its raw HTML.
    Site { url: String, content: String },
    /// A link seen from one URL to another.
    Link { from: String, to: String },
    /// A page that was left out of the crawl; it is never aggregated.
    SkippedSite { url: String, translated: bool },
}

/// The model of [`Record`].
pub enum RecordView {
    Site { url: Seq<char>, content: Seq<char> },
    Link { from: Seq<char>, to: Seq<char> },
    SkippedSite { url: Seq<char>, translated: bool },
}

impl View for Record {
    type V = RecordView;

    open spec fn view(&self) -> RecordView {
        match self {
            Record::Site { url, content } => RecordView::Site { url: url@, content: content@ },
            Record::Link { from, to } => RecordView::Link { from: from@, to: to@ },
            Record::SkippedSite { url, translated } => RecordView::SkippedSite { url: url@, translated: *translated },
        }
    }
}

/// A line that is no record.
#[derive(Debug, Clone, Copy, PartialEq, Eq)]
pub struct DecodeError;

/// The record that a list of members stands for. The shapes are tried in a
/// fixed order: skipped site, site, link. A shape fits when its two members
/// are there with the right kind of value; other members are ignored.
pub open spec fn record_of(members: Seq<MemberView>) -> Option<RecordView> {
    let url = text_of(members, "url"@);
    let translated = flag_of(members, "g_translate"@);
    let content = text_of(members, "content"@);
    let from = text_of(members, "from"@);
    let to = text_of(members, "to"@);
    if url is Some && translated is Some {
        Some(RecordView::SkippedSite { url: url->0, translated: translated->0 })
    } else if url is Some && content is Some {
        Some(RecordView::Site { url: url->0, content: content->0 })
    } else if from is Some && to is Some {
        Some(RecordView::Link { from: from->0, to: to->0 })
    } else {
        None
    }
}

/// The record that a line stands for: that of the members of the JSON
/// object on it.
pub open spec fn decoded(line: Seq<char>) -> Option<RecordView> {
    match parsed_object(line) {
        Some(members) => record_of(members),
        None => None,
    }
}

impl Record {
    /// Tells the record apart by the members of its object.
    pub fn from_members(members: &Vec<Member>) -> (r: Result<Record, DecodeError>)
        ensures
            match r {
                Ok(record) => record_of(members_view(members@)) == Some(record@),
                Err(_) => record_of(members_view(members@)) is None,
            },
    {
        let url = find_text(members, "url");
        let translated = find_flag(members, "g_translate");
        if url.is_some() && translated.is_some() {
            return Ok(Record::SkippedSite { url: url.unwrap(), translated: translated.unwrap() });
        }
        let content = find_text(members, "content");
        if url.is_some() && content.is_some() {
            return Ok(Record::Site { url: url.unwrap(), content: content.unwrap() });
        }
        let from = find_text(members, "from");
        let to = find_text(members, "to");
        if from.is_some() && to.is_some() {
            return Ok(Record::Link { from: from.unwrap(), to: to.unwrap() });
        }
        Err(DecodeError)
    }

    /// Tells the record apart from what parsing the line gave.
    pub fn from_parsed(parsed: Option<Vec<Member>>) -> (r: Result<Record, DecodeError>)
        ensures
            match (object_view(parsed), r) {
                (Some(members), Ok(record)) => record_of(members) == Some(record@),
                (Some(members), Err(_)) => record_of(members) is None,
                (None, Ok(_)) => false,
                (None, Err(_)) => true,
            },
    {
        match parsed {
            Some(members) => Record::from_members(&members),
            None => Err(DecodeError),
        }
    }
}

/// Decodes one input line.
pub fn decode(line: &str) -> (r: Result<Record, DecodeError>)
    ensures
        match r {
            Ok(record) => decoded(line@) == Some(record@),
            Err(_) => decoded(line@) is None,
        },
{
    Record::from_parsed(parse_object(line))
}

} // verus!
