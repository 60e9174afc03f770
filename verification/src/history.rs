//! The record of downloads, as it is kept in a file.
use crate::json::{json_contents, JsonView};
use crate::text::{concat, opt_str};
use serde_json::Value;
use vstd::prelude::*;

verus! {

/// What `serde_json::from_str` makes of a text that should be a list: its
/// documents, or the message of the error.
pub uninterp spec fn json_list(text: Seq<char>) -> Result<Seq<JsonView>, Seq<char>>;

/// What `serde_json::to_vec_pretty` makes of a list of documents.
pub uninterp spec fn json_pretty(records: Seq<JsonView>) -> Seq<u8>;

/// How many containers of a record may stand inside each other for the record
/// to be read back from a list.
pub const NESTING: usize = 126;

/// A document without fractions whose containers stand at most so deep inside
/// each other.
pub open spec fn is_whole(value: JsonView, depth: nat) -> bool
    decreases depth,
{
    match value {
        JsonView::Null => true,
        JsonView::Bool(_) => true,
        JsonView::Number(number) => !(number is Double),
        JsonView::Text(_) => true,
        JsonView::List(items) => depth > 0 && forall|i: int|
            0 <= i < items.len() ==> is_whole(#[trigger] items[i], (depth - 1) as nat),
        JsonView::Record(fields) => depth > 0 && forall|i: int|
            0 <= i < fields.len() ==> is_whole((#[trigger] fields[i]).1, (depth - 1) as nat),
    }
}

/// Records that come back as they are when they are written and read.
pub open spec fn all_whole(records: Seq<JsonView>) -> bool {
    forall|i: int| 0 <= i < records.len() ==> is_whole(#[trigger] records[i], NESTING as nat)
}

/// What documents hold.
pub open spec fn records_view(records: Seq<Value>) -> Seq<JsonView> {
    Seq::new(records.len(), |i: int| json_contents(records[i]))
}

/// Wraps `serde_json::from_str` for lists of documents of any shape. Which
/// texts are such lists, and with what message others are refused, goes by the
/// JSON grammar and by `serde_json`'s messages, and is only named.
#[verifier::external_body]
fn parse_list(text: &str) -> (result: Result<Vec<Value>, String>)
    ensures
        match result {
            Ok(records) => json_list(text@) == Ok::<Seq<JsonView>, Seq<char>>(records_view(records@)),
            Err(error) => json_list(text@) == Err::<Seq<JsonView>, Seq<char>>(error@),
        },
{
    serde_json::from_str(text).map_err(|error: serde_json::Error| error.to_string())
}

/// Wraps `serde_json::to_vec_pretty` for lists of documents, which never fails
/// on them. The text goes by what the documents hold and is only named. Read
/// again, it gives the same documents, where they hold no fractions and are not
/// nested deeper than `serde_json` reads. Nothing is said of others: a fraction
/// may come back as its neighbour.
#[verifier::external_body]
fn print_list(records: &Vec<Value>) -> (result: Result<Vec<u8>, String>)
    ensures
        match result {
            Ok(bytes) => bytes@ == json_pretty(records_view(records@)) && (all_whole(records_view(records@)) ==> (
            vstd::utf8::valid_utf8(bytes@) && json_list(vstd::utf8::decode_utf8(bytes@)) == Ok::<
                Seq<JsonView>,
                Seq<char>,
            >(records_view(records@)))),
            Err(_) => false,
        },
{
    serde_json::to_vec_pretty(records).map_err(|error| error.to_string())
}

/// The record of downloads in the contents of its file. Where there is no file
/// yet, there are no downloads.
pub open spec fn history_in(contents: Option<Seq<char>>) -> Result<Seq<JsonView>, Seq<char>> {
    match contents {
        Some(contents) => match json_list(contents) {
            Ok(records) => Ok(records),
            Err(error) => Err("下载记录文件损坏: "@ + error),
        },
        None => Ok(seq![]),
    }
}

/// Reads the record of downloads.
pub fn read_history(contents: Option<&str>) -> (result: Result<Vec<Value>, String>)
    ensures
        match result {
            Ok(records) => history_in(opt_str(contents)) == Ok::<Seq<JsonView>, Seq<char>>(records_view(records@)),
            Err(message) => history_in(opt_str(contents)) == Err::<Seq<JsonView>, Seq<char>>(message@),
        },
{
    match contents {
        Some(contents) => match parse_list(contents) {
            Ok(records) => Ok(records),
            Err(error) => Err(concat("下载记录文件损坏: ", error.as_str())),
        },
        None => {
            let records: Vec<Value> = Vec::new();
            assert(records_view(records@) =~= seq![]);
            Ok(records)
        },
    }
}

/// Writes the record of downloads. It can always be written, and reading what
/// was written gives the same records in the same order, where they hold no
/// fractions and are not nested too deep.
pub fn write_history(records: &Vec<Value>) -> (result: Result<Vec<u8>, String>)
    ensures
        match result {
            Ok(bytes) => bytes@ == json_pretty(records_view(records@)) && (all_whole(records_view(records@)) ==> (
            vstd::utf8::valid_utf8(bytes@) && history_in(Some(vstd::utf8::decode_utf8(bytes@))) == Ok::<
                Seq<JsonView>,
                Seq<char>,
            >(records_view(records@)))),
            Err(_) => false,
        },
{
    match print_list(records) {
        Ok(bytes) => Ok(bytes),
        Err(error) => Err(concat("无法序列化下载记录: ", error.as_str())),
    }
}

/// What a file that cannot be read as a list is answered with names the damage;
/// a list is given as it is, and without a file there are no downloads.
pub proof fn histories_are_read(contents: Seq<char>, records: Seq<JsonView>, error: Seq<char>)
    ensures
        json_list(contents) == Ok::<Seq<JsonView>, Seq<char>>(records) ==> history_in(Some(contents)) == Ok::<
            Seq<JsonView>,
            Seq<char>,
        >(records),
        json_list(contents) == Err::<Seq<JsonView>, Seq<char>>(error) ==> (history_in(Some(contents)) matches Err(message)
            && crate::text::without_prefix(message, "下载记录文件损坏: "@) == Some(error)),
        history_in(None) matches Ok(none) && none.len() == 0,
{
    crate::text::prefixes_are_taken_off("下载记录文件损坏: "@, error, Seq::empty());
}

} // verus!
