//! A feed held in memory: gzip data that decodes to the text of one of the
//! two formats.
//!
//! This is for feeds that are small enough to hold whole, such as fixtures.
//! A load does not come through here: its driver decompresses each feed as
//! it arrives and hands the lines to the machine one at a time.

use crate::contents::{all_pairs, parse_contents};
use crate::ingest::Failure;
use crate::package::{file_views, package_views, Package, PackageFile};
use crate::stanza::{fresh, parse_packages, records};
use crate::text::lines_of;
use std::io::Read;
use vstd::prelude::*;
use vstd::utf8::{decode_utf8, valid_utf8};

verus! {

/// What `flate2::read::GzDecoder` reads out of `data` up to its end: the
/// content of the first gzip member, or nothing where the decoder reports an
/// error (no gzip header, a stream that breaks off, a wrong checksum or
/// length).
pub uninterp spec fn gzip_content(data: Seq<u8>) -> Option<Seq<u8>>;

/// The text that a feed holds: the content of its gzip data, read as UTF-8.
/// A feed that does not decode holds none.
pub open spec fn feed_text(data: Seq<u8>) -> Option<Seq<char>> {
    match gzip_content(data) {
        Some(content) => if valid_utf8(content) {
            Some(decode_utf8(content))
        } else {
            None
        },
        None => None,
    }
}

/// Reads `data` through `flate2::read::GzDecoder` with `read_to_end`. The
/// result is the decoder's output where it reaches the end of the member
/// without an error, and nothing where it reports one.
#[verifier::external_body]
fn inflate(data: &[u8]) -> (content: Option<Vec<u8>>)
    ensures
        match content {
            Some(bytes) => gzip_content(data@) == Some(bytes@),
            None => gzip_content(data@) is None,
        },
{
    let mut content = Vec::new();
    match flate2::read::GzDecoder::new(data).read_to_end(&mut content) {
        Ok(_) => Some(content),
        Err(_) => None,
    }
}

/// Converts bytes with `String::from_utf8`: the text that the bytes encode
/// where they are well-formed UTF-8, nothing where they are not.
#[verifier::external_body]
fn utf8_text(bytes: Vec<u8>) -> (text: Option<String>)
    ensures
        match text {
            Some(text) => valid_utf8(bytes@) && text@ == decode_utf8(bytes@),
            None => !valid_utf8(bytes@),
        },
{
    match String::from_utf8(bytes) {
        Ok(text) => Some(text),
        Err(_) => None,
    }
}

/// The text of a feed whose gzip data decoded to `content`, or the failure
/// to report where it did not decode or is not UTF-8.
pub fn content_text(content: Option<Vec<u8>>) -> (out: Result<String, Failure>)
    ensures
        match out {
            Ok(text) => content matches Some(bytes) && valid_utf8(bytes@) && text@ == decode_utf8(
                bytes@,
            ),
            Err(failure) => failure is Decode && !(content matches Some(bytes) && valid_utf8(
                bytes@,
            )),
        },
{
    match content {
        Some(bytes) => match utf8_text(bytes) {
            Some(text) => Ok(text),
            None => Err(Failure::Decode),
        },
        None => Err(Failure::Decode),
    }
}

/// Decodes a feed to its text.
pub fn read_feed(data: &[u8]) -> (out: Result<String, Failure>)
    ensures
        match out {
            Ok(text) => feed_text(data@) == Some(text@),
            Err(failure) => failure is Decode && feed_text(data@) is None,
        },
{
    content_text(inflate(data))
}

/// Reads the packages of a feed of stanzas, for the archive component
/// `source`.
pub fn read_package_feed(source: &str, data: &[u8]) -> (out: Result<Vec<Package>, Failure>)
    ensures
        match out {
            Ok(list) => feed_text(data@) matches Some(text) && package_views(list@) == records(
                fresh(source@),
                lines_of(text),
            ),
            Err(failure) => failure is Decode && feed_text(data@) is None,
        },
{
    match read_feed(data) {
        Ok(text) => Ok(parse_packages(source, text.as_str())),
        Err(failure) => Err(failure),
    }
}

/// Reads the files of a feed of file names.
pub fn read_contents_feed(data: &[u8]) -> (out: Result<Vec<PackageFile>, Failure>)
    ensures
        match out {
            Ok(list) => feed_text(data@) matches Some(text) && file_views(list@) == all_pairs(
                lines_of(text),
            ),
            Err(failure) => failure is Decode && feed_text(data@) is None,
        },
{
    match read_feed(data) {
        Ok(text) => Ok(parse_contents(text.as_str())),
        Err(failure) => Err(failure),
    }
}

} // verus!
