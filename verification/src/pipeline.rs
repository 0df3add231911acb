//! The request pipeline's decisions: what each upstream reply leads to, and
//! what response the service writes back.
//!
//! The network itself stays outside the library. Whatever performs the two
//! outbound calls hands in an [`HttpReply`] — plain values — and receives
//! either the next step's input or the error kind.

use crate::collab::art_of;
use crate::collab::decode_and_render;
use crate::collab::image_decodes;
use crate::collab::utf8_to_string;
use crate::error::PipelineError;
use crate::json::parse_search;
use crate::json::spec_parse_search;
use vstd::prelude::*;
use vstd::utf8::decode_utf8;
use vstd::utf8::valid_utf8;

verus! {

/// The address of the search endpoint.
pub fn search_endpoint() -> (r: &'static str)
    ensures
        r@ == spec_search_endpoint(),
{
    "https://api.thecatapi.com/v1/images/search"
}

pub open spec fn spec_search_endpoint() -> Seq<char> {
    "https://api.thecatapi.com/v1/images/search"@
}

/// What one outbound HTTP call came to, as plain values.
pub enum HttpReply {
    /// No HTTP response at all: the connection failed or timed out.
    Failed,
    /// A response, with its status code and its raw body bytes.
    Response { status: u16, body: Vec<u8> },
}

/// Whether a status code counts as success.
pub open spec fn is_success(status: u16) -> bool {
    200 <= status <= 299
}

/// What the search step owes for a given reply: the bytes of the selected
/// image URL — deliberately the last record's — or the error kind.
pub open spec fn spec_handle_search(reply: HttpReply) -> Result<Seq<u8>, PipelineError> {
    match reply {
        HttpReply::Failed => Err(PipelineError::Upstream),
        HttpReply::Response { status, body } => {
            if !is_success(status) {
                Err(PipelineError::Upstream)
            } else {
                match spec_parse_search(body@) {
                    None => Err(PipelineError::Parse),
                    Some(urls) => {
                        if urls.len() == 0 {
                            Err(PipelineError::Parse)
                        } else if !valid_utf8(urls.last()) {
                            Err(PipelineError::Parse)
                        } else {
                            Ok(urls.last())
                        }
                    },
                }
            }
        },
    }
}

/// Decides the search step: checks the status, parses the body, and selects
/// the last record's URL.
pub fn handle_search_reply(reply: &HttpReply) -> (r: Result<String, PipelineError>)
    ensures
        r matches Err(e) ==> spec_handle_search(*reply) == Err::<Seq<u8>, PipelineError>(e),
        r matches Ok(url) ==> spec_handle_search(*reply) matches Ok(b) && url@ == decode_utf8(b),
{
    match reply {
        HttpReply::Failed => Err(PipelineError::Upstream),
        HttpReply::Response { status, body } => {
            if !(200 <= *status && *status <= 299) {
                return Err(PipelineError::Upstream);
            }
            match parse_search(body) {
                None => Err(PipelineError::Parse),
                Some(urls) => {
                    if urls.len() == 0 {
                        return Err(PipelineError::Parse);
                    }
                    let mut urls = urls;
                    let ghost all = urls.deep_view();
                    let last = urls.pop().unwrap();
                    proof {
                        assert(all.last() == all[all.len() - 1]);
                        assert(last@ == all.last());
                    }
                    match utf8_to_string(last) {
                        None => Err(PipelineError::Parse),
                        Some(url) => Ok(url),
                    }
                },
            }
        },
    }
}

/// What the image step owes for a given reply: the ASCII-art document
/// rendered from the fetched bytes, or the error kind that stops them.
pub open spec fn spec_handle_image(reply: HttpReply) -> Result<Seq<char>, PipelineError> {
    match reply {
        HttpReply::Failed => Err(PipelineError::Upstream),
        HttpReply::Response { status, body } => {
            if !is_success(status) {
                Err(PipelineError::Upstream)
            } else if !image_decodes(body@) {
                Err(PipelineError::Decode)
            } else {
                Ok(art_of(body@))
            }
        },
    }
}

/// Decides the image step: checks the status, decodes the bytes, and renders
/// the ASCII-art document — exactly the one the body's bytes stand for.
pub fn handle_image_reply(reply: &HttpReply) -> (r: Result<String, PipelineError>)
    ensures
        r matches Err(e) ==> spec_handle_image(*reply) == Err::<Seq<char>, PipelineError>(e),
        r matches Ok(art) ==> spec_handle_image(*reply) == Ok::<Seq<char>, PipelineError>(art@),
        r matches Ok(art) ==> art@.len() >= 15 && art@.subrange(0, 15) == "<!DOCTYPE html>"@,
{
    match reply {
        HttpReply::Failed => Err(PipelineError::Upstream),
        HttpReply::Response { status, body } => {
            if !(200 <= *status && *status <= 299) {
                return Err(PipelineError::Upstream);
            }
            match decode_and_render(body) {
                None => Err(PipelineError::Decode),
                Some(art) => Ok(art),
            }
        },
    }
}

/// The response the service writes back for one request.
pub struct HttpResponse {
    pub status: u16,
    pub content_type: String,
    pub body: String,
}

/// The status owed for a pipeline outcome.
pub open spec fn spec_status_of(outcome: Result<Seq<char>, PipelineError>) -> u16 {
    match outcome {
        Ok(_) => 200u16,
        Err(_) => 500u16,
    }
}

/// The body owed for a pipeline outcome: the rendered document on success,
/// the one generic line on any failure.
pub open spec fn spec_body_of(outcome: Result<Seq<char>, PipelineError>) -> Seq<char> {
    match outcome {
        Ok(art) => art,
        Err(_) => "Something went wrong"@,
    }
}

/// The content type owed for a pipeline outcome.
pub open spec fn spec_content_type_of(outcome: Result<Seq<char>, PipelineError>) -> Seq<char> {
    match outcome {
        Ok(_) => "text/html; charset=utf-8"@,
        Err(_) => "text/plain; charset=utf-8"@,
    }
}

/// A pipeline outcome with the art document taken by its characters.
pub open spec fn outcome_view(o: Result<String, PipelineError>) -> Result<
    Seq<char>,
    PipelineError,
> {
    match o {
        Ok(s) => Ok(s@),
        Err(e) => Err(e),
    }
}

/// Assembles the response for a pipeline outcome.
pub fn respond(outcome: Result<String, PipelineError>) -> (r: HttpResponse)
    ensures
        r.status == spec_status_of(outcome_view(outcome)),
        r.body@ == spec_body_of(outcome_view(outcome)),
        r.content_type@ == spec_content_type_of(outcome_view(outcome)),
{
    match outcome {
        Ok(art) => HttpResponse {
            status: 200,
            content_type: "text/html; charset=utf-8".to_owned(),
            body: art,
        },
        Err(_) => HttpResponse {
            status: 500,
            content_type: "text/plain; charset=utf-8".to_owned(),
            body: "Something went wrong".to_owned(),
        },
    }
}

/// Every successful run answers with status 200, the HTML content type, and
/// the rendered document itself as the body — non-empty whenever the
/// document is.
pub proof fn lemma_success_response(art: Seq<char>)
    ensures
        spec_status_of(Ok::<Seq<char>, PipelineError>(art)) == 200,
        spec_body_of(Ok::<Seq<char>, PipelineError>(art)) == art,
        spec_content_type_of(Ok::<Seq<char>, PipelineError>(art)) == "text/html; charset=utf-8"@,
        art.len() > 0 ==> spec_body_of(Ok::<Seq<char>, PipelineError>(art)).len() > 0,
{
}

/// Every failure, whichever of the three kinds it is, answers with status
/// 500 and the one fixed plain-text line; no internal detail reaches the
/// client, and no two kinds can be told apart from the response.
pub proof fn lemma_failure_uniform(e: PipelineError)
    ensures
        spec_status_of(Err::<Seq<char>, PipelineError>(e)) == 500,
        spec_body_of(Err::<Seq<char>, PipelineError>(e)) == "Something went wrong"@,
        spec_content_type_of(Err::<Seq<char>, PipelineError>(e)) == "text/plain; charset=utf-8"@,
        forall|e2: PipelineError|
            spec_status_of(Err::<Seq<char>, PipelineError>(e2)) == spec_status_of(
                Err::<Seq<char>, PipelineError>(e),
            ) && spec_body_of(Err::<Seq<char>, PipelineError>(e2)) == spec_body_of(
                Err::<Seq<char>, PipelineError>(e),
            ),
{
}

/// A search reply whose body lists no record fails exactly as a malformed
/// body does: the same parse error, and no URL is selected.
pub proof fn lemma_empty_like_malformed(status: u16, empty_body: Vec<u8>, bad_body: Vec<u8>)
    requires
        is_success(status),
        spec_parse_search(empty_body@) == Some(Seq::<Seq<u8>>::empty()),
        spec_parse_search(bad_body@) is None,
    ensures
        spec_handle_search(HttpReply::Response { status, body: empty_body }) == Err::<
            Seq<u8>,
            PipelineError,
        >(PipelineError::Parse),
        spec_handle_search(HttpReply::Response { status, body: bad_body }) == Err::<
            Seq<u8>,
            PipelineError,
        >(PipelineError::Parse),
{
}

/// With N > 0 records parsed from a successful search reply, the URL handed
/// on is the one at index N - 1: the last record's, deterministically.
pub proof fn lemma_selects_last(status: u16, body: Vec<u8>, urls: Seq<Seq<u8>>)
    requires
        is_success(status),
        spec_parse_search(body@) == Some(urls),
        urls.len() > 0,
        valid_utf8(urls[urls.len() - 1]),
    ensures
        spec_handle_search(HttpReply::Response { status, body }) == Ok::<Seq<u8>, PipelineError>(
            urls[urls.len() - 1],
        ),
{
}

} // verus!

