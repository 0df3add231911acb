use catscii::error::PipelineError;
use catscii::pipeline::handle_image_reply;
use catscii::pipeline::handle_search_reply;
use catscii::pipeline::respond;
use catscii::pipeline::search_endpoint;
use catscii::pipeline::HttpReply;

fn ok_reply(body: &[u8]) -> HttpReply {
    HttpReply::Response { status: 200, body: body.to_vec() }
}

#[test]
fn success_response_shape() {
    let art = "<!DOCTYPE html><html><body><pre>cat</pre></body></html>".to_string();
    let r = respond(Ok(art.clone()));
    assert_eq!(r.status, 200);
    assert_eq!(r.content_type, "text/html; charset=utf-8");
    assert_eq!(r.body, art);
    assert!(r.body.len() > 0);
}

#[test]
fn failure_responses_uniform() {
    for e in [PipelineError::Upstream, PipelineError::Parse, PipelineError::Decode] {
        let r = respond(Err(e));
        assert_eq!(r.status, 500);
        assert_eq!(r.content_type, "text/plain; charset=utf-8");
        assert_eq!(r.body, "Something went wrong");
    }
}

#[test]
fn search_transport_failure() {
    assert_eq!(handle_search_reply(&HttpReply::Failed), Err(PipelineError::Upstream));
}

#[test]
fn search_non_success_status() {
    let reply = HttpReply::Response { status: 404, body: b"[{\"url\":\"http://a\"}]".to_vec() };
    assert_eq!(handle_search_reply(&reply), Err(PipelineError::Upstream));
    let reply = HttpReply::Response { status: 301, body: b"[{\"url\":\"http://a\"}]".to_vec() };
    assert_eq!(handle_search_reply(&reply), Err(PipelineError::Upstream));
}

#[test]
fn search_malformed_body() {
    assert_eq!(handle_search_reply(&ok_reply(b"not json")), Err(PipelineError::Parse));
    assert_eq!(handle_search_reply(&ok_reply(b"")), Err(PipelineError::Parse));
    assert_eq!(handle_search_reply(&ok_reply(b"{\"url\":\"http://a\"}")), Err(PipelineError::Parse));
}

#[test]
fn search_empty_list_fails_like_malformed() {
    let empty = handle_search_reply(&ok_reply(b"[]"));
    let malformed = handle_search_reply(&ok_reply(b"["));
    assert_eq!(empty, Err(PipelineError::Parse));
    assert_eq!(empty, malformed);
    let empty_ws = handle_search_reply(&ok_reply(b"  [ ]  "));
    assert_eq!(empty_ws, Err(PipelineError::Parse));
}

#[test]
fn search_selects_last_of_three() {
    let body = b"[{\"url\":\"http://one\"},{\"url\":\"http://two\"},{\"url\":\"http://three\"}]";
    assert_eq!(handle_search_reply(&ok_reply(body)), Ok("http://three".to_string()));
}

#[test]
fn search_single_record() {
    let body = b"[{\"url\":\"https://cdn2.thecatapi.com/images/abc.jpg\"}]";
    assert_eq!(
        handle_search_reply(&ok_reply(body)),
        Ok("https://cdn2.thecatapi.com/images/abc.jpg".to_string())
    );
}

#[test]
fn search_realistic_record() {
    let body = b"[{\"id\":\"b1s\",\"url\":\"https://cdn2.thecatapi.com/images/b1s.jpg\",\"width\":500,\"height\":333,\"breeds\":[{\"name\":\"Aegean\",\"weights\":[3.5,-2e-1]}],\"categories\":null}]";
    assert_eq!(
        handle_search_reply(&ok_reply(body)),
        Ok("https://cdn2.thecatapi.com/images/b1s.jpg".to_string())
    );
}

#[test]
fn search_tolerates_whitespace() {
    let body = b" [ { \"id\" : \"x\" ,\n\t\"url\" : \"http://a\" } ] ";
    assert_eq!(handle_search_reply(&ok_reply(body)), Ok("http://a".to_string()));
}

#[test]
fn search_unescapes_url() {
    let body = b"[{\"url\":\"http:\\/\\/a\\u0041\\n\"}]";
    assert_eq!(handle_search_reply(&ok_reply(body)), Ok("http://aA\n".to_string()));
}

#[test]
fn search_unescapes_multibyte() {
    // \u00e9 is e-acute, a two-byte character in UTF-8
    let body = b"[{\"url\":\"caf\\u00e9\"}]";
    assert_eq!(handle_search_reply(&ok_reply(body)), Ok("caf\u{e9}".to_string()));
}

#[test]
fn search_rejects_bad_records() {
    // no url member
    assert_eq!(handle_search_reply(&ok_reply(b"[{\"id\":\"x\"}]")), Err(PipelineError::Parse));
    // url is not a string
    assert_eq!(handle_search_reply(&ok_reply(b"[{\"url\":3}]")), Err(PipelineError::Parse));
    // two url members
    assert_eq!(
        handle_search_reply(&ok_reply(b"[{\"url\":\"http://a\",\"url\":\"http://b\"}]")),
        Err(PipelineError::Parse)
    );
    // a record that is not an object
    assert_eq!(handle_search_reply(&ok_reply(b"[\"http://a\"]")), Err(PipelineError::Parse));
}

#[test]
fn search_rejects_broken_syntax() {
    assert_eq!(handle_search_reply(&ok_reply(b"[{\"url\":\"http://a\"}")), Err(PipelineError::Parse));
    assert_eq!(handle_search_reply(&ok_reply(b"[{\"url\":\"http://a}]")), Err(PipelineError::Parse));
    assert_eq!(
        handle_search_reply(&ok_reply(b"[{\"url\":\"http://a\"}]junk")),
        Err(PipelineError::Parse)
    );
    assert_eq!(
        handle_search_reply(&ok_reply(b"[{\"url\":\"http://a\"},]")),
        Err(PipelineError::Parse)
    );
    // a lone surrogate escape
    assert_eq!(
        handle_search_reply(&ok_reply(b"[{\"url\":\"\\ud800\"}]")),
        Err(PipelineError::Parse)
    );
    // a raw control byte inside a string
    assert_eq!(
        handle_search_reply(&ok_reply(b"[{\"url\":\"a\x01b\"}]")),
        Err(PipelineError::Parse)
    );
}

#[test]
fn search_rejects_invalid_utf8_url() {
    let mut body = b"[{\"url\":\"".to_vec();
    body.push(0xff);
    body.extend_from_slice(b"\"}]");
    let reply = HttpReply::Response { status: 200, body };
    assert_eq!(handle_search_reply(&reply), Err(PipelineError::Parse));
}

#[test]
fn search_walks_composite_members() {
    let body =
        b"[{\"breeds\":[{\"tags\":[\"[not a bracket]\",\"{nor this}\"]},[1,2]],\"url\":\"http://a\"}]";
    assert_eq!(handle_search_reply(&ok_reply(body)), Ok("http://a".to_string()));
    let body = b"[{\"b\":{\"k\":[true,false,null,-1.5e3,{}],\"m\":[]},\"url\":\"u\"}]";
    assert_eq!(handle_search_reply(&ok_reply(body)), Ok("u".to_string()));
}

#[test]
fn search_rejects_broken_composite_members() {
    // missing commas between elements
    assert_eq!(
        handle_search_reply(&ok_reply(b"[{\"breeds\":[1 2 3],\"url\":\"u\"}]")),
        Err(PipelineError::Parse)
    );
    // a double comma
    assert_eq!(
        handle_search_reply(&ok_reply(b"[{\"a\":[1,,2],\"url\":\"u\"}]")),
        Err(PipelineError::Parse)
    );
    // a member without a value
    assert_eq!(
        handle_search_reply(&ok_reply(b"[{\"a\":{\"k\":},\"url\":\"u\"}]")),
        Err(PipelineError::Parse)
    );
    // mismatched brackets
    assert_eq!(
        handle_search_reply(&ok_reply(b"[{\"a\":[}],\"url\":\"u\"}]")),
        Err(PipelineError::Parse)
    );
    // a trailing comma
    assert_eq!(
        handle_search_reply(&ok_reply(b"[{\"a\":[1,],\"url\":\"u\"}]")),
        Err(PipelineError::Parse)
    );
}

#[test]
fn search_combines_surrogate_pairs() {
    // \ud83d\ude00 is one astral character, four bytes in UTF-8
    let body = b"[{\"url\":\"\\ud83d\\ude00\"}]";
    assert_eq!(handle_search_reply(&ok_reply(body)), Ok("\u{1f600}".to_string()));
}

#[test]
fn search_rejects_unpaired_surrogates() {
    // a high surrogate followed by an ordinary escape
    assert_eq!(
        handle_search_reply(&ok_reply(b"[{\"url\":\"\\ud83d\\u0041\"}]")),
        Err(PipelineError::Parse)
    );
    // a high surrogate followed by plain text
    assert_eq!(
        handle_search_reply(&ok_reply(b"[{\"url\":\"\\ud83dx\"}]")),
        Err(PipelineError::Parse)
    );
    // a lone low surrogate
    assert_eq!(
        handle_search_reply(&ok_reply(b"[{\"url\":\"\\udc00\"}]")),
        Err(PipelineError::Parse)
    );
}

#[test]
fn search_rejects_leading_zero_numbers() {
    assert_eq!(
        handle_search_reply(&ok_reply(b"[{\"width\":01,\"url\":\"u\"}]")),
        Err(PipelineError::Parse)
    );
    // a bare zero, a negative zero and a zero with a fraction stay legal
    assert_eq!(handle_search_reply(&ok_reply(b"[{\"width\":0,\"url\":\"u\"}]")), Ok("u".to_string()));
    assert_eq!(
        handle_search_reply(&ok_reply(b"[{\"width\":-0.5e2,\"url\":\"u\"}]")),
        Ok("u".to_string())
    );
}

#[test]
fn image_transport_failure() {
    assert_eq!(handle_image_reply(&HttpReply::Failed), Err(PipelineError::Upstream));
}

#[test]
fn image_non_success_status() {
    let reply = HttpReply::Response { status: 500, body: Vec::new() };
    assert_eq!(handle_image_reply(&reply), Err(PipelineError::Upstream));
}

#[test]
fn image_undecodable_bytes() {
    assert_eq!(handle_image_reply(&ok_reply(b"these are not image bytes")), Err(PipelineError::Decode));
    assert_eq!(handle_image_reply(&ok_reply(b"")), Err(PipelineError::Decode));
}

#[test]
fn image_zero_area_is_a_decode_error() {
    // a farbfeld file with width and height zero: the decoder takes it, but
    // a zero-area image cannot be rendered, so the pipeline must answer
    // with the decode error rather than fall over
    let mut bytes = b"farbfeld".to_vec();
    bytes.extend_from_slice(&[0u8; 8]);
    assert_eq!(handle_image_reply(&ok_reply(&bytes)), Err(PipelineError::Decode));
}

#[test]
fn image_one_pixel_farbfeld_renders() {
    // the same format with one pixel: 1x1 dimensions, one 16-bit RGBA pixel
    let mut bytes = b"farbfeld".to_vec();
    bytes.extend_from_slice(&[0, 0, 0, 1, 0, 0, 0, 1]);
    bytes.extend_from_slice(&[0xff, 0xff, 0, 0, 0, 0, 0xff, 0xff]);
    let art = handle_image_reply(&ok_reply(&bytes)).expect("a one-pixel image must render");
    assert!(art.starts_with("<!DOCTYPE html>"));
}

#[test]
fn image_decodes_and_renders() {
    let png = tiny_png();
    let r = handle_image_reply(&ok_reply(&png));
    let art = r.expect("a valid image must render");
    assert!(art.starts_with("<!DOCTYPE html>"));
    assert!(art.len() > 0);
}

#[test]
fn same_reply_same_independent_result() {
    // the decisions are functions of the reply alone: a second run of the
    // same request goes through the whole pipeline again and comes out the
    // same way
    let body: &[u8] = b"[{\"url\":\"http://one\"},{\"url\":\"http://two\"}]";
    let first = handle_search_reply(&ok_reply(body));
    let second = handle_search_reply(&ok_reply(body));
    assert_eq!(first, Ok("http://two".to_string()));
    assert_eq!(first, second);
    // the rendered document is a function of the body bytes alone as well
    let png = tiny_png();
    assert_eq!(handle_image_reply(&ok_reply(&png)), handle_image_reply(&ok_reply(&png)));
}

#[test]
fn interleaved_requests_do_not_interfere() {
    // two requests in flight hold no shared state; each answer depends on
    // its own reply only, whatever the interleaving
    let a = ok_reply(b"[{\"url\":\"http://first\"}]");
    let b = ok_reply(b"[{\"url\":\"http://second\"}]");
    let ra1 = handle_search_reply(&a);
    let rb1 = handle_search_reply(&b);
    let rb2 = handle_search_reply(&b);
    let ra2 = handle_search_reply(&a);
    assert_eq!(ra1, Ok("http://first".to_string()));
    assert_eq!(ra1, ra2);
    assert_eq!(rb1, Ok("http://second".to_string()));
    assert_eq!(rb1, rb2);
}

#[test]
fn error_messages_name_the_stage() {
    assert_eq!(PipelineError::Upstream.message(), "upstream request failed");
    assert_eq!(PipelineError::Parse.message(), "search reply could not be parsed");
    assert_eq!(PipelineError::Decode.message(), "image bytes could not be decoded");
}

#[test]
fn search_endpoint_is_fixed() {
    assert_eq!(search_endpoint(), "https://api.thecatapi.com/v1/images/search");
}

/// Encodes a 2x2 red square as a PNG in memory.
fn tiny_png() -> Vec<u8> {
    let img = image::RgbImage::from_pixel(2, 2, image::Rgb([255u8, 0u8, 0u8]));
    let dynimg = image::DynamicImage::ImageRgb8(img);
    let mut bytes: Vec<u8> = Vec::new();
    dynimg
        .write_to(&mut std::io::Cursor::new(&mut bytes), image::ImageFormat::Png)
        .expect("in-memory PNG encoding");
    bytes
}
