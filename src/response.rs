//! Building the bytes of an HTTP response.

use vstd::prelude::*;

use crate::bytes::{append_all, decimal, decimal_digits};

verus! {

/// The statuses a reply can carry.
#[derive(Clone, Copy, Debug, PartialEq, Eq, Structural)]
pub enum StatusCode {
    Success,
    NotFound,
    Created,
    InternalServerError,
}

/// Status text of `Success`.
pub open spec fn ok_text() -> Seq<u8> {
    seq![50u8, 48u8, 48u8, 32u8, 79u8, 107u8]
}

fn ok_text_bytes() -> (r: Vec<u8>)
    ensures
        r@ == ok_text(),
{
    let r: Vec<u8> = vec![50u8, 48u8, 48u8, 32u8, 79u8, 107u8];
    assert(r@ =~= ok_text());
    r
}

/// Status text of `NotFound`.
pub open spec fn not_found_text() -> Seq<u8> {
    seq![52u8, 48u8, 52u8, 32u8, 78u8, 111u8, 116u8, 32u8, 70u8, 111u8, 117u8, 110u8, 100u8]
}

fn not_found_text_bytes() -> (r: Vec<u8>)
    ensures
        r@ == not_found_text(),
{
    let r: Vec<u8> = vec![52u8, 48u8, 52u8, 32u8, 78u8, 111u8, 116u8, 32u8, 70u8, 111u8, 117u8, 110u8, 100u8];
    assert(r@ =~= not_found_text());
    r
}

/// Status text of `Created`.
pub open spec fn created_text() -> Seq<u8> {
    seq![50u8, 48u8, 49u8, 32u8, 67u8, 114u8, 101u8, 97u8, 116u8, 101u8, 100u8]
}

fn created_text_bytes() -> (r: Vec<u8>)
    ensures
        r@ == created_text(),
{
    let r: Vec<u8> = vec![50u8, 48u8, 49u8, 32u8, 67u8, 114u8, 101u8, 97u8, 116u8, 101u8, 100u8];
    assert(r@ =~= created_text());
    r
}

/// Status text of `InternalServerError`.
pub open spec fn server_error_text() -> Seq<u8> {
    seq![53u8, 48u8, 48u8, 32u8, 73u8, 110u8, 116u8, 101u8, 114u8, 110u8, 97u8, 108u8, 32u8, 83u8, 101u8, 114u8, 118u8, 101u8, 114u8, 32u8, 69u8, 114u8, 114u8, 111u8, 114u8]
}

fn server_error_text_bytes() -> (r: Vec<u8>)
    ensures
        r@ == server_error_text(),
{
    let r: Vec<u8> = vec![53u8, 48u8, 48u8, 32u8, 73u8, 110u8, 116u8, 101u8, 114u8, 110u8, 97u8, 108u8, 32u8, 83u8, 101u8, 114u8, 118u8, 101u8, 114u8, 32u8, 69u8, 114u8, 114u8, 111u8, 114u8];
    assert(r@ =~= server_error_text());
    r
}

/// Label of the content-type header.
pub open spec fn content_type_label() -> Seq<u8> {
    seq![67u8, 111u8, 110u8, 116u8, 101u8, 110u8, 116u8, 45u8, 84u8, 121u8, 112u8, 101u8, 58u8, 32u8]
}

fn content_type_label_bytes() -> (r: Vec<u8>)
    ensures
        r@ == content_type_label(),
{
    let r: Vec<u8> = vec![67u8, 111u8, 110u8, 116u8, 101u8, 110u8, 116u8, 45u8, 84u8, 121u8, 112u8, 101u8, 58u8, 32u8];
    assert(r@ =~= content_type_label());
    r
}

/// Label of the content-length header.
pub open spec fn content_length_label() -> Seq<u8> {
    seq![67u8, 111u8, 110u8, 116u8, 101u8, 110u8, 116u8, 45u8, 76u8, 101u8, 110u8, 103u8, 116u8, 104u8, 58u8, 32u8]
}

fn content_length_label_bytes() -> (r: Vec<u8>)
    ensures
        r@ == content_length_label(),
{
    let r: Vec<u8> = vec![67u8, 111u8, 110u8, 116u8, 101u8, 110u8, 116u8, 45u8, 76u8, 101u8, 110u8, 103u8, 116u8, 104u8, 58u8, 32u8];
    assert(r@ =~= content_length_label());
    r
}

/// A line terminator.
pub open spec fn crlf() -> Seq<u8> {
    seq![13u8, 10u8]
}

fn crlf_bytes() -> (r: Vec<u8>)
    ensures
        r@ == crlf(),
{
    let r: Vec<u8> = vec![13u8, 10u8];
    assert(r@ =~= crlf());
    r
}

/// Content type of text replies.
pub open spec fn text_plain() -> Seq<u8> {
    seq![116u8, 101u8, 120u8, 116u8, 47u8, 112u8, 108u8, 97u8, 105u8, 110u8]
}

fn text_plain_bytes() -> (r: Vec<u8>)
    ensures
        r@ == text_plain(),
{
    let r: Vec<u8> = vec![116u8, 101u8, 120u8, 116u8, 47u8, 112u8, 108u8, 97u8, 105u8, 110u8];
    assert(r@ =~= text_plain());
    r
}

/// Content type of file contents.
pub open spec fn octet_stream() -> Seq<u8> {
    seq![97u8, 112u8, 112u8, 108u8, 105u8, 99u8, 97u8, 116u8, 105u8, 111u8, 110u8, 47u8, 111u8, 99u8, 116u8, 101u8, 116u8, 45u8, 115u8, 116u8, 114u8, 101u8, 97u8, 109u8]
}

fn octet_stream_bytes() -> (r: Vec<u8>)
    ensures
        r@ == octet_stream(),
{
    let r: Vec<u8> = vec![97u8, 112u8, 112u8, 108u8, 105u8, 99u8, 97u8, 116u8, 105u8, 111u8, 110u8, 47u8, 111u8, 99u8, 116u8, 101u8, 116u8, 45u8, 115u8, 116u8, 114u8, 101u8, 97u8, 109u8];
    assert(r@ =~= octet_stream());
    r
}

pub open spec fn status_text(code: StatusCode) -> Seq<u8> {
    match code {
        StatusCode::Success => ok_text(),
        StatusCode::NotFound => not_found_text(),
        StatusCode::Created => created_text(),
        StatusCode::InternalServerError => server_error_text(),
    }
}

/// The full response: status line, content type, content length (the body's
/// byte count), a blank line, then the body.
pub open spec fn response_spec(version: Seq<u8>, code: StatusCode, body: Seq<u8>, content_type: Seq<u8>) -> Seq<u8> {
    version + seq![32u8] + status_text(code) + crlf() + content_type_label() + content_type + crlf()
        + content_length_label() + decimal(body.len()) + crlf() + crlf() + body
}

fn status_bytes(code: StatusCode) -> (r: Vec<u8>)
    ensures
        r@ == status_text(code),
{
    match code {
        StatusCode::Success => ok_text_bytes(),
        StatusCode::NotFound => not_found_text_bytes(),
        StatusCode::Created => created_text_bytes(),
        StatusCode::InternalServerError => server_error_text_bytes(),
    }
}

/// The response bytes for `body` under the given status and content type.
pub fn base_response(version: &[u8], code: StatusCode, body: &[u8], content_type: &[u8]) -> (r: Vec<u8>)
    ensures
        r@ == response_spec(version@, code, body@, content_type@),
{
    let mut r: Vec<u8> = Vec::new();
    append_all(&mut r, version);
    r.push(32u8);
    append_all(&mut r, status_bytes(code).as_slice());
    let eol = crlf_bytes();
    append_all(&mut r, eol.as_slice());
    append_all(&mut r, content_type_label_bytes().as_slice());
    append_all(&mut r, content_type);
    append_all(&mut r, eol.as_slice());
    append_all(&mut r, content_length_label_bytes().as_slice());
    append_all(&mut r, decimal_digits(body.len()).as_slice());
    append_all(&mut r, eol.as_slice());
    append_all(&mut r, eol.as_slice());
    append_all(&mut r, body);
    assert(r@ =~= response_spec(version@, code, body@, content_type@));
    r
}

/// A `text/plain` response.
pub fn send(version: &[u8], code: StatusCode, body: &[u8]) -> (r: Vec<u8>)
    ensures
        r@ == response_spec(version@, code, body@, text_plain()),
{
    base_response(version, code, body, text_plain_bytes().as_slice())
}

/// An `application/octet-stream` response carrying a file's contents.
pub fn send_file_content(version: &[u8], code: StatusCode, contents: &[u8]) -> (r: Vec<u8>)
    ensures
        r@ == response_spec(version@, code, contents@, octet_stream()),
{
    base_response(version, code, contents, octet_stream_bytes().as_slice())
}

} // verus!
