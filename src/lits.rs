//! The fixed byte strings of the protocol, each as a value and as a vector.
use vstd::prelude::*;

verus! {

/// `HTTP/1.1 `: the start of every status line.
pub open spec fn version_prefix() -> Seq<u8> {
    seq![72u8, 84u8, 84u8, 80u8, 47u8, 49u8, 46u8, 49u8, 32u8]
}

/// `HTTP/1.1 ` as a vector.
pub fn version_prefix_bytes() -> (r: Vec<u8>)
    ensures
        r@ == version_prefix(),
{
    let r: Vec<u8> = vec![72u8, 84u8, 84u8, 80u8, 47u8, 49u8, 46u8, 49u8, 32u8];
    assert(r@ =~= version_prefix());
    r
}

/// `200 OK`
pub open spec fn ok_text() -> Seq<u8> {
    seq![50u8, 48u8, 48u8, 32u8, 79u8, 75u8]
}

/// `200 OK` as a vector.
pub fn ok_text_bytes() -> (r: Vec<u8>)
    ensures
        r@ == ok_text(),
{
    let r: Vec<u8> = vec![50u8, 48u8, 48u8, 32u8, 79u8, 75u8];
    assert(r@ =~= ok_text());
    r
}

/// `201 Created`
pub open spec fn created_text() -> Seq<u8> {
    seq![50u8, 48u8, 49u8, 32u8, 67u8, 114u8, 101u8, 97u8, 116u8, 101u8, 100u8]
}

/// `201 Created` as a vector.
pub fn created_text_bytes() -> (r: Vec<u8>)
    ensures
        r@ == created_text(),
{
    let r: Vec<u8> = vec![50u8, 48u8, 49u8, 32u8, 67u8, 114u8, 101u8, 97u8, 116u8, 101u8, 100u8];
    assert(r@ =~= created_text());
    r
}

/// `400 Bad Request`
pub open spec fn bad_request_text() -> Seq<u8> {
    seq![52u8, 48u8, 48u8, 32u8, 66u8, 97u8, 100u8, 32u8, 82u8, 101u8, 113u8, 117u8, 101u8, 115u8, 116u8]
}

/// `400 Bad Request` as a vector.
pub fn bad_request_text_bytes() -> (r: Vec<u8>)
    ensures
        r@ == bad_request_text(),
{
    let r: Vec<u8> = vec![52u8, 48u8, 48u8, 32u8, 66u8, 97u8, 100u8, 32u8, 82u8, 101u8, 113u8, 117u8, 101u8, 115u8, 116u8];
    assert(r@ =~= bad_request_text());
    r
}

/// `404 Not Found`
pub open spec fn not_found_text() -> Seq<u8> {
    seq![52u8, 48u8, 52u8, 32u8, 78u8, 111u8, 116u8, 32u8, 70u8, 111u8, 117u8, 110u8, 100u8]
}

/// `404 Not Found` as a vector.
pub fn not_found_text_bytes() -> (r: Vec<u8>)
    ensures
        r@ == not_found_text(),
{
    let r: Vec<u8> = vec![52u8, 48u8, 52u8, 32u8, 78u8, 111u8, 116u8, 32u8, 70u8, 111u8, 117u8, 110u8, 100u8];
    assert(r@ =~= not_found_text());
    r
}

/// `500 Internal Server Error`
pub open spec fn server_error_text() -> Seq<u8> {
    seq![53u8, 48u8, 48u8, 32u8, 73u8, 110u8, 116u8, 101u8, 114u8, 110u8, 97u8, 108u8, 32u8, 83u8, 101u8, 114u8, 118u8, 101u8, 114u8, 32u8, 69u8, 114u8, 114u8, 111u8, 114u8]
}

/// `500 Internal Server Error` as a vector.
pub fn server_error_text_bytes() -> (r: Vec<u8>)
    ensures
        r@ == server_error_text(),
{
    let r: Vec<u8> = vec![53u8, 48u8, 48u8, 32u8, 73u8, 110u8, 116u8, 101u8, 114u8, 110u8, 97u8, 108u8, 32u8, 83u8, 101u8, 114u8, 118u8, 101u8, 114u8, 32u8, 69u8, 114u8, 114u8, 111u8, 114u8];
    assert(r@ =~= server_error_text());
    r
}

/// `: `: between a field's name and its value.
pub open spec fn field_sep() -> Seq<u8> {
    seq![58u8, 32u8]
}

/// `: ` as a vector.
pub fn field_sep_bytes() -> (r: Vec<u8>)
    ensures
        r@ == field_sep(),
{
    let r: Vec<u8> = vec![58u8, 32u8];
    assert(r@ =~= field_sep());
    r
}

/// `\r\n`: the end of a line.
pub open spec fn line_end() -> Seq<u8> {
    seq![13u8, 10u8]
}

/// `\r\n` as a vector.
pub fn line_end_bytes() -> (r: Vec<u8>)
    ensures
        r@ == line_end(),
{
    let r: Vec<u8> = vec![13u8, 10u8];
    assert(r@ =~= line_end());
    r
}

/// `Content-Length`
pub open spec fn content_length() -> Seq<u8> {
    seq![67u8, 111u8, 110u8, 116u8, 101u8, 110u8, 116u8, 45u8, 76u8, 101u8, 110u8, 103u8, 116u8, 104u8]
}

/// `Content-Length` as a vector.
pub fn content_length_bytes() -> (r: Vec<u8>)
    ensures
        r@ == content_length(),
{
    let r: Vec<u8> = vec![67u8, 111u8, 110u8, 116u8, 101u8, 110u8, 116u8, 45u8, 76u8, 101u8, 110u8, 103u8, 116u8, 104u8];
    assert(r@ =~= content_length());
    r
}

/// `Content-Type`
pub open spec fn content_type() -> Seq<u8> {
    seq![67u8, 111u8, 110u8, 116u8, 101u8, 110u8, 116u8, 45u8, 84u8, 121u8, 112u8, 101u8]
}

/// `Content-Type` as a vector.
pub fn content_type_bytes() -> (r: Vec<u8>)
    ensures
        r@ == content_type(),
{
    let r: Vec<u8> = vec![67u8, 111u8, 110u8, 116u8, 101u8, 110u8, 116u8, 45u8, 84u8, 121u8, 112u8, 101u8];
    assert(r@ =~= content_type());
    r
}

/// `Content-Encoding`
pub open spec fn content_encoding() -> Seq<u8> {
    seq![67u8, 111u8, 110u8, 116u8, 101u8, 110u8, 116u8, 45u8, 69u8, 110u8, 99u8, 111u8, 100u8, 105u8, 110u8, 103u8]
}

/// `Content-Encoding` as a vector.
pub fn content_encoding_bytes() -> (r: Vec<u8>)
    ensures
        r@ == content_encoding(),
{
    let r: Vec<u8> = vec![67u8, 111u8, 110u8, 116u8, 101u8, 110u8, 116u8, 45u8, 69u8, 110u8, 99u8, 111u8, 100u8, 105u8, 110u8, 103u8];
    assert(r@ =~= content_encoding());
    r
}

/// `Connection`
pub open spec fn connection() -> Seq<u8> {
    seq![67u8, 111u8, 110u8, 110u8, 101u8, 99u8, 116u8, 105u8, 111u8, 110u8]
}

/// `Connection` as a vector.
pub fn connection_bytes() -> (r: Vec<u8>)
    ensures
        r@ == connection(),
{
    let r: Vec<u8> = vec![67u8, 111u8, 110u8, 110u8, 101u8, 99u8, 116u8, 105u8, 111u8, 110u8];
    assert(r@ =~= connection());
    r
}

/// `close`
pub open spec fn close_token() -> Seq<u8> {
    seq![99u8, 108u8, 111u8, 115u8, 101u8]
}

/// `close` as a vector.
pub fn close_token_bytes() -> (r: Vec<u8>)
    ensures
        r@ == close_token(),
{
    let r: Vec<u8> = vec![99u8, 108u8, 111u8, 115u8, 101u8];
    assert(r@ =~= close_token());
    r
}

/// `text/plain`
pub open spec fn text_plain() -> Seq<u8> {
    seq![116u8, 101u8, 120u8, 116u8, 47u8, 112u8, 108u8, 97u8, 105u8, 110u8]
}

/// `text/plain` as a vector.
pub fn text_plain_bytes() -> (r: Vec<u8>)
    ensures
        r@ == text_plain(),
{
    let r: Vec<u8> = vec![116u8, 101u8, 120u8, 116u8, 47u8, 112u8, 108u8, 97u8, 105u8, 110u8];
    assert(r@ =~= text_plain());
    r
}

/// `application/octet-stream`
pub open spec fn octet_stream() -> Seq<u8> {
    seq![97u8, 112u8, 112u8, 108u8, 105u8, 99u8, 97u8, 116u8, 105u8, 111u8, 110u8, 47u8, 111u8, 99u8, 116u8, 101u8, 116u8, 45u8, 115u8, 116u8, 114u8, 101u8, 97u8, 109u8]
}

/// `application/octet-stream` as a vector.
pub fn octet_stream_bytes() -> (r: Vec<u8>)
    ensures
        r@ == octet_stream(),
{
    let r: Vec<u8> = vec![97u8, 112u8, 112u8, 108u8, 105u8, 99u8, 97u8, 116u8, 105u8, 111u8, 110u8, 47u8, 111u8, 99u8, 116u8, 101u8, 116u8, 45u8, 115u8, 116u8, 114u8, 101u8, 97u8, 109u8];
    assert(r@ =~= octet_stream());
    r
}

/// `gzip`
pub open spec fn gzip_token() -> Seq<u8> {
    seq![103u8, 122u8, 105u8, 112u8]
}

/// `gzip` as a vector.
pub fn gzip_token_bytes() -> (r: Vec<u8>)
    ensures
        r@ == gzip_token(),
{
    let r: Vec<u8> = vec![103u8, 122u8, 105u8, 112u8];
    assert(r@ =~= gzip_token());
    r
}

/// `Accept-Encoding`
pub open spec fn accept_encoding() -> Seq<u8> {
    seq![65u8, 99u8, 99u8, 101u8, 112u8, 116u8, 45u8, 69u8, 110u8, 99u8, 111u8, 100u8, 105u8, 110u8, 103u8]
}

/// `Accept-Encoding` as a vector.
pub fn accept_encoding_bytes() -> (r: Vec<u8>)
    ensures
        r@ == accept_encoding(),
{
    let r: Vec<u8> = vec![65u8, 99u8, 99u8, 101u8, 112u8, 116u8, 45u8, 69u8, 110u8, 99u8, 111u8, 100u8, 105u8, 110u8, 103u8];
    assert(r@ =~= accept_encoding());
    r
}

/// `User-Agent`
pub open spec fn user_agent() -> Seq<u8> {
    seq![85u8, 115u8, 101u8, 114u8, 45u8, 65u8, 103u8, 101u8, 110u8, 116u8]
}

/// `User-Agent` as a vector.
pub fn user_agent_bytes() -> (r: Vec<u8>)
    ensures
        r@ == user_agent(),
{
    let r: Vec<u8> = vec![85u8, 115u8, 101u8, 114u8, 45u8, 65u8, 103u8, 101u8, 110u8, 116u8];
    assert(r@ =~= user_agent());
    r
}

/// `/`
pub open spec fn root_path() -> Seq<u8> {
    seq![47u8]
}

/// `/` as a vector.
pub fn root_path_bytes() -> (r: Vec<u8>)
    ensures
        r@ == root_path(),
{
    let r: Vec<u8> = vec![47u8];
    assert(r@ =~= root_path());
    r
}

/// `/echo/`
pub open spec fn echo_prefix() -> Seq<u8> {
    seq![47u8, 101u8, 99u8, 104u8, 111u8, 47u8]
}

/// `/user-agent`
pub open spec fn user_agent_path() -> Seq<u8> {
    seq![47u8, 117u8, 115u8, 101u8, 114u8, 45u8, 97u8, 103u8, 101u8, 110u8, 116u8]
}

/// `/user-agent` as a vector.
pub fn user_agent_path_bytes() -> (r: Vec<u8>)
    ensures
        r@ == user_agent_path(),
{
    let r: Vec<u8> = vec![47u8, 117u8, 115u8, 101u8, 114u8, 45u8, 97u8, 103u8, 101u8, 110u8, 116u8];
    assert(r@ =~= user_agent_path());
    r
}

/// `/files/`
pub open spec fn files_prefix() -> Seq<u8> {
    seq![47u8, 102u8, 105u8, 108u8, 101u8, 115u8, 47u8]
}

/// `/files/` as a vector.
pub fn files_prefix_bytes() -> (r: Vec<u8>)
    ensures
        r@ == files_prefix(),
{
    let r: Vec<u8> = vec![47u8, 102u8, 105u8, 108u8, 101u8, 115u8, 47u8];
    assert(r@ =~= files_prefix());
    r
}

/// `GET`
pub open spec fn get_method() -> Seq<u8> {
    seq![71u8, 69u8, 84u8]
}

/// `GET` as a vector.
pub fn get_method_bytes() -> (r: Vec<u8>)
    ensures
        r@ == get_method(),
{
    let r: Vec<u8> = vec![71u8, 69u8, 84u8];
    assert(r@ =~= get_method());
    r
}

/// `POST`
pub open spec fn post_method() -> Seq<u8> {
    seq![80u8, 79u8, 83u8, 84u8]
}

/// `POST` as a vector.
pub fn post_method_bytes() -> (r: Vec<u8>)
    ensures
        r@ == post_method(),
{
    let r: Vec<u8> = vec![80u8, 79u8, 83u8, 84u8];
    assert(r@ =~= post_method());
    r
}

/// `/tmp/`: the file root used when none is configured.
pub open spec fn default_root() -> Seq<u8> {
    seq![47u8, 116u8, 109u8, 112u8, 47u8]
}

/// `/tmp/` as a vector.
pub fn default_root_bytes() -> (r: Vec<u8>)
    ensures
        r@ == default_root(),
{
    let r: Vec<u8> = vec![47u8, 116u8, 109u8, 112u8, 47u8];
    assert(r@ =~= default_root());
    r
}

} // verus!
