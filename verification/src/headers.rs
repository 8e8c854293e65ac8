//! HTTP headers.

use vstd::prelude::*;

verus! {

/// The headers that replies set.
#[derive(Clone, Copy, Debug, PartialEq, Eq, Structural)]
pub enum HeaderName {
    AccessControlAllowOrigin,
    AccessControlAllowCredentials,
    AccessControlAllowMethods,
    AccessControlAllowHeaders,
    AccessControlMaxAge,
    Vary,
    ContentType,
    CacheControl,
    Connection,
}

/// A header and its value.
#[derive(Clone, Debug, PartialEq, Eq)]
pub struct Header {
    pub name: HeaderName,
    pub value: String,
}

/// The contents of a `Header`.
#[verifier::ext_equal]
pub struct HeaderView {
    pub name: HeaderName,
    pub value: Seq<char>,
}

impl View for Header {
    type V = HeaderView;

    open spec fn view(&self) -> HeaderView {
        HeaderView { name: self.name, value: self.value@ }
    }
}

/// The contents of a list of headers.
pub open spec fn header_views(headers: Seq<Header>) -> Seq<HeaderView> {
    headers.map_values(|h: Header| h@)
}

/// The value that a reply has for `name` once `headers` have been set one after the
/// other, each in the place of an earlier one of its name.
pub open spec fn value_of(headers: Seq<HeaderView>, name: HeaderName) -> Option<Seq<char>>
    decreases headers.len(),
{
    if headers.len() == 0 {
        None
    } else if headers.last().name == name {
        Some(headers.last().value)
    } else {
        value_of(headers.drop_last(), name)
    }
}

/// A header as a contract names it.
pub open spec fn header_view(name: HeaderName, value: Seq<char>) -> HeaderView {
    HeaderView { name, value }
}

/// The header `name` with the value `value`.
pub fn header(name: HeaderName, value: &str) -> (r: Header)
    ensures
        r@ == header_view(name, value@),
{
    Header { name, value: value.to_string() }
}

/// Whether a byte is a visible character of ASCII, a blank or a tab.
pub open spec fn visible_ascii(b: u8) -> bool {
    32 <= b < 127 || b == 9
}

/// Whether a byte may stand in the value of a header.
pub open spec fn header_byte(b: u8) -> bool {
    (b >= 32 && b != 127) || b == 9
}

/// The text of the value of a header, which has one where all its bytes are visible.
pub open spec fn header_text(bytes: Seq<u8>) -> Option<Seq<char>> {
    if forall|i: int| 0 <= i < bytes.len() ==> visible_ascii(#[trigger] bytes[i]) {
        Some(Seq::new(bytes.len(), |i: int| bytes[i] as char))
    } else {
        None
    }
}

/// `HeaderValue::to_str` gives the text of the value of a header where all its bytes
/// are visible ASCII or tabs, and an error otherwise. The value is made of its bytes by
/// `HeaderValue::from_bytes`, which refuses none that `to_str` accepts.
#[verifier::external_body]
pub(crate) fn header_to_str(value: &[u8]) -> (r: Option<String>)
    ensures
        crate::types::optional_text(r) == header_text(value@),
{
    let value = salvo::http::HeaderValue::from_bytes(value).ok()?;
    value.to_str().ok().map(str::to_string)
}

/// `HeaderValue::from_str` accepts a text as the value of a header where each of its
/// bytes is a tab or neither a control character nor the one for deletion.
#[verifier::external_body]
pub(crate) fn is_header_value(text: &str) -> (r: bool)
    ensures
        r == (forall|i: int|
            0 <= i < vstd::utf8::encode_utf8(text@).len() ==> header_byte(
                #[trigger] vstd::utf8::encode_utf8(text@)[i],
            )),
{
    salvo::http::HeaderValue::from_str(text).is_ok()
}

/// The headers of a reply that streams an answer.
pub open spec fn stream_header_views() -> Seq<HeaderView> {
    seq![
        header_view(HeaderName::ContentType, "text/event-stream"@),
        header_view(HeaderName::CacheControl, "no-cache"@),
        header_view(HeaderName::Connection, "keep-alive"@),
    ]
}

/// The headers of a reply that streams an answer.
pub fn stream_headers() -> (r: Vec<Header>)
    ensures
        header_views(r@) == stream_header_views(),
{
    let mut out: Vec<Header> = Vec::new();
    out.push(header(HeaderName::ContentType, "text/event-stream"));
    out.push(header(HeaderName::CacheControl, "no-cache"));
    out.push(header(HeaderName::Connection, "keep-alive"));
    assert(header_views(out@) =~= stream_header_views());
    out
}

} // verus!
