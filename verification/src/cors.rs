//! Access from pages of other origins.

use vstd::prelude::*;

use crate::headers::{
    header, header_byte, header_text, header_to_str, header_view, header_views, is_header_value, value_of,
    visible_ascii, Header, HeaderName, HeaderView,
};
use crate::text::same;

verus! {

/// The origin of a request as its text: `null` where it names none, or none that is
/// text.
pub open spec fn origin_text(origin: Option<Seq<u8>>) -> Seq<char> {
    match origin {
        Some(bytes) => match header_text(bytes) {
            Some(text) => text,
            None => "null"@,
        },
        None => "null"@,
    }
}

/// The headers that every reply has.
pub open spec fn common_headers(origin: Option<Seq<u8>>) -> Seq<HeaderView> {
    seq![
        header_view(HeaderName::AccessControlAllowOrigin, origin_text(origin)),
        header_view(HeaderName::AccessControlAllowCredentials, "true"@),
        header_view(HeaderName::Vary, "Origin"@),
    ]
}

/// The headers that the reply to a preflight request has in addition. Its `Vary` takes
/// the place of the common one, and names `Origin` with the others.
pub open spec fn preflight_headers() -> Seq<HeaderView> {
    seq![
        header_view(
            HeaderName::AccessControlAllowMethods,
            "GET, POST, OPTIONS, PUT, DELETE, PATCH, HEAD"@,
        ),
        header_view(
            HeaderName::AccessControlAllowHeaders,
            "Authorization, Content-Type, User-Agent, Accept, Origin, X-Requested-With, Access-Control-Request-Method, Access-Control-Request-Headers, Accept-Encoding, Accept-Language, Cache-Control, Connection, Referer, Sec-Fetch-Dest, Sec-Fetch-Mode, Sec-Fetch-Site, Pragma, X-Api-Key"@,
        ),
        header_view(HeaderName::AccessControlMaxAge, "3600"@),
        header_view(
            HeaderName::Vary,
            "Origin, Access-Control-Request-Method, Access-Control-Request-Headers"@,
        ),
    ]
}

/// What is done with a request: the headers to set on the reply, in this order, the
/// status code of the reply, and whether the request is handled further.
#[derive(Clone, Debug, PartialEq, Eq)]
pub struct CorsOutcome {
    pub headers: Vec<Header>,
    pub status: Option<u16>,
    pub proceed: bool,
}

/// Adds the headers of the reply to a preflight request, and returns its status code.
fn handle_preflight_request(headers: &mut Vec<Header>) -> (r: u16)
    ensures
        r == 204,
        header_views(final(headers)@) == header_views(old(headers)@) + preflight_headers(),
{
    headers.push(
        header(
            HeaderName::AccessControlAllowMethods,
            "GET, POST, OPTIONS, PUT, DELETE, PATCH, HEAD",
        ),
    );
    headers.push(
        header(
            HeaderName::AccessControlAllowHeaders,
            "Authorization, Content-Type, User-Agent, Accept, Origin, X-Requested-With, Access-Control-Request-Method, Access-Control-Request-Headers, Accept-Encoding, Accept-Language, Cache-Control, Connection, Referer, Sec-Fetch-Dest, Sec-Fetch-Mode, Sec-Fetch-Site, Pragma, X-Api-Key",
        ),
    );
    headers.push(header(HeaderName::AccessControlMaxAge, "3600"));
    headers.push(
        header(
            HeaderName::Vary,
            "Origin, Access-Control-Request-Method, Access-Control-Request-Headers",
        ),
    );
    assert(header_views(headers@) =~= header_views(old(headers)@) + preflight_headers());
    204
}

/// The text of a header is one that a header may have.
proof fn lemma_text_is_value(bytes: Seq<u8>)
    requires
        header_text(bytes) is Some,
    ensures
        forall|i: int|
            0 <= i < vstd::utf8::encode_utf8(header_text(bytes)->0).len() ==> header_byte(
                #[trigger] vstd::utf8::encode_utf8(header_text(bytes)->0)[i],
            ),
{
    let text = header_text(bytes)->0;
    assert forall|i: int| 0 <= i < text.len() implies 0 <= #[trigger] text[i] as int <= 0x7f by {
        assert(visible_ascii(bytes[i]));
    }
    vstd::utf8::is_ascii_chars_encode_utf8(text);
    assert forall|i: int| 0 <= i < vstd::utf8::encode_utf8(text).len() implies header_byte(
        #[trigger] vstd::utf8::encode_utf8(text)[i],
    ) by {
        assert(visible_ascii(bytes[i]));
    }
}

/// What is done with a request, by its method and the value of its `Origin` header. A
/// request with the method `OPTIONS` asks beforehand what is allowed, and is answered
/// at once.
pub fn cors_middleware(method: &str, origin: Option<&[u8]>) -> (r: CorsOutcome)
    ensures
        ({
            let origin_bytes = match origin {
                Some(bytes) => Some(bytes@),
                None => None,
            };
            let preflight = method@ == "OPTIONS"@;
            &&& header_views(r.headers@) == (if preflight {
                common_headers(origin_bytes) + preflight_headers()
            } else {
                common_headers(origin_bytes)
            })
            &&& r.status == (if preflight { Some(204u16) } else { None })
            &&& r.proceed == !preflight
        }),
{
    let ghost origin_bytes = match origin {
        Some(bytes) => Some(bytes@),
        None => None,
    };
    let text = match origin {
        Some(bytes) => match header_to_str(bytes) {
            Some(text) => {
                proof {
                    lemma_text_is_value(bytes@);
                }
                if is_header_value(text.as_str()) {
                    text
                } else {
                    "null".to_string()
                }
            },
            None => "null".to_string(),
        },
        None => "null".to_string(),
    };
    let mut headers: Vec<Header> = Vec::new();
    headers.push(header(HeaderName::AccessControlAllowOrigin, text.as_str()));
    headers.push(header(HeaderName::AccessControlAllowCredentials, "true"));
    headers.push(header(HeaderName::Vary, "Origin"));
    assert(header_views(headers@) =~= common_headers(origin_bytes));
    if same(method, "OPTIONS") {
        let status: u16 = handle_preflight_request(&mut headers);
        CorsOutcome { headers, status: Some(status), proceed: false }
    } else {
        CorsOutcome { headers, status: None, proceed: true }
    }
}

proof fn lemma_value_of_push(headers: Seq<HeaderView>, h: HeaderView, name: HeaderName)
    ensures
        value_of(headers.push(h), name) == (if h.name == name {
            Some(h.value)
        } else {
            value_of(headers, name)
        }),
{
    assert(headers.push(h).drop_last() =~= headers);
}

/// Every reply allows the origin of its request, with credentials, and says on which
/// headers of the request it depends.
pub proof fn law_every_reply_names_the_origin(origin: Option<Seq<u8>>)
    ensures
        ({
            let plain = common_headers(origin);
            let preflight = plain + preflight_headers();
            &&& value_of(plain, HeaderName::AccessControlAllowOrigin) == Some(origin_text(origin))
            &&& value_of(preflight, HeaderName::AccessControlAllowOrigin) == Some(
                origin_text(origin),
            )
            &&& value_of(plain, HeaderName::AccessControlAllowCredentials) == Some("true"@)
            &&& value_of(preflight, HeaderName::AccessControlAllowCredentials) == Some("true"@)
            &&& value_of(plain, HeaderName::Vary) == Some("Origin"@)
            &&& value_of(preflight, HeaderName::Vary) == Some(
                "Origin, Access-Control-Request-Method, Access-Control-Request-Headers"@,
            )
            &&& value_of(preflight, HeaderName::AccessControlMaxAge) == Some("3600"@)
        }),
{
    let plain = common_headers(origin);
    let extra = preflight_headers();
    let none = Seq::<HeaderView>::empty();
    assert(plain =~= none.push(plain[0]).push(plain[1]).push(plain[2]));
    assert(plain + extra =~= plain.push(extra[0]).push(extra[1]).push(extra[2]).push(extra[3]));
    assert forall|headers: Seq<HeaderView>, h: HeaderView, name: HeaderName| #[trigger]
        value_of(headers.push(h), name) == (if h.name == name {
            Some(h.value)
        } else {
            value_of(headers, name)
        }) by {
        lemma_value_of_push(headers, h, name);
    }
}

} // verus!
