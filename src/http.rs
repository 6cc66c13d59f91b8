use vstd::prelude::*;

use crate::error::MarketError;

verus! {

/// What `httparse` reads from the head of the request in `buf`: the byte
/// offset of the body and every header as a name and a value, in order;
/// `None` when the request line and headers are incomplete or malformed,
/// or hold more than 32 headers.
pub uninterp spec fn parsed_head(buf: Seq<u8>) -> Option<(nat, Seq<(Seq<char>, Seq<u8>)>)>;

/// What `String::from_utf8` makes of `bytes`: their text, or `None` when
/// they are not UTF-8.
pub uninterp spec fn utf8_text(bytes: Seq<u8>) -> Option<Seq<char>>;

/// Relies on `httparse::Request::parse`: on a complete head it returns the
/// byte offset of the body in `buf`, and leaves the parsed headers in the
/// request's header slice, in order.
#[verifier::external_body]
fn parse_request_head(buf: &[u8]) -> (r: Option<(usize, Vec<(String, Vec<u8>)>)>)
    ensures
        r is None <==> parsed_head(buf@) is None,
        r matches Some(h) ==> h.0 <= buf@.len() && parsed_head(buf@) == Some(
            (h.0 as nat, h.1.deep_view()),
        ),
{
    let mut headers = [httparse::EMPTY_HEADER; 32];
    let mut request = httparse::Request::new(&mut headers);
    match request.parse(buf) {
        Ok(httparse::Status::Complete(n)) => Some(
            (n, request.headers.iter().map(|h| (h.name.to_string(), h.value.to_vec())).collect()),
        ),
        _ => None,
    }
}

/// Relies on `String::from_utf8`: the text of `bytes` when they are UTF-8.
#[verifier::external_body]
fn text_from_utf8(bytes: Vec<u8>) -> (r: Option<String>)
    ensures
        r is None <==> utf8_text(bytes@) is None,
        r matches Some(s) ==> utf8_text(bytes@) == Some(s@),
{
    String::from_utf8(bytes).ok()
}

/// Where the bytes of `buf` from `from` on end: at the first zero byte, or
/// at the end of `buf`.
pub open spec fn nul_from(buf: Seq<u8>, from: int) -> int
    decreases buf.len() - from,
{
    if from >= buf.len() {
        buf.len() as int
    } else if buf[from] == 0 {
        from
    } else {
        nul_from(buf, from + 1)
    }
}

/// The text of the body of the request in `buf`: its bytes up to the first
/// zero byte, read as UTF-8.
pub open spec fn request_body(buf: Seq<u8>) -> Option<Seq<char>> {
    match parsed_head(buf) {
        Some(head) => if head.0 <= buf.len() {
            utf8_text(buf.subrange(head.0 as int, nul_from(buf, head.0 as int)))
        } else {
            None
        },
        None => None,
    }
}

pub open spec fn cookie_name() -> Seq<char> {
    seq!['C', 'o', 'o', 'k', 'i', 'e']
}

/// Whether a header is named `Cookie`.
pub open spec fn is_cookie_header() -> spec_fn((Seq<char>, Seq<u8>)) -> bool {
    |h: (Seq<char>, Seq<u8>)| h.0 == cookie_name()
}

/// The text of the one `Cookie` header of the request in `buf`; `None`
/// when there is no such header, or more than one.
pub open spec fn request_cookie(buf: Seq<u8>) -> Option<Seq<char>> {
    match parsed_head(buf) {
        Some(head) => {
            let cookies = head.1.filter(is_cookie_header());
            if cookies.len() == 1 {
                utf8_text(cookies[0].1)
            } else {
                None
            }
        },
        None => None,
    }
}

/// The text of the body of the request in `buffer`, up to the first zero
/// byte. Fails with `InvalidArgument` when the head is incomplete or
/// malformed, or the body is not UTF-8.
pub fn get_text_from_request(buffer: &[u8]) -> (r: Result<String, MarketError>)
    ensures
        request_body(buffer@) matches Some(t) ==> (r matches Ok(s) && s@ == t),
        request_body(buffer@) is None ==> r == Err::<String, MarketError>(
            MarketError::InvalidArgument,
        ),
{
    let start = match parse_request_head(buffer) {
        Some(head) => head.0,
        None => return Err(MarketError::InvalidArgument),
    };
    let mut body: Vec<u8> = Vec::new();
    let mut i: usize = start;
    while i < buffer.len() && buffer[i] != 0
        invariant
            start <= i <= buffer@.len(),
            body@ == buffer@.subrange(start as int, i as int),
            nul_from(buffer@, start as int) == nul_from(buffer@, i as int),
        decreases buffer@.len() - i,
    {
        body.push(buffer[i]);
        i = i + 1;
        assert(body@ =~= buffer@.subrange(start as int, i as int));
    }
    match text_from_utf8(body) {
        Some(text) => Ok(text),
        None => Err(MarketError::InvalidArgument),
    }
}

/// Whether a header name is `Cookie`.
fn is_cookie(name: &String) -> (r: bool)
    ensures
        r == (name@ == cookie_name()),
{
    proof {
        reveal_strlit("Cookie");
    }
    let cookie = String::from_str("Cookie");
    assert(cookie@ =~= cookie_name());
    name.eq(&cookie)
}

/// The text of the one `Cookie` header of the request in `buffer`. Fails
/// with `InvalidArgument` when the head is incomplete or malformed, when
/// there is no such header or more than one, or when its value is not
/// UTF-8.
pub fn get_cookie_from_request(buffer: &[u8]) -> (r: Result<String, MarketError>)
    ensures
        request_cookie(buffer@) matches Some(t) ==> (r matches Ok(s) && s@ == t),
        request_cookie(buffer@) is None ==> r == Err::<String, MarketError>(
            MarketError::InvalidArgument,
        ),
{
    let headers = match parse_request_head(buffer) {
        Some(head) => head.1,
        None => return Err(MarketError::InvalidArgument),
    };
    let ghost hs = headers.deep_view();
    let mut found: Vec<Vec<u8>> = Vec::new();
    let mut i: usize = 0;
    while i < headers.len()
        invariant
            i <= headers@.len(),
            hs == headers.deep_view(),
            hs.len() == headers@.len(),
            found.deep_view() == hs.subrange(0, i as int).filter(is_cookie_header()).map_values(
                |h: (Seq<char>, Seq<u8>)| h.1,
            ),
        decreases headers@.len() - i,
    {
        let ghost prefix = hs.subrange(0, i + 1);
        proof {
            reveal(Seq::filter);
            assert(prefix.drop_last() =~= hs.subrange(0, i as int));
            assert(hs[i as int] == (headers@[i as int].0@, headers@[i as int].1@));
        }
        if is_cookie(&headers[i].0) {
            let value = headers[i].1.clone();
            let ghost before = found.deep_view();
            found.push(value);
            assert(found.deep_view() =~= before.push(value@));
        }
        proof {
            let f = hs.subrange(0, i as int).filter(is_cookie_header());
            let g = prefix.filter(is_cookie_header());
            assert(g.map_values(|h: (Seq<char>, Seq<u8>)| h.1) =~= found.deep_view());
        }
        i = i + 1;
    }
    assert(hs.subrange(0, i as int) =~= hs);
    let ghost cookies = hs.filter(is_cookie_header());
    assert(found.deep_view().len() == found@.len());
    if found.len() != 1 {
        return Err(MarketError::InvalidArgument);
    }
    let value = found[0].clone();
    proof {
        assert(found.deep_view()[0] == found@[0].deep_view());
        assert(found@[0].deep_view() =~= found@[0]@);
        assert(value@ == cookies[0].1);
    }
    match text_from_utf8(value) {
        Some(text) => Ok(text),
        None => Err(MarketError::InvalidArgument),
    }
}

} // verus!
