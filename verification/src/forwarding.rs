//! What the proxy decides around an upstream request: whether the shared
//! key lets a request in, where it goes, which headers travel upstream, how
//! the upstream response's headers are edited, and who may use a stored
//! server setup.
use vstd::prelude::*;
use crate::bytes::{ascii, ascii_bytes, bytes_equal, chars_of, copy_all};
use crate::crypto::{sha256, sha256_spec};
use crate::encoding::{hex_decode, hex_text_decoding};
use crate::framing::{
    grouped_by_name, header_views, lemma_request_frame_ignores_interleaving, request_frame,
    serialize_http_request, values_of,
};
use crate::ic::{max_principal_len, principal_from_text, principal_from_text_result};
use crate::sec1::views;
use crate::text::{ascii_chars, concat2, text_of_ascii};

verus! {

/// Why the proxy refuses to forward a request.
#[derive(Clone, Copy, PartialEq, Eq, Structural, Debug)]
pub enum ProxyError {
    /// The `X-JoinProxy-Key` header is not visible ASCII.
    UnreadableKeyHeader,
    /// The request has no `Host` header.
    MissingHost,
    /// A header value that has to be read as text is not visible ASCII.
    UnreadableHeader,
    /// `X-Principal` is required and absent.
    MissingPrincipal,
    /// `X-Principal` is not a principal's text.
    BadPrincipal,
    /// `X-Config` is not hexadecimal.
    BrokenHexId,
    /// The stored owner of a server setup is not a principal.
    WrongPrincipalFormat,
    /// The caller does not own the server setup.
    AccessDenied,
    /// A configured header name is not a valid header name.
    InvalidHeaderName,
    /// A configured header value is not a valid header value.
    InvalidHeaderValue,
}

/// The text each refusal is reported with.
pub open spec fn proxy_error_message(e: ProxyError) -> Seq<char> {
    match e {
        ProxyError::UnreadableKeyHeader => "Cannot read header X-JoinProxy-Key"@,
        ProxyError::MissingHost => "Missing Host: header"@,
        ProxyError::UnreadableHeader => "failed to convert header to a str"@,
        ProxyError::MissingPrincipal => "missing X-Principal header"@,
        ProxyError::BadPrincipal => "can't parse X-Principal"@,
        ProxyError::BrokenHexId => "broken hex ID"@,
        ProxyError::WrongPrincipalFormat => "wrong principal format"@,
        ProxyError::AccessDenied => "access denied"@,
        ProxyError::InvalidHeaderName => "invalid header name"@,
        ProxyError::InvalidHeaderValue => "invalid header value"@,
    }
}

impl ProxyError {
    /// The refusal's text.
    pub fn message(&self) -> (res: String)
        ensures
            res@ == proxy_error_message(*self),
    {
        match self {
            ProxyError::UnreadableKeyHeader => "Cannot read header X-JoinProxy-Key".to_owned(),
            ProxyError::MissingHost => "Missing Host: header".to_owned(),
            ProxyError::UnreadableHeader => "failed to convert header to a str".to_owned(),
            ProxyError::MissingPrincipal => "missing X-Principal header".to_owned(),
            ProxyError::BadPrincipal => "can't parse X-Principal".to_owned(),
            ProxyError::BrokenHexId => "broken hex ID".to_owned(),
            ProxyError::WrongPrincipalFormat => "wrong principal format".to_owned(),
            ProxyError::AccessDenied => "access denied".to_owned(),
            ProxyError::InvalidHeaderName => "invalid header name".to_owned(),
            ProxyError::InvalidHeaderValue => "invalid header value".to_owned(),
        }
    }
}

/// A byte that a header value may hold when it is read as text: visible
/// ASCII or a tab.
pub open spec fn visible_ascii(b: u8) -> bool {
    (32 <= b && b < 127) || b == 9
}

/// A header value that can be read as text.
pub open spec fn header_text_ok(v: Seq<u8>) -> bool {
    forall|i: int| 0 <= i < v.len() ==> visible_ascii(#[trigger] v[i])
}

/// A byte that a header value may hold at all: anything but control
/// characters and DEL, tabs allowed.
pub open spec fn value_byte_ok(b: u8) -> bool {
    (b >= 32 && b != 127) || b == 9
}

/// A valid header value.
pub open spec fn header_value_ok(v: Seq<u8>) -> bool {
    forall|i: int| 0 <= i < v.len() ==> value_byte_ok(#[trigger] v[i])
}

/// Whether a header value can be read as text.
pub fn is_header_text(v: &[u8]) -> (res: bool)
    ensures
        res == header_text_ok(v@),
{
    let mut i: usize = 0;
    while i < v.len()
        invariant
            i <= v@.len(),
            forall|k: int| 0 <= k < i ==> visible_ascii(#[trigger] v@[k]),
        decreases v@.len() - i,
    {
        let b = v[i];
        if !((32 <= b && b < 127) || b == 9) {
            assert(!visible_ascii(v@[i as int]));
            return false;
        }
        i = i + 1;
    }
    true
}

/// Whether bytes form a valid header value.
pub fn is_header_value(v: &[u8]) -> (res: bool)
    ensures
        res == header_value_ok(v@),
{
    let mut i: usize = 0;
    while i < v.len()
        invariant
            i <= v@.len(),
            forall|k: int| 0 <= k < i ==> value_byte_ok(#[trigger] v@[k]),
        decreases v@.len() - i,
    {
        let b = v[i];
        if !((b >= 32 && b != 127) || b == 9) {
            assert(!value_byte_ok(v@[i as int]));
            return false;
        }
        i = i + 1;
    }
    true
}

/// The characters of an optional text.
pub open spec fn text_opt(o: Option<String>) -> Option<Seq<char>> {
    match o {
        Some(s) => Some(s@),
        None => None,
    }
}

/// The bytes of an optional byte string.
pub open spec fn bytes_opt(o: Option<Vec<u8>>) -> Option<Seq<u8>> {
    match o {
        Some(v) => Some(v@),
        None => None,
    }
}

/// What the shared-key check makes of a request.
#[derive(Clone, Copy, PartialEq, Eq, Structural, Debug)]
pub enum KeyVerdict {
    /// The request may go on.
    Proceed,
    /// The key is absent or wrong: the answer is 511 with an empty body.
    Rejected,
    /// The key header cannot be read as text.
    Unreadable,
}

/// The key header a request must carry when the proxy has a secret.
pub open spec fn bearer_of(secret: Seq<char>) -> Seq<char> {
    "Bearer "@ + secret
}

/// The shared-key check: without a secret every request proceeds; with one,
/// the first `X-JoinProxy-Key` header must read `Bearer <secret>`.
pub open spec fn key_verdict(secret: Option<Seq<char>>, passed: Option<Seq<u8>>) -> KeyVerdict {
    match secret {
        None => KeyVerdict::Proceed,
        Some(s) => match passed {
            None => KeyVerdict::Rejected,
            Some(p) => if !header_text_ok(p) {
                KeyVerdict::Unreadable
            } else if ascii_chars(p) == bearer_of(s) {
                KeyVerdict::Proceed
            } else {
                KeyVerdict::Rejected
            },
        },
    }
}

/// Whether the bytes, read one character per byte, spell the characters.
fn bytes_spell(p: &[u8], cs: &Vec<char>) -> (res: bool)
    ensures
        res == (ascii_chars(p@) == cs@),
{
    if p.len() != cs.len() {
        assert(ascii_chars(p@).len() != cs@.len());
        return false;
    }
    let mut i: usize = 0;
    while i < p.len()
        invariant
            p@.len() == cs@.len(),
            i <= p@.len(),
            forall|k: int| 0 <= k < i ==> (p@[k] as char) == cs@[k],
        decreases p@.len() - i,
    {
        if p[i] as char != cs[i] {
            assert(ascii_chars(p@)[i as int] != cs@[i as int]);
            return false;
        }
        i = i + 1;
    }
    assert(ascii_chars(p@) =~= cs@);
    true
}

/// The shared-key check on the configured secret and the first
/// `X-JoinProxy-Key` header of a request.
pub fn check_proxy_key(secret: &Option<String>, passed: &Option<Vec<u8>>) -> (res: KeyVerdict)
    ensures
        res == key_verdict(text_opt(*secret), bytes_opt(*passed)),
{
    match secret {
        None => KeyVerdict::Proceed,
        Some(s) => match passed {
            None => KeyVerdict::Rejected,
            Some(p) => {
                if !is_header_text(p.as_slice()) {
                    return KeyVerdict::Unreadable;
                }
                let mut expected = chars_of("Bearer ");
                let mut rest = chars_of(s.as_str());
                expected.append(&mut rest);
                if bytes_spell(p.as_slice(), &expected) {
                    KeyVerdict::Proceed
                } else {
                    KeyVerdict::Rejected
                }
            },
        },
    }
}

/// Where a request without a server setup goes: `https://` and the value of
/// its `Host` header.
pub open spec fn base_url_of(host: Option<Seq<u8>>) -> Result<Seq<char>, ProxyError> {
    match host {
        None => Err(ProxyError::MissingHost),
        Some(h) => if header_text_ok(h) {
            Ok("https://"@ + ascii_chars(h))
        } else {
            Err(ProxyError::UnreadableHeader)
        },
    }
}

/// The upstream base URL from the first `Host` header of a request.
pub fn obtain_upstream_base_url(host: &Option<Vec<u8>>) -> (res: Result<String, ProxyError>)
    ensures
        match res {
            Ok(u) => base_url_of(bytes_opt(*host)) == Ok::<Seq<char>, ProxyError>(u@),
            Err(e) => base_url_of(bytes_opt(*host)) == Err::<Seq<char>, ProxyError>(e),
        },
{
    match host {
        None => Err(ProxyError::MissingHost),
        Some(h) => {
            if !is_header_text(h.as_slice()) {
                return Err(ProxyError::UnreadableHeader);
            }
            let text = text_of_ascii(h.as_slice());
            Ok(concat2("https://", text.as_str()))
        },
    }
}

/// A header as name and value bytes.
pub type HeaderPair = (Vec<u8>, Vec<u8>);

/// The value of the first header named `name`.
pub open spec fn first_value(hs: Seq<(Seq<u8>, Seq<u8>)>, name: Seq<u8>) -> Option<Seq<u8>>
    decreases hs.len(),
{
    if hs.len() == 0 {
        None
    } else if hs[0].0 == name {
        Some(hs[0].1)
    } else {
        first_value(hs.drop_first(), name)
    }
}

/// The value of the last header named `name`.
pub open spec fn last_value(hs: Seq<(Seq<u8>, Seq<u8>)>, name: Seq<u8>) -> Option<Seq<u8>>
    decreases hs.len(),
{
    if hs.len() == 0 {
        None
    } else if hs.last().0 == name {
        Some(hs.last().1)
    } else {
        last_value(hs.drop_last(), name)
    }
}

/// The value of the first header named `name`, copied.
pub fn first_header_value(hs: &Vec<HeaderPair>, name: &[u8]) -> (res: Option<Vec<u8>>)
    ensures
        bytes_opt(res) == first_value(header_views(hs@), name@),
{
    let ghost hv = header_views(hs@);
    let mut i: usize = 0;
    assert(hv.skip(0) =~= hv);
    while i < hs.len()
        invariant
            i <= hs@.len(),
            hv == header_views(hs@),
            first_value(hv, name@) == first_value(hv.skip(i as int), name@),
        decreases hs@.len() - i,
    {
        assert(hv.skip(i as int)[0] == hv[i as int]);
        assert(hv.skip(i as int).drop_first() =~= hv.skip(i + 1));
        if bytes_equal(hs[i].0.as_slice(), name) {
            return Some(copy_all(hs[i].1.as_slice()));
        }
        i = i + 1;
    }
    None
}

/// The value of the last header named `name`, copied.
pub fn last_header_value(hs: &Vec<HeaderPair>, name: &[u8]) -> (res: Option<Vec<u8>>)
    ensures
        bytes_opt(res) == last_value(header_views(hs@), name@),
{
    let ghost hv = header_views(hs@);
    let mut i: usize = hs.len();
    assert(hv.take(hv.len() as int) =~= hv);
    while i > 0
        invariant
            i <= hs@.len(),
            hv == header_views(hs@),
            last_value(hv, name@) == last_value(hv.take(i as int), name@),
        decreases i,
    {
        assert(hv.take(i as int).last() == hv[i - 1]);
        assert(hv.take(i as int).drop_last() =~= hv.take(i - 1));
        if bytes_equal(hs[i - 1].0.as_slice(), name) {
            return Some(copy_all(hs[i - 1].1.as_slice()));
        }
        i = i - 1;
    }
    None
}

/// The name of the `Host` header.
pub open spec fn host_name() -> Seq<u8> {
    ascii("host"@)
}

/// Every header's value can be read as text.
pub open spec fn all_values_text(hs: Seq<(Seq<u8>, Seq<u8>)>) -> bool {
    forall|i: int| 0 <= i < hs.len() ==> header_text_ok(#[trigger] hs[i].1)
}

/// The request headers kept for a server setup: those whose name is not on
/// the setup's removal list, and `Host` in any case; in their order.
pub open spec fn kept_with_setup(hs: Seq<(Seq<u8>, Seq<u8>)>, remove: Seq<Seq<u8>>) -> Seq<(Seq<u8>, Seq<u8>)>
    decreases hs.len(),
{
    if hs.len() == 0 {
        Seq::empty()
    } else {
        let rest = kept_with_setup(hs.drop_last(), remove);
        let h = hs.last();
        if !remove.contains(h.0) || h.0 == host_name() { rest.push(h) } else { rest }
    }
}

/// The `Host` headers of a request, in order.
pub open spec fn host_headers(hs: Seq<(Seq<u8>, Seq<u8>)>) -> Seq<(Seq<u8>, Seq<u8>)>
    decreases hs.len(),
{
    if hs.len() == 0 {
        Seq::empty()
    } else {
        let rest = host_headers(hs.drop_last());
        if hs.last().0 == host_name() { rest.push(hs.last()) } else { rest }
    }
}

/// The headers sent upstream for a request under a server setup: the kept
/// ones, then the setup's additions; all must read as text.
pub open spec fn request_headers_for_setup_result(
    hs: Seq<(Seq<u8>, Seq<u8>)>,
    remove: Seq<Seq<u8>>,
    add: Seq<(Seq<u8>, Seq<u8>)>,
) -> Result<Seq<(Seq<u8>, Seq<u8>)>, ProxyError> {
    let all = kept_with_setup(hs, remove) + add;
    if all_values_text(all) { Ok(all) } else { Err(ProxyError::UnreadableHeader) }
}

/// The headers sent upstream for a request without a server setup: only its
/// `Host` headers, which must read as text.
pub open spec fn request_headers_plain_result(hs: Seq<(Seq<u8>, Seq<u8>)>) -> Result<Seq<(Seq<u8>, Seq<u8>)>, ProxyError> {
    let all = host_headers(hs);
    if all_values_text(all) { Ok(all) } else { Err(ProxyError::UnreadableHeader) }
}

/// Whether `name` is on the list.
fn contains_name(names: &Vec<Vec<u8>>, name: &[u8]) -> (res: bool)
    ensures
        res == views(names@).contains(name@),
{
    let mut i: usize = 0;
    while i < names.len()
        invariant
            i <= names@.len(),
            forall|k: int| 0 <= k < i ==> names@[k]@ != name@,
        decreases names@.len() - i,
    {
        if bytes_equal(names[i].as_slice(), name) {
            assert(views(names@)[i as int] == name@);
            return true;
        }
        i = i + 1;
    }
    assert forall|k: int| 0 <= k < views(names@).len() implies views(names@)[k] != name@ by {
        assert(views(names@)[k] == names@[k]@);
    }
    false
}

/// A fresh copy of a header.
fn copy_header(h: &HeaderPair) -> (res: HeaderPair)
    ensures
        res.0@ == h.0@,
        res.1@ == h.1@,
{
    (copy_all(h.0.as_slice()), copy_all(h.1.as_slice()))
}

/// Appends copies of all of `extra` to `out`.
pub(crate) fn append_headers(out: &mut Vec<HeaderPair>, extra: &Vec<HeaderPair>)
    ensures
        header_views(final(out)@) == header_views(old(out)@) + header_views(extra@),
{
    let ghost start = header_views(out@);
    let mut i: usize = 0;
    while i < extra.len()
        invariant
            i <= extra@.len(),
            start == header_views(old(out)@),
            header_views(out@) == start + header_views(extra@).take(i as int),
        decreases extra@.len() - i,
    {
        let ghost before = header_views(out@);
        out.push(copy_header(&extra[i]));
        assert(header_views(out@) =~= before.push(header_views(extra@)[i as int]));
        assert(header_views(extra@).take(i + 1) =~= header_views(extra@).take(i as int).push(header_views(extra@)[i as int]));
        i = i + 1;
    }
    assert(header_views(extra@).take(extra@.len() as int) =~= header_views(extra@));
}

/// Whether every header's value reads as text.
pub(crate) fn all_values_readable(hs: &Vec<HeaderPair>) -> (res: bool)
    ensures
        res == all_values_text(header_views(hs@)),
{
    let mut i: usize = 0;
    while i < hs.len()
        invariant
            i <= hs@.len(),
            forall|k: int| 0 <= k < i ==> header_text_ok(#[trigger] header_views(hs@)[k].1),
        decreases hs@.len() - i,
    {
        if !is_header_text(hs[i].1.as_slice()) {
            assert(!header_text_ok(header_views(hs@)[i as int].1));
            return false;
        }
        i = i + 1;
    }
    true
}

/// The headers that pass a filter: under a setup (`host_only` false) those
/// not on `remove` or named `host`, otherwise only those named `host`.
fn filter_request_headers(hs: &Vec<HeaderPair>, remove: &Vec<Vec<u8>>, host_only: bool) -> (res: Vec<HeaderPair>)
    ensures
        header_views(res@) == if host_only {
            host_headers(header_views(hs@))
        } else {
            kept_with_setup(header_views(hs@), views(remove@))
        },
{
    let host = ascii_bytes("host");
    let mut out: Vec<HeaderPair> = Vec::new();
    let ghost hv = header_views(hs@);
    let ghost rv = views(remove@);
    let mut i: usize = 0;
    assert(hv.take(0) =~= Seq::<(Seq<u8>, Seq<u8>)>::empty());
    while i < hs.len()
        invariant
            hv == header_views(hs@),
            rv == views(remove@),
            host@ == host_name(),
            i <= hs@.len(),
            header_views(out@) == if host_only {
                host_headers(hv.take(i as int))
            } else {
                kept_with_setup(hv.take(i as int), rv)
            },
        decreases hs@.len() - i,
    {
        proof {
            assert(hv.take(i + 1).drop_last() =~= hv.take(i as int));
            assert(hv.take(i + 1).last() == hv[i as int]);
        }
        let is_host = bytes_equal(hs[i].0.as_slice(), host.as_slice());
        let keep = if host_only {
            is_host
        } else {
            is_host || !contains_name(remove, hs[i].0.as_slice())
        };
        if keep {
            let ghost before = header_views(out@);
            out.push(copy_header(&hs[i]));
            assert(header_views(out@) =~= before.push(hv[i as int]));
        }
        i = i + 1;
    }
    assert(hv.take(hs@.len() as int) =~= hv);
    out
}

/// The headers sent upstream for a request under a server setup.
pub fn request_headers_for_setup(
    hs: &Vec<HeaderPair>,
    remove: &Vec<Vec<u8>>,
    add: &Vec<HeaderPair>,
) -> (res: Result<Vec<HeaderPair>, ProxyError>)
    ensures
        match res {
            Ok(v) => request_headers_for_setup_result(header_views(hs@), views(remove@), header_views(add@))
                == Ok::<Seq<(Seq<u8>, Seq<u8>)>, ProxyError>(header_views(v@)),
            Err(e) => request_headers_for_setup_result(header_views(hs@), views(remove@), header_views(add@))
                == Err::<Seq<(Seq<u8>, Seq<u8>)>, ProxyError>(e),
        },
{
    let mut out = filter_request_headers(hs, remove, false);
    append_headers(&mut out, add);
    if all_values_readable(&out) {
        Ok(out)
    } else {
        Err(ProxyError::UnreadableHeader)
    }
}

/// The headers sent upstream for a request without a server setup.
pub fn request_headers_plain(hs: &Vec<HeaderPair>) -> (res: Result<Vec<HeaderPair>, ProxyError>)
    ensures
        match res {
            Ok(v) => request_headers_plain_result(header_views(hs@)) == Ok::<Seq<(Seq<u8>, Seq<u8>)>, ProxyError>(header_views(v@)),
            Err(e) => request_headers_plain_result(header_views(hs@)) == Err::<Seq<(Seq<u8>, Seq<u8>)>, ProxyError>(e),
        },
{
    let empty: Vec<Vec<u8>> = Vec::new();
    let out = filter_request_headers(hs, &empty, true);
    if all_values_readable(&out) {
        Ok(out)
    } else {
        Err(ProxyError::UnreadableHeader)
    }
}

/// What a byte of a header name becomes: the token characters of `http`'s
/// name table stay as they are, upper-case letters become lower case, and
/// every other byte has no place in a name (0).
pub open spec fn header_name_char(b: u8) -> u8 {
    if 65 <= b <= 90 {
        (b + 32) as u8
    } else if (97 <= b <= 122) || (48 <= b <= 57) || (33 <= b <= 39) || b == 42 || b == 43 || b == 45
        || b == 46 || b == 94 || b == 95 || b == 96 || b == 124 || b == 126 {
        b
    } else {
        0
    }
}

/// What `http::HeaderName::from_bytes` makes of raw bytes: a name of 1 to
/// 65 535 bytes, each mapped through the name table (lower case), or `None`
/// when the bytes are empty, too long, or hold a byte outside the table.
pub open spec fn header_name_parsing(raw: Seq<u8>) -> Option<Seq<u8>> {
    if 1 <= raw.len() <= 65535 && forall|i: int| 0 <= i < raw.len() ==> header_name_char(#[trigger] raw[i]) != 0 {
        Some(raw.map_values(|b: u8| header_name_char(b)))
    } else {
        None
    }
}

/// `HeaderName::from_bytes` (through actix-web's re-export of `http` 0.2):
/// the contract states the crate's table-driven normalization as
/// `header_name_parsing`.
#[verifier::external_body]
fn parse_header_name(raw: &[u8]) -> (res: Option<Vec<u8>>)
    ensures
        match res {
            Some(n) => header_name_parsing(raw@) == Some(n@),
            None => header_name_parsing(raw@) is None,
        },
{
    match actix_web::http::header::HeaderName::from_bytes(raw) {
        Ok(n) => Some(n.as_str().as_bytes().to_vec()),
        Err(_) => None,
    }
}

/// The hop-by-hop headers that never leave the proxy (RFC 2616, 13.5.1).
pub open spec fn hop_by_hop() -> Seq<Seq<u8>> {
    seq![
        ascii("connection"@),
        ascii("keep-alive"@),
        ascii("te"@),
        ascii("trailers"@),
        ascii("transfer-encoding"@),
        ascii("upgrade"@),
    ]
}

/// The header that marks a response fetched from upstream.
pub open spec fn miss_header() -> (Seq<u8>, Seq<u8>) {
    (ascii("x-joinproxy-response"@), ascii("Miss"@))
}

/// The name of the header that carries the client's address.
pub open spec fn forwarded_for_name() -> Seq<u8> {
    ascii("x-forwarded-for"@)
}

/// The upstream headers with the setup's markers appended.
pub open spec fn marked_headers(upstream: Seq<(Seq<u8>, Seq<u8>)>, show_hit_miss: bool, forwarded_for: Option<Seq<u8>>) -> Seq<(Seq<u8>, Seq<u8>)> {
    let a = if show_hit_miss { upstream.push(miss_header()) } else { upstream };
    match forwarded_for {
        Some(ip) => a.push((forwarded_for_name(), ip)),
        None => a,
    }
}

/// The configured names parsed as header names (`None` if one is no name).
pub open spec fn parsed_names(raw: Seq<Seq<u8>>) -> Option<Seq<Seq<u8>>>
    decreases raw.len(),
{
    if raw.len() == 0 {
        Some(Seq::empty())
    } else {
        match parsed_names(raw.drop_last()) {
            None => None,
            Some(ns) => match header_name_parsing(raw.last()) {
                None => None,
                Some(n) => Some(ns.push(n)),
            },
        }
    }
}

/// The headers whose name is on none of `names`, in order.
pub open spec fn without_names(hs: Seq<(Seq<u8>, Seq<u8>)>, names: Seq<Seq<u8>>) -> Seq<(Seq<u8>, Seq<u8>)>
    decreases hs.len(),
{
    if hs.len() == 0 {
        Seq::empty()
    } else {
        let rest = without_names(hs.drop_last(), names);
        if names.contains(hs.last().0) { rest } else { rest.push(hs.last()) }
    }
}

/// The setup's added response headers, names parsed and values checked; the
/// first one in order that fails decides the error.
pub open spec fn parsed_additions(add: Seq<(Seq<u8>, Seq<u8>)>) -> Result<Seq<(Seq<u8>, Seq<u8>)>, ProxyError>
    decreases add.len(),
{
    if add.len() == 0 {
        Ok(Seq::empty())
    } else {
        match parsed_additions(add.drop_last()) {
            Err(e) => Err(e),
            Ok(prev) => match header_name_parsing(add.last().0) {
                None => Err(ProxyError::InvalidHeaderName),
                Some(n) => if header_value_ok(add.last().1) {
                    Ok(prev.push((n, add.last().1)))
                } else {
                    Err(ProxyError::InvalidHeaderValue)
                },
            },
        }
    }
}

/// The response headers a client gets under a server setup: the upstream
/// ones (which must read as text), the markers the setup asks for, all of
/// them without the hop-by-hop headers and the setup's removed names, then
/// the setup's additions.
pub open spec fn response_headers_for_setup_result(
    upstream: Seq<(Seq<u8>, Seq<u8>)>,
    show_hit_miss: bool,
    forwarded_for: Option<Seq<u8>>,
    remove: Seq<Seq<u8>>,
    add: Seq<(Seq<u8>, Seq<u8>)>,
) -> Result<Seq<(Seq<u8>, Seq<u8>)>, ProxyError> {
    if !all_values_text(upstream) {
        Err(ProxyError::UnreadableHeader)
    } else {
        match parsed_names(remove) {
            None => Err(ProxyError::InvalidHeaderName),
            Some(names) => match parsed_additions(add) {
                Err(e) => Err(e),
                Ok(extra) => Ok(without_names(marked_headers(upstream, show_hit_miss, forwarded_for), hop_by_hop() + names) + extra),
            },
        }
    }
}

/// The response headers a client gets without a server setup: the upstream
/// ones, which must read as text.
pub open spec fn response_headers_plain_result(upstream: Seq<(Seq<u8>, Seq<u8>)>) -> Result<Seq<(Seq<u8>, Seq<u8>)>, ProxyError> {
    if all_values_text(upstream) { Ok(upstream) } else { Err(ProxyError::UnreadableHeader) }
}

/// The hop-by-hop header names.
fn hop_by_hop_names() -> (res: Vec<Vec<u8>>)
    ensures
        views(res@) == hop_by_hop(),
{
    let mut v: Vec<Vec<u8>> = Vec::new();
    v.push(ascii_bytes("connection"));
    v.push(ascii_bytes("keep-alive"));
    v.push(ascii_bytes("te"));
    v.push(ascii_bytes("trailers"));
    v.push(ascii_bytes("transfer-encoding"));
    v.push(ascii_bytes("upgrade"));
    assert(views(v@) =~= hop_by_hop());
    v
}

/// Parses the configured names, appending them to `out`.
pub fn parse_names_into(out: &mut Vec<Vec<u8>>, raw: &Vec<Vec<u8>>) -> (ok: bool)
    ensures
        match parsed_names(views(raw@)) {
            Some(ns) => ok && views(final(out)@) == views(old(out)@) + ns,
            None => !ok,
        },
{
    let ghost start = views(out@);
    let ghost rv = views(raw@);
    let mut i: usize = 0;
    assert(rv.take(0) =~= Seq::<Seq<u8>>::empty());
    assert(views(out@) =~= start + Seq::<Seq<u8>>::empty());
    while i < raw.len()
        invariant
            i <= raw@.len(),
            rv == views(raw@),
            start == views(old(out)@),
            parsed_names(rv.take(i as int)) matches Some(ns) && views(out@) == start + ns,
        decreases raw@.len() - i,
    {
        proof {
            assert(rv.take(i + 1).drop_last() =~= rv.take(i as int));
            assert(rv.take(i + 1).last() == raw@[i as int]@);
        }
        match parse_header_name(raw[i].as_slice()) {
            Some(n) => {
                let ghost before = views(out@);
                let ghost ns = parsed_names(rv.take(i as int))->0;
                out.push(n);
                assert(views(out@) =~= before.push(n@));
                assert(views(out@) =~= start + ns.push(n@));
            },
            None => {
                proof { lemma_parsed_names_none(rv, i + 1); }
                return false;
            },
        }
        i = i + 1;
    }
    assert(rv.take(raw@.len() as int) =~= rv);
    true
}

proof fn lemma_parsed_names_none(raw: Seq<Seq<u8>>, m: int)
    requires
        0 < m <= raw.len(),
        parsed_names(raw.take(m)) is None,
    ensures
        parsed_names(raw) is None,
    decreases raw.len() - m,
{
    if m < raw.len() {
        assert(raw.take(m + 1).drop_last() =~= raw.take(m));
        lemma_parsed_names_none(raw, m + 1);
    } else {
        assert(raw.take(m) =~= raw);
    }
}

proof fn lemma_parsed_additions_err(add: Seq<(Seq<u8>, Seq<u8>)>, m: int, e: ProxyError)
    requires
        0 < m <= add.len(),
        parsed_additions(add.take(m)) == Err::<Seq<(Seq<u8>, Seq<u8>)>, ProxyError>(e),
    ensures
        parsed_additions(add) == Err::<Seq<(Seq<u8>, Seq<u8>)>, ProxyError>(e),
    decreases add.len() - m,
{
    if m < add.len() {
        assert(add.take(m + 1).drop_last() =~= add.take(m));
        lemma_parsed_additions_err(add, m + 1, e);
    } else {
        assert(add.take(m) =~= add);
    }
}

/// Parses the setup's added response headers.
pub(crate) fn parse_additions(add: &Vec<HeaderPair>) -> (res: Result<Vec<HeaderPair>, ProxyError>)
    ensures
        match res {
            Ok(v) => parsed_additions(header_views(add@)) == Ok::<Seq<(Seq<u8>, Seq<u8>)>, ProxyError>(header_views(v@)),
            Err(e) => parsed_additions(header_views(add@)) == Err::<Seq<(Seq<u8>, Seq<u8>)>, ProxyError>(e),
        },
{
    let ghost av = header_views(add@);
    let mut out: Vec<HeaderPair> = Vec::new();
    let mut i: usize = 0;
    assert(av.take(0) =~= Seq::<(Seq<u8>, Seq<u8>)>::empty());
    assert(header_views(out@) =~= Seq::<(Seq<u8>, Seq<u8>)>::empty());
    while i < add.len()
        invariant
            i <= add@.len(),
            av == header_views(add@),
            parsed_additions(av.take(i as int)) == Ok::<Seq<(Seq<u8>, Seq<u8>)>, ProxyError>(header_views(out@)),
        decreases add@.len() - i,
    {
        proof {
            assert(av.take(i + 1).drop_last() =~= av.take(i as int));
            assert(av.take(i + 1).last() == av[i as int]);
        }
        let name = match parse_header_name(add[i].0.as_slice()) {
            Some(n) => n,
            None => {
                proof { lemma_parsed_additions_err(av, i + 1, ProxyError::InvalidHeaderName); }
                return Err(ProxyError::InvalidHeaderName);
            },
        };
        if !is_header_value(add[i].1.as_slice()) {
            proof { lemma_parsed_additions_err(av, i + 1, ProxyError::InvalidHeaderValue); }
            return Err(ProxyError::InvalidHeaderValue);
        }
        let value = copy_all(add[i].1.as_slice());
        let ghost before = header_views(out@);
        out.push((name, value));
        assert(header_views(out@) =~= before.push((name@, value@)));
        i = i + 1;
    }
    assert(av.take(add@.len() as int) =~= av);
    Ok(out)
}

/// The headers whose name is on none of `names`.
fn drop_named(hs: &Vec<HeaderPair>, names: &Vec<Vec<u8>>) -> (res: Vec<HeaderPair>)
    ensures
        header_views(res@) == without_names(header_views(hs@), views(names@)),
{
    let ghost hv = header_views(hs@);
    let mut out: Vec<HeaderPair> = Vec::new();
    let mut i: usize = 0;
    assert(hv.take(0) =~= Seq::<(Seq<u8>, Seq<u8>)>::empty());
    while i < hs.len()
        invariant
            i <= hs@.len(),
            hv == header_views(hs@),
            header_views(out@) == without_names(hv.take(i as int), views(names@)),
        decreases hs@.len() - i,
    {
        proof {
            assert(hv.take(i + 1).drop_last() =~= hv.take(i as int));
            assert(hv.take(i + 1).last() == hv[i as int]);
        }
        if !contains_name(names, hs[i].0.as_slice()) {
            let ghost before = header_views(out@);
            out.push(copy_header(&hs[i]));
            assert(header_views(out@) =~= before.push(hv[i as int]));
        }
        i = i + 1;
    }
    assert(hv.take(hs@.len() as int) =~= hv);
    out
}

/// The response headers a client gets under a server setup, from the
/// upstream response's headers, the setup's flags (`forwarded_for` is the
/// client's address when the setup asks for it and the address is known),
/// and its removed and added headers.
pub fn response_headers_for_setup(
    upstream: &Vec<HeaderPair>,
    show_hit_miss: bool,
    forwarded_for: Option<Vec<u8>>,
    remove: &Vec<Vec<u8>>,
    add: &Vec<HeaderPair>,
) -> (res: Result<Vec<HeaderPair>, ProxyError>)
    ensures
        match res {
            Ok(v) => response_headers_for_setup_result(header_views(upstream@), show_hit_miss, bytes_opt(forwarded_for), views(remove@), header_views(add@))
                == Ok::<Seq<(Seq<u8>, Seq<u8>)>, ProxyError>(header_views(v@)),
            Err(e) => response_headers_for_setup_result(header_views(upstream@), show_hit_miss, bytes_opt(forwarded_for), views(remove@), header_views(add@))
                == Err::<Seq<(Seq<u8>, Seq<u8>)>, ProxyError>(e),
        },
{
    if !all_values_readable(upstream) {
        return Err(ProxyError::UnreadableHeader);
    }
    let mut names = hop_by_hop_names();
    if !parse_names_into(&mut names, remove) {
        return Err(ProxyError::InvalidHeaderName);
    }
    let extra = match parse_additions(add) {
        Ok(v) => v,
        Err(e) => return Err(e),
    };
    let mut marked: Vec<HeaderPair> = Vec::new();
    append_headers(&mut marked, upstream);
    if show_hit_miss {
        let ghost before = header_views(marked@);
        marked.push((ascii_bytes("x-joinproxy-response"), ascii_bytes("Miss")));
        assert(header_views(marked@) =~= before.push(miss_header()));
    }
    match forwarded_for {
        Some(ip) => {
            let ghost before = header_views(marked@);
            let ghost ipv = ip@;
            marked.push((ascii_bytes("x-forwarded-for"), ip));
            assert(header_views(marked@) =~= before.push((forwarded_for_name(), ipv)));
        },
        None => {},
    }
    assert(header_views(marked@) =~= marked_headers(header_views(upstream@), show_hit_miss, bytes_opt(forwarded_for)));
    let mut out = drop_named(&marked, &names);
    append_headers(&mut out, &extra);
    Ok(out)
}

/// The response headers a client gets without a server setup.
pub fn response_headers_plain(upstream: &Vec<HeaderPair>) -> (res: Result<Vec<HeaderPair>, ProxyError>)
    ensures
        match res {
            Ok(v) => response_headers_plain_result(header_views(upstream@)) == Ok::<Seq<(Seq<u8>, Seq<u8>)>, ProxyError>(header_views(v@)),
            Err(e) => response_headers_plain_result(header_views(upstream@)) == Err::<Seq<(Seq<u8>, Seq<u8>)>, ProxyError>(e),
        },
{
    if !all_values_readable(upstream) {
        return Err(ProxyError::UnreadableHeader);
    }
    let mut out: Vec<HeaderPair> = Vec::new();
    append_headers(&mut out, upstream);
    assert(header_views(out@) =~= header_views(upstream@));
    Ok(out)
}

/// Where a request without a server setup goes: the base URL from its
/// `Host` header followed by its path and query.
pub open spec fn plain_upstream_url(host: Option<Seq<u8>>, path: Seq<char>) -> Result<Seq<char>, ProxyError> {
    match base_url_of(host) {
        Ok(base) => Ok(base + path),
        Err(e) => Err(e),
    }
}

/// The upstream URL of a request without a server setup.
pub fn upstream_url(host: &Option<Vec<u8>>, path: &str) -> (res: Result<String, ProxyError>)
    ensures
        match res {
            Ok(u) => plain_upstream_url(bytes_opt(*host), path@) == Ok::<Seq<char>, ProxyError>(u@),
            Err(e) => plain_upstream_url(bytes_opt(*host), path@) == Err::<Seq<char>, ProxyError>(e),
        },
{
    match obtain_upstream_base_url(host) {
        Ok(base) => Ok(concat2(base.as_str(), path)),
        Err(e) => Err(e),
    }
}

/// The base URL a request goes to: the configured upstream prefix, which
/// stands in for the domain of the `Host` header, or else `https://` and the
/// `Host` value.
pub open spec fn upstream_base_of(prefix: Option<Seq<char>>, host: Option<Seq<u8>>) -> Result<Seq<char>, ProxyError> {
    match prefix {
        Some(p) => Ok(p),
        None => base_url_of(host),
    }
}

/// A configured upstream prefix followed by the path and query, with a
/// single `/` where the prefix ends in one and the path begins with one.
pub open spec fn prefixed_url(prefix: Seq<char>, path: Seq<char>) -> Seq<char> {
    if prefix.len() > 0 && prefix.last() == '/' && path.len() > 0 && path[0] == '/' {
        prefix + path.drop_first()
    } else {
        prefix + path
    }
}

/// The upstream URL under a configured prefix.
pub fn prefix_url(prefix: &str, path: &str) -> (res: String)
    ensures
        res@ == prefixed_url(prefix@, path@),
{
    let plen = prefix.unicode_len();
    let qlen = path.unicode_len();
    if plen > 0 && qlen > 0 && prefix.get_char(plen - 1) == '/' && path.get_char(0) == '/' {
        let rest = path.substring_char(1, qlen);
        assert(rest@ =~= path@.drop_first());
        concat2(prefix, rest)
    } else {
        concat2(prefix, path)
    }
}

/// Which server setup a request asks for: with `require` and no
/// `X-Principal` it is refused; with both `X-Config` and `X-Principal` it
/// names the setup (the raw `X-Config` value) and the caller (the bytes of
/// the principal that `X-Principal` spells); otherwise it uses none.
pub open spec fn serve_config_choice(
    require: bool,
    x_config: Option<Seq<u8>>,
    principal: Option<Seq<u8>>,
) -> Result<Option<(Seq<u8>, Seq<u8>)>, ProxyError> {
    if require && principal is None {
        Err(ProxyError::MissingPrincipal)
    } else {
        match x_config {
            None => Ok(None),
            Some(uid) => match principal {
                None => Ok(None),
                Some(p) => if !header_text_ok(p) {
                    Err(ProxyError::UnreadableHeader)
                } else {
                    match principal_from_text_result(ascii_chars(p)) {
                        Err(_) => Err(ProxyError::BadPrincipal),
                        Ok(caller) => Ok(Some((uid, caller))),
                    }
                },
            },
        }
    }
}

/// The server setup a request asks for, from the flag that requires
/// `X-Principal`, the first `X-Config` header and the last `X-Principal`
/// header.
pub fn choose_serve_config(
    require_x_principal: bool,
    x_config: &Option<Vec<u8>>,
    principal: &Option<Vec<u8>>,
) -> (res: Result<Option<(Vec<u8>, Vec<u8>)>, ProxyError>)
    ensures
        match res {
            Ok(None) => serve_config_choice(require_x_principal, bytes_opt(*x_config), bytes_opt(*principal))
                == Ok::<Option<(Seq<u8>, Seq<u8>)>, ProxyError>(None),
            Ok(Some((uid, caller))) => serve_config_choice(require_x_principal, bytes_opt(*x_config), bytes_opt(*principal))
                == Ok::<Option<(Seq<u8>, Seq<u8>)>, ProxyError>(Some((uid@, caller@))),
            Err(e) => serve_config_choice(require_x_principal, bytes_opt(*x_config), bytes_opt(*principal))
                == Err::<Option<(Seq<u8>, Seq<u8>)>, ProxyError>(e),
        },
{
    if require_x_principal && principal.is_none() {
        return Err(ProxyError::MissingPrincipal);
    }
    match x_config {
        None => Ok(None),
        Some(uid) => match principal {
            None => Ok(None),
            Some(p) => {
                if !is_header_text(p.as_slice()) {
                    return Err(ProxyError::UnreadableHeader);
                }
                let text = text_of_ascii(p.as_slice());
                match principal_from_text(text.as_str()) {
                    Err(_) => Err(ProxyError::BadPrincipal),
                    Ok(caller) => Ok(Some((copy_all(uid.as_slice()), caller))),
                }
            },
        },
    }
}

/// The identifier of a server setup from its `X-Config` value: the value
/// must read as text and be hexadecimal.
pub open spec fn config_uid_of(raw: Seq<u8>) -> Result<Seq<u8>, ProxyError> {
    if !header_text_ok(raw) {
        Err(ProxyError::UnreadableHeader)
    } else {
        match hex_text_decoding(ascii_chars(raw)) {
            None => Err(ProxyError::BrokenHexId),
            Some(id) => Ok(id),
        }
    }
}

/// Decodes the identifier of a server setup from its `X-Config` value.
pub fn decode_config_uid(raw: &[u8]) -> (res: Result<Vec<u8>, ProxyError>)
    ensures
        match res {
            Ok(id) => config_uid_of(raw@) == Ok::<Seq<u8>, ProxyError>(id@),
            Err(e) => config_uid_of(raw@) == Err::<Seq<u8>, ProxyError>(e),
        },
{
    if !is_header_text(raw) {
        return Err(ProxyError::UnreadableHeader);
    }
    let text = text_of_ascii(raw);
    match hex_decode(text.as_str()) {
        None => Err(ProxyError::BrokenHexId),
        Some(id) => Ok(id),
    }
}

/// Who may use a server setup: its stored owner must be a principal (at
/// most 29 bytes) and equal to the caller.
pub open spec fn owner_check(owner: Seq<u8>, caller: Seq<u8>) -> Result<(), ProxyError> {
    if owner.len() > max_principal_len() {
        Err(ProxyError::WrongPrincipalFormat)
    } else if owner != caller {
        Err(ProxyError::AccessDenied)
    } else {
        Ok(())
    }
}

/// Checks that the caller owns the server setup.
pub fn check_setup_owner(owner: &[u8], caller: &[u8]) -> (res: Result<(), ProxyError>)
    ensures
        res == owner_check(owner@, caller@),
{
    if owner.len() > 29 {
        Err(ProxyError::WrongPrincipalFormat)
    } else if !bytes_equal(owner, caller) {
        Err(ProxyError::AccessDenied)
    } else {
        Ok(())
    }
}

/// The key a request is cached under: the SHA-256 digest of its framing;
/// a request with a header value that is not visible ASCII has none.
pub fn request_cache_key(method: &[u8], url: &[u8], headers: &Vec<HeaderPair>, body: &[u8]) -> (res: Result<[u8; 32], ProxyError>)
    ensures
        all_values_text(header_views(headers@)) ==> (res matches Ok(k) && exists|groups: Seq<(Seq<u8>, Seq<Seq<u8>>)>| {
            &&& grouped_by_name(groups, header_views(headers@))
            &&& k@ == sha256_spec(request_frame(method@, url@, groups, body@))
        }),
        !all_values_text(header_views(headers@)) ==> res == Err::<[u8; 32], ProxyError>(ProxyError::UnreadableHeader),
{
    match serialize_http_request(method, url, headers, body) {
        Ok(framed) => Ok(sha256(framed.as_slice())),
        Err(e) => Err(e),
    }
}

/// A request's cache key does not depend on how headers of different names
/// are interleaved: requests that agree on method, URL, body and on the
/// values, in order, under every header name get the same key.
pub proof fn lemma_cache_key_ignores_interleaving(
    method: Seq<u8>,
    url: Seq<u8>,
    body: Seq<u8>,
    hs1: Seq<(Seq<u8>, Seq<u8>)>,
    hs2: Seq<(Seq<u8>, Seq<u8>)>,
    key1: Seq<u8>,
    key2: Seq<u8>,
)
    requires
        exists|g: Seq<(Seq<u8>, Seq<Seq<u8>>)>| grouped_by_name(g, hs1) && key1 == sha256_spec(request_frame(method, url, g, body)),
        exists|g: Seq<(Seq<u8>, Seq<Seq<u8>>)>| grouped_by_name(g, hs2) && key2 == sha256_spec(request_frame(method, url, g, body)),
        forall|n: Seq<u8>| values_of(hs1, n) == values_of(hs2, n),
    ensures
        key1 == key2,
{
    let g1 = choose|g: Seq<(Seq<u8>, Seq<Seq<u8>>)>| grouped_by_name(g, hs1) && key1 == sha256_spec(request_frame(method, url, g, body));
    let g2 = choose|g: Seq<(Seq<u8>, Seq<Seq<u8>>)>| grouped_by_name(g, hs2) && key2 == sha256_spec(request_frame(method, url, g, body));
    lemma_request_frame_ignores_interleaving(method, url, body, hs1, hs2, g1, g2);
}

/// Without a secret every request passes the key check; with one, a request
/// passes exactly when its key header reads `Bearer ` and the secret.
pub proof fn lemma_key_check(secret: Option<Seq<char>>, passed: Option<Seq<u8>>)
    ensures
        secret is None ==> key_verdict(secret, passed) == KeyVerdict::Proceed,
        secret matches Some(s) ==> (key_verdict(secret, passed) == KeyVerdict::Proceed
            <==> (passed matches Some(p) && header_text_ok(p) && ascii_chars(p) == bearer_of(s))),
        secret matches Some(s) ==> (passed is None ==> key_verdict(secret, passed) == KeyVerdict::Rejected),
{
}

proof fn lemma_without_names_excludes(hs: Seq<(Seq<u8>, Seq<u8>)>, names: Seq<Seq<u8>>)
    ensures
        forall|i: int| 0 <= i < without_names(hs, names).len() ==> !names.contains(#[trigger] without_names(hs, names)[i].0),
    decreases hs.len(),
{
    if hs.len() > 0 {
        lemma_without_names_excludes(hs.drop_last(), names);
        let rest = without_names(hs.drop_last(), names);
        if !names.contains(hs.last().0) {
            assert forall|i: int| 0 <= i < without_names(hs, names).len() implies !names.contains(#[trigger] without_names(hs, names)[i].0) by {
                if i < rest.len() {
                    assert(without_names(hs, names)[i] == rest[i]);
                }
            }
        }
    }
}

proof fn lemma_parsed_additions_len(add: Seq<(Seq<u8>, Seq<u8>)>)
    ensures
        parsed_additions(add) matches Ok(extra) ==> extra.len() == add.len(),
    decreases add.len(),
{
    if add.len() > 0 {
        lemma_parsed_additions_len(add.drop_last());
    }
}

/// Under a server setup, no header the client gets before the setup's own
/// additions is hop-by-hop or on the setup's removal list, and the
/// additions come last, one per configured header.
pub proof fn lemma_removed_headers_not_returned(
    upstream: Seq<(Seq<u8>, Seq<u8>)>,
    show_hit_miss: bool,
    forwarded_for: Option<Seq<u8>>,
    remove: Seq<Seq<u8>>,
    add: Seq<(Seq<u8>, Seq<u8>)>,
)
    ensures
        response_headers_for_setup_result(upstream, show_hit_miss, forwarded_for, remove, add) matches Ok(out) ==> {
            &&& out.len() >= add.len()
            &&& parsed_names(remove) matches Some(names)
            &&& forall|i: int| 0 <= i < out.len() - add.len() ==> !(hop_by_hop() + names).contains(#[trigger] out[i].0)
        },
{
    if let Ok(out) = response_headers_for_setup_result(upstream, show_hit_miss, forwarded_for, remove, add) {
        let names = parsed_names(remove)->0;
        let kept = without_names(marked_headers(upstream, show_hit_miss, forwarded_for), hop_by_hop() + names);
        let extra = parsed_additions(add)->Ok_0;
        lemma_without_names_excludes(marked_headers(upstream, show_hit_miss, forwarded_for), hop_by_hop() + names);
        lemma_parsed_additions_len(add);
        assert(out == kept + extra);
        assert forall|i: int| 0 <= i < out.len() - add.len() implies !(hop_by_hop() + names).contains(#[trigger] out[i].0) by {
            assert(out[i] == kept[i]);
        }
    }
}

/// Under a server setup every `Host` header of a request goes upstream,
/// whatever the setup removes.
pub proof fn lemma_host_always_forwarded(hs: Seq<(Seq<u8>, Seq<u8>)>, remove: Seq<Seq<u8>>, i: int)
    requires
        0 <= i < hs.len(),
        hs[i].0 == host_name(),
    ensures
        kept_with_setup(hs, remove).contains(hs[i]),
    decreases hs.len(),
{
    let rest = kept_with_setup(hs.drop_last(), remove);
    if i == hs.len() - 1 {
        assert(kept_with_setup(hs, remove) == rest.push(hs[i]));
        assert(kept_with_setup(hs, remove)[rest.len() as int] == hs[i]);
    } else {
        assert(hs.drop_last()[i] == hs[i]);
        lemma_host_always_forwarded(hs.drop_last(), remove, i);
        let k = choose|k: int| 0 <= k < rest.len() && rest[k] == hs[i];
        if !remove.contains(hs.last().0) || hs.last().0 == host_name() {
            assert(kept_with_setup(hs, remove)[k] == hs[i]);
        }
    }
}

/// Without a server setup only `Host` headers go upstream.
pub proof fn lemma_plain_forwards_only_host(hs: Seq<(Seq<u8>, Seq<u8>)>)
    ensures
        forall|i: int| 0 <= i < host_headers(hs).len() ==> (#[trigger] host_headers(hs)[i]).0 == host_name(),
    decreases hs.len(),
{
    if hs.len() > 0 {
        lemma_plain_forwards_only_host(hs.drop_last());
        let rest = host_headers(hs.drop_last());
        assert forall|i: int| 0 <= i < host_headers(hs).len() implies (#[trigger] host_headers(hs)[i]).0 == host_name() by {
            if i < rest.len() {
                assert(host_headers(hs)[i] == rest[i]);
            }
        }
    }
}

} // verus!
