//! The course of one proxied request, as a machine that decides and asks
//! for outside work: the caller performs each action (a cache lookup, the
//! callback to the calling canister, a database read, the upstream request)
//! and hands back what came of it.
use vstd::prelude::*;
use crate::bytes::{ascii, ascii_bytes, copy_all};
use crate::crypto::sha256_spec;
use crate::forwarding::{
    HeaderPair, KeyVerdict, ProxyError, all_values_text, bytes_opt, check_proxy_key,
    check_setup_owner, choose_serve_config, config_uid_of, decode_config_uid, first_header_value, first_value,
    key_verdict, last_header_value, last_value, obtain_upstream_base_url, owner_check, parsed_names,
    append_headers, parse_additions, parsed_additions, prefix_url, prefixed_url, upstream_base_of,
    proxy_error_message, request_cache_key, request_headers_for_setup, request_headers_for_setup_result,
    request_headers_plain, request_headers_plain_result, response_headers_for_setup,
    response_headers_for_setup_result, response_headers_plain, response_headers_plain_result,
    serve_config_choice, text_opt,
};
use crate::framing::{
    FrameError, ResponseParts, cr, deserialize_http_response, frame_error_message, frame_safe, free_of,
    grouped_by_name, header_views, lemma_response_frame_round_trip, lf, request_frame, response_decoding,
    response_frame, serialize_http_response, tab,
};
use crate::ic::{candid_bytes_argument, candid_message_valid, decodes_as_candid, encode_bytes_argument};
use crate::sec1::views;
use crate::text::{ascii_chars, concat2, signed_decimal_string, signed_decimal_text, text_of_ascii};

verus! {

/// A request as the proxy received it.
pub struct ProxyRequest {
    /// The method, as its bytes.
    pub method: Vec<u8>,
    /// The path and query.
    pub path: String,
    /// The whole request URI.
    pub uri: String,
    /// The headers in order, names in lower case.
    pub headers: Vec<HeaderPair>,
    /// The body.
    pub body: Vec<u8>,
    /// The client's IP address as text, when known.
    pub peer_ip: Option<Vec<u8>>,
}

/// A stored server setup.
#[derive(Clone, Copy, PartialEq, Eq, Structural, Debug)]
pub struct SetupRecord {
    /// Its row.
    pub id: i64,
    /// The row of its owner.
    pub user_id: i32,
    /// Whether responses are marked as fetched from upstream.
    pub show_hit_miss: bool,
    /// Whether responses carry the client's address.
    pub add_forwarded_from_header: bool,
}

/// What the machine asks the caller to do next.
pub enum ProxyAction {
    /// Answer 511 with an empty body.
    AnswerUnauthenticated,
    /// Answer with an error carrying the text.
    Fail(String),
    /// Look the cache entry under this key up (holding it until it is set).
    LookUpCache(Vec<u8>),
    /// Answer with a response read back from the cache.
    Reply(ResponseParts),
    /// Ask the calling canister to confirm the request: the Candid
    /// argument holding its key.
    CallBack(Vec<u8>),
    /// Load the server setup with this identifier.
    LoadSetup(Vec<u8>),
    /// Load the principal of the user with this row.
    LoadOwner(i32),
    /// Load the request headers the setup in this row adds and removes.
    LoadRequestEdits(i64),
    /// Send the request upstream to this URL with these headers.
    SendUpstream(String, Vec<HeaderPair>),
    /// Load the response header names the setup in this row removes.
    LoadResponseRemovals(i64),
    /// Load the response headers the setup in this row adds.
    LoadResponseAdditions(i64),
    /// Store the frame in the cache and answer with the status, headers and
    /// body.
    StoreAndReply(Vec<u8>, u16, Vec<HeaderPair>, Vec<u8>),
}

/// Where the machine stands.
#[derive(Clone, Copy, PartialEq, Eq, Structural, Debug)]
pub enum ProxyStage {
    Start,
    CacheLookup,
    Callback,
    Setup,
    Owner,
    RequestEdits,
    Upstream,
    ResponseRemovals,
    ResponseAdditions,
    Finished,
}

/// The course of one proxied request.
pub struct ProxyMachine {
    pub stage: ProxyStage,
    pub request: ProxyRequest,
    pub our_secret: Option<String>,
    pub require_x_principal: bool,
    pub has_callback: bool,
    /// The configured upstream prefix, which stands in for the domain of the
    /// `Host` header.
    pub upstream_prefix: Option<String>,
    /// The configured headers every plain upstream request carries.
    pub upstream_headers: Vec<HeaderPair>,
    /// The cache key, once computed.
    pub key: Vec<u8>,
    /// The raw `X-Config` value of a request under a server setup.
    pub uid_raw: Vec<u8>,
    /// The caller's principal under a server setup.
    pub caller: Vec<u8>,
    /// The server setup, once loaded.
    pub setup: Option<SetupRecord>,
    /// The upstream answer: status, headers, body.
    pub upstream: Option<(u16, Vec<HeaderPair>, Vec<u8>)>,
    /// The response header names the setup removes.
    pub removals: Vec<Vec<u8>>,
}

/// The request's headers as byte strings.
pub open spec fn request_headers(m: ProxyMachine) -> Seq<(Seq<u8>, Seq<u8>)> {
    header_views(m.request.headers@)
}

/// `key` is the cache key of the request.
pub open spec fn key_of_request(req: ProxyRequest, key: Seq<u8>) -> bool {
    exists|g: Seq<(Seq<u8>, Seq<Seq<u8>>)>| {
        &&& grouped_by_name(g, header_views(req.headers@))
        &&& key == sha256_spec(request_frame(req.method@, vstd::utf8::encode_utf8(req.path@), g, req.body@))
    }
}

/// Where a request goes once the cache missed and the callback agreed.
pub enum Route {
    /// Straight to the configured prefix (or the `Host` of the request) with
    /// its `Host` headers and the configured upstream headers.
    Plain(Seq<char>, Seq<(Seq<u8>, Seq<u8>)>),
    /// Through the server setup with this identifier, for this caller.
    Setup(Seq<u8>, Seq<u8>, Seq<u8>),
}

/// The route of a request: its base URL must be known first (the
/// configured prefix, or else from the `Host` header); then the server setup
/// it asks for, if any, decides. Without a setup the request goes to the
/// prefix (or `Host`) followed by its path and query, with its `Host`
/// headers and then the configured upstream headers.
pub open spec fn route_of(
    hs: Seq<(Seq<u8>, Seq<u8>)>,
    path: Seq<char>,
    require: bool,
    prefix: Option<Seq<char>>,
    extra: Seq<(Seq<u8>, Seq<u8>)>,
) -> Result<Route, ProxyError> {
    match upstream_base_of(prefix, first_value(hs, ascii("host"@))) {
        Err(e) => Err(e),
        Ok(base) => match serve_config_choice(require, first_value(hs, ascii("x-config"@)), last_value(hs, ascii("x-principal"@))) {
            Err(e) => Err(e),
            Ok(None) => match request_headers_plain_result(hs) {
                Err(e) => Err(e),
                Ok(h) => match parsed_additions(extra) {
                    Err(e) => Err(e),
                    Ok(x) => Ok(Route::Plain(
                        match prefix {
                            Some(p) => prefixed_url(p, path),
                            None => base + path,
                        },
                        h + x,
                    )),
                },
            },
            Ok(Some((raw, caller))) => match config_uid_of(raw) {
                Err(e) => Err(e),
                Ok(uid) => Ok(Route::Setup(uid, raw, caller)),
            },
        },
    }
}

impl ProxyMachine {
    /// The data each stage relies on is there.
    pub open spec fn wf(&self) -> bool {
        &&& (self.stage == ProxyStage::CacheLookup || self.stage == ProxyStage::Callback) ==> key_of_request(self.request, self.key@)
        &&& (self.stage == ProxyStage::Owner || self.stage == ProxyStage::RequestEdits || self.stage == ProxyStage::ResponseRemovals
            || self.stage == ProxyStage::ResponseAdditions) ==> self.setup is Some
        &&& (self.stage == ProxyStage::ResponseRemovals || self.stage == ProxyStage::ResponseAdditions) ==> self.upstream is Some
        &&& self.stage == ProxyStage::ResponseAdditions ==> parsed_names(views(self.removals@)) is Some
        &&& (self.stage == ProxyStage::Setup || self.stage == ProxyStage::Owner) ==> crate::forwarding::header_text_ok(self.uid_raw@)
    }

    /// The request and the settings are those of `other`.
    pub open spec fn same_request(&self, other: ProxyMachine) -> bool {
        &&& self.request == other.request
        &&& self.our_secret == other.our_secret
        &&& self.require_x_principal == other.require_x_principal
        &&& self.has_callback == other.has_callback
        &&& self.upstream_prefix == other.upstream_prefix
        &&& self.upstream_headers == other.upstream_headers
    }

    /// A machine for a request, with the proxy's secret, whether
    /// `X-Principal` is required, whether a callback is configured, the
    /// upstream prefix and the upstream headers.
    pub fn new(
        request: ProxyRequest,
        our_secret: Option<String>,
        require_x_principal: bool,
        has_callback: bool,
        upstream_prefix: Option<String>,
        upstream_headers: Vec<HeaderPair>,
    ) -> (res: Self)
        ensures
            res.upstream_prefix == upstream_prefix,
            res.upstream_headers == upstream_headers,
            res.wf(),
            res.stage == ProxyStage::Start,
            res.request == request,
            res.our_secret == our_secret,
            res.require_x_principal == require_x_principal,
            res.has_callback == has_callback,
            res.setup is None,
            res.upstream is None,
    {
        ProxyMachine {
            stage: ProxyStage::Start,
            request,
            our_secret,
            require_x_principal,
            has_callback,
            upstream_prefix,
            upstream_headers,
            key: Vec::new(),
            uid_raw: Vec::new(),
            caller: Vec::new(),
            setup: None,
            upstream: None,
            removals: Vec::new(),
        }
    }

    /// The shared-key check, then the cache lookup.
    pub fn start(&mut self) -> (act: ProxyAction)
        requires
            old(self).wf(),
            old(self).stage == ProxyStage::Start,
        ensures
            final(self).wf(),
            final(self).request == old(self).request,
            final(self).our_secret == old(self).our_secret,
            final(self).require_x_principal == old(self).require_x_principal,
            final(self).has_callback == old(self).has_callback,
            final(self).setup == old(self).setup,
            final(self).upstream == old(self).upstream,
            match key_verdict(text_opt(old(self).our_secret), first_value(request_headers(*old(self)), ascii("x-joinproxy-key"@))) {
                KeyVerdict::Rejected => final(self).stage == ProxyStage::Finished && act is AnswerUnauthenticated,
                KeyVerdict::Unreadable => {
                    &&& final(self).stage == ProxyStage::Finished
                    &&& act matches ProxyAction::Fail(m) && m@ == proxy_error_message(ProxyError::UnreadableKeyHeader)
                },
                KeyVerdict::Proceed => if all_values_text(request_headers(*old(self))) {
                    &&& final(self).stage == ProxyStage::CacheLookup
                    &&& act matches ProxyAction::LookUpCache(k) && k@ == final(self).key@ && key_of_request(final(self).request, k@)
                } else {
                    &&& final(self).stage == ProxyStage::Finished
                    &&& act matches ProxyAction::Fail(m) && m@ == proxy_error_message(ProxyError::UnreadableHeader)
                },
            },
    {
        let key_name = ascii_bytes("x-joinproxy-key");
        let passed = first_header_value(&self.request.headers, key_name.as_slice());
        match check_proxy_key(&self.our_secret, &passed) {
            KeyVerdict::Rejected => {
                self.stage = ProxyStage::Finished;
                ProxyAction::AnswerUnauthenticated
            },
            KeyVerdict::Unreadable => {
                self.stage = ProxyStage::Finished;
                ProxyAction::Fail(ProxyError::UnreadableKeyHeader.message())
            },
            KeyVerdict::Proceed => {
                let digest = match request_cache_key(self.request.method.as_slice(), self.request.path.as_str().as_bytes(), &self.request.headers, self.request.body.as_slice()) {
                    Ok(d) => d,
                    Err(e) => {
                        self.stage = ProxyStage::Finished;
                        return fail(e);
                    },
                };
                let key = copy_all(&digest);
                self.key = copy_all(key.as_slice());
                self.stage = ProxyStage::CacheLookup;
                proof {
                    let path_bytes = vstd::utf8::encode_utf8(self.request.path@);
                    let g = choose|g: Seq<(Seq<u8>, Seq<Seq<u8>>)>| {
                        &&& grouped_by_name(g, header_views(self.request.headers@))
                        &&& digest@ == sha256_spec(request_frame(self.request.method@, path_bytes, g, self.request.body@))
                    };
                    assert(key_of_request(self.request, key@));
                }
                ProxyAction::LookUpCache(key)
            },
        }
    }
}

/// The machine moved on from `old` to `new` along the request's route,
/// asking for `act`.
pub open spec fn routed(old: ProxyMachine, new: ProxyMachine, act: ProxyAction) -> bool {
    match route_of(
        request_headers(old),
        old.request.path@,
        old.require_x_principal,
        text_opt(old.upstream_prefix),
        header_views(old.upstream_headers@),
    ) {
        Err(e) => {
            &&& new.stage == ProxyStage::Finished
            &&& act matches ProxyAction::Fail(m) && m@ == proxy_error_message(e)
        },
        Ok(Route::Plain(url, hs)) => {
            &&& new.stage == ProxyStage::Upstream
            &&& new.setup is None
            &&& act matches ProxyAction::SendUpstream(u, h) && u@ == url && header_views(h@) == hs
        },
        Ok(Route::Setup(uid, raw, caller)) => {
            &&& new.stage == ProxyStage::Setup
            &&& new.uid_raw@ == raw
            &&& new.caller@ == caller
            &&& new.setup is None
            &&& act matches ProxyAction::LoadSetup(v) && v@ == uid
        },
    }
}

/// The failure text of a proxy refusal.
fn fail(e: ProxyError) -> (act: ProxyAction)
    ensures
        act matches ProxyAction::Fail(m) && m@ == proxy_error_message(e),
{
    ProxyAction::Fail(e.message())
}

impl ProxyMachine {
    /// Sets out on the request's route once the cache missed (and the
    /// callback, if any, agreed).
    fn route(&mut self) -> (act: ProxyAction)
        requires
            old(self).wf(),
            old(self).stage == ProxyStage::CacheLookup || old(self).stage == ProxyStage::Callback,
        ensures
            final(self).wf(),
            final(self).same_request(*old(self)),
            final(self).upstream == old(self).upstream,
            routed(*old(self), *final(self), act),
    {
        let host_name = ascii_bytes("host");
        let host = first_header_value(&self.request.headers, host_name.as_slice());
        let base = match &self.upstream_prefix {
            Some(p) => p.clone(),
            None => match obtain_upstream_base_url(&host) {
                Ok(b) => b,
                Err(e) => {
                    self.stage = ProxyStage::Finished;
                    return fail(e);
                },
            },
        };
        let config_name = ascii_bytes("x-config");
        let principal_name = ascii_bytes("x-principal");
        let x_config = first_header_value(&self.request.headers, config_name.as_slice());
        let principal = last_header_value(&self.request.headers, principal_name.as_slice());
        match choose_serve_config(self.require_x_principal, &x_config, &principal) {
            Err(e) => {
                self.stage = ProxyStage::Finished;
                fail(e)
            },
            Ok(None) => match request_headers_plain(&self.request.headers) {
                Err(e) => {
                    self.stage = ProxyStage::Finished;
                    fail(e)
                },
                Ok(h) => match parse_additions(&self.upstream_headers) {
                    Err(e) => {
                        self.stage = ProxyStage::Finished;
                        fail(e)
                    },
                    Ok(x) => {
                        let url = match &self.upstream_prefix {
                            Some(p) => prefix_url(p.as_str(), self.request.path.as_str()),
                            None => concat2(base.as_str(), self.request.path.as_str()),
                        };
                        let mut headers = h;
                        let ghost hv = header_views(headers@);
                        append_headers(&mut headers, &x);
                        assert(header_views(headers@) =~= hv + header_views(x@));
                        self.stage = ProxyStage::Upstream;
                        self.setup = None;
                        ProxyAction::SendUpstream(url, headers)
                    },
                },
            },
            Ok(Some((raw, caller))) => match decode_config_uid(raw.as_slice()) {
                Err(e) => {
                    self.stage = ProxyStage::Finished;
                    fail(e)
                },
                Ok(uid) => {
                    self.stage = ProxyStage::Setup;
                    self.uid_raw = raw;
                    self.caller = caller;
                    self.setup = None;
                    ProxyAction::LoadSetup(uid)
                },
            },
        }
    }

    /// What the cache held under the key: a stored response is answered
    /// from; a miss goes to the callback, if one is configured, or on its
    /// route.
    pub fn on_cache(&mut self, cached: Option<Vec<u8>>) -> (act: ProxyAction)
        requires
            old(self).wf(),
            old(self).stage == ProxyStage::CacheLookup,
        ensures
            final(self).wf(),
            final(self).same_request(*old(self)),
            match cached {
                Some(f) => {
                    &&& final(self).stage == ProxyStage::Finished
                    &&& match response_decoding(f@) {
                        Ok((st, hs, body)) => act matches ProxyAction::Reply(p) && p.status == st && header_views(p.headers@) == hs && p.body@ == body,
                        Err(e) => act matches ProxyAction::Fail(m) && m@ == frame_error_message(e),
                    }
                },
                None => if old(self).has_callback {
                    &&& final(self).stage == ProxyStage::Callback
                    &&& final(self).key@ == old(self).key@
                    &&& act matches ProxyAction::CallBack(a) && a@ == candid_bytes_argument(old(self).key@)
                } else {
                    routed(*old(self), *final(self), act)
                },
            },
    {
        match cached {
            Some(frame) => {
                self.stage = ProxyStage::Finished;
                match deserialize_http_response(frame.as_slice()) {
                    Ok(parts) => ProxyAction::Reply(parts),
                    Err(e) => ProxyAction::Fail(e.message()),
                }
            },
            None => {
                if self.has_callback {
                    match encode_bytes_argument(self.key.as_slice()) {
                        Ok(arg) => {
                            self.stage = ProxyStage::Callback;
                            ProxyAction::CallBack(arg)
                        },
                        Err(m) => {
                            self.stage = ProxyStage::Finished;
                            ProxyAction::Fail(m)
                        },
                    }
                } else {
                    self.route()
                }
            },
        }
    }

    /// What the calling canister answered: a failed call ends the request
    /// with its text, and so does a reply that is no Candid message; an
    /// agreement sends the request on its route.
    pub fn on_callback(&mut self, outcome: Result<Vec<u8>, String>) -> (act: ProxyAction)
        requires
            old(self).wf(),
            old(self).stage == ProxyStage::Callback,
        ensures
            final(self).wf(),
            final(self).same_request(*old(self)),
            match outcome {
                Err(m) => final(self).stage == ProxyStage::Finished && act == ProxyAction::Fail(m),
                Ok(reply) => if candid_message_valid(reply@) {
                    routed(*old(self), *final(self), act)
                } else {
                    &&& final(self).stage == ProxyStage::Finished
                    &&& act matches ProxyAction::Fail(m) && m@ == "Callback decode"@
                },
            },
    {
        match outcome {
            Err(m) => {
                self.stage = ProxyStage::Finished;
                ProxyAction::Fail(m)
            },
            Ok(reply) => {
                if decodes_as_candid(reply.as_slice()) {
                    self.route()
                } else {
                    self.stage = ProxyStage::Finished;
                    ProxyAction::Fail("Callback decode".to_owned())
                }
            },
        }
    }

    /// The server setup the request named, if it exists.
    pub fn on_setup(&mut self, record: Option<SetupRecord>) -> (act: ProxyAction)
        requires
            old(self).wf(),
            old(self).stage == ProxyStage::Setup,
        ensures
            final(self).wf(),
            final(self).same_request(*old(self)),
            final(self).caller == old(self).caller,
            match record {
                None => {
                    &&& final(self).stage == ProxyStage::Finished
                    &&& act matches ProxyAction::Fail(m) && m@ == "no serve config with uid "@ + ascii_chars(old(self).uid_raw@)
                },
                Some(r) => {
                    &&& final(self).stage == ProxyStage::Owner
                    &&& final(self).setup == Some(r)
                    &&& act == ProxyAction::LoadOwner(r.user_id)
                },
            },
    {
        match record {
            None => {
                self.stage = ProxyStage::Finished;
                let text = text_of_ascii(self.uid_raw.as_slice());
                ProxyAction::Fail(concat2("no serve config with uid ", text.as_str()))
            },
            Some(r) => {
                self.stage = ProxyStage::Owner;
                self.setup = Some(r);
                ProxyAction::LoadOwner(r.user_id)
            },
        }
    }

    /// The principal of the setup's owner, if the user exists: only the
    /// owner may use the setup.
    pub fn on_owner(&mut self, owner: Option<Vec<u8>>) -> (act: ProxyAction)
        requires
            old(self).wf(),
            old(self).stage == ProxyStage::Owner,
        ensures
            final(self).wf(),
            final(self).same_request(*old(self)),
            final(self).setup == old(self).setup,
            match owner {
                None => {
                    &&& final(self).stage == ProxyStage::Finished
                    &&& act matches ProxyAction::Fail(m) && m@ == "no user with id "@ + signed_decimal_text(old(self).setup->0.user_id as int)
                },
                Some(o) => match owner_check(o@, old(self).caller@) {
                    Err(e) => {
                        &&& final(self).stage == ProxyStage::Finished
                        &&& act matches ProxyAction::Fail(m) && m@ == proxy_error_message(e)
                    },
                    Ok(()) => {
                        &&& final(self).stage == ProxyStage::RequestEdits
                        &&& act == ProxyAction::LoadRequestEdits(old(self).setup->0.id)
                    },
                },
            },
    {
        let r = match self.setup {
            Some(r) => r,
            None => {
                self.stage = ProxyStage::Finished;
                return ProxyAction::AnswerUnauthenticated;
            },
        };
        match owner {
            None => {
                self.stage = ProxyStage::Finished;
                let id = signed_decimal_string(r.user_id as i64);
                ProxyAction::Fail(concat2("no user with id ", id.as_str()))
            },
            Some(o) => match check_setup_owner(o.as_slice(), self.caller.as_slice()) {
                Err(e) => {
                    self.stage = ProxyStage::Finished;
                    fail(e)
                },
                Ok(()) => {
                    self.stage = ProxyStage::RequestEdits;
                    ProxyAction::LoadRequestEdits(r.id)
                },
            },
        }
    }

    /// The request headers the setup adds and removes: the request goes
    /// upstream to its own URI with the edited headers.
    pub fn on_request_edits(&mut self, add: Vec<HeaderPair>, remove: Vec<Vec<u8>>) -> (act: ProxyAction)
        requires
            old(self).wf(),
            old(self).stage == ProxyStage::RequestEdits,
        ensures
            final(self).wf(),
            final(self).same_request(*old(self)),
            final(self).setup == old(self).setup,
            match request_headers_for_setup_result(request_headers(*old(self)), views(remove@), header_views(add@)) {
                Err(e) => {
                    &&& final(self).stage == ProxyStage::Finished
                    &&& act matches ProxyAction::Fail(m) && m@ == proxy_error_message(e)
                },
                Ok(hs) => {
                    &&& final(self).stage == ProxyStage::Upstream
                    &&& act matches ProxyAction::SendUpstream(u, h) && u@ == old(self).request.uri@ && header_views(h@) == hs
                },
            },
    {
        match request_headers_for_setup(&self.request.headers, &remove, &add) {
            Err(e) => {
                self.stage = ProxyStage::Finished;
                fail(e)
            },
            Ok(h) => {
                self.stage = ProxyStage::Upstream;
                let uri = self.request.uri.clone();
                ProxyAction::SendUpstream(uri, h)
            },
        }
    }
}

/// The client's address, when the setup asks for it.
pub open spec fn forwarded_for_of(r: SetupRecord, req: ProxyRequest) -> Option<Seq<u8>> {
    if r.add_forwarded_from_header { bytes_opt(req.peer_ip) } else { None }
}

/// The answer stored and sent: the cached frame holds the upstream status,
/// headers and body; the client gets the edited headers.
pub open spec fn stores_and_replies(act: ProxyAction, status: u16, upstream: Seq<(Seq<u8>, Seq<u8>)>, body: Seq<u8>, edited: Seq<(Seq<u8>, Seq<u8>)>) -> bool {
    act matches ProxyAction::StoreAndReply(f, st, h, b) && f@ == response_frame(status, upstream, body) && st == status
        && header_views(h@) == edited && b@ == body
}

impl ProxyMachine {
    /// The upstream answer: without a setup it is stored and sent on; under
    /// a setup its headers must read as text before the setup's response
    /// edits are loaded.
    pub fn on_upstream(&mut self, status: u16, headers: Vec<HeaderPair>, body: Vec<u8>) -> (act: ProxyAction)
        requires
            old(self).wf(),
            old(self).stage == ProxyStage::Upstream,
        ensures
            final(self).wf(),
            final(self).same_request(*old(self)),
            final(self).setup == old(self).setup,
            match old(self).setup {
                None => match response_headers_plain_result(header_views(headers@)) {
                    Err(e) => {
                        &&& final(self).stage == ProxyStage::Finished
                        &&& act matches ProxyAction::Fail(m) && m@ == proxy_error_message(e)
                    },
                    Ok(hs) => {
                        &&& final(self).stage == ProxyStage::Finished
                        &&& stores_and_replies(act, status, header_views(headers@), body@, hs)
                    },
                },
                Some(r) => if !all_values_text(header_views(headers@)) {
                    &&& final(self).stage == ProxyStage::Finished
                    &&& act matches ProxyAction::Fail(m) && m@ == proxy_error_message(ProxyError::UnreadableHeader)
                } else {
                    &&& final(self).stage == ProxyStage::ResponseRemovals
                    &&& final(self).upstream matches Some((st, hs, b)) && st == status && hs@ == headers@ && b@ == body@
                    &&& act == ProxyAction::LoadResponseRemovals(r.id)
                },
            },
    {
        match self.setup {
            None => {
                self.stage = ProxyStage::Finished;
                match response_headers_plain(&headers) {
                    Err(e) => fail(e),
                    Ok(hs) => {
                        let (frame, body_copy) = serialize_http_response(status, &headers, body.as_slice());
                        ProxyAction::StoreAndReply(frame, status, hs, body_copy)
                    },
                }
            },
            Some(r) => {
                match response_headers_plain(&headers) {
                    Err(e) => {
                        self.stage = ProxyStage::Finished;
                        fail(e)
                    },
                    Ok(_) => {
                        self.stage = ProxyStage::ResponseRemovals;
                        self.upstream = Some((status, headers, body));
                        ProxyAction::LoadResponseRemovals(r.id)
                    },
                }
            },
        }
    }

    /// The response header names the setup removes: they must be header
    /// names before its additions are loaded.
    pub fn on_response_removals(&mut self, remove: Vec<Vec<u8>>) -> (act: ProxyAction)
        requires
            old(self).wf(),
            old(self).stage == ProxyStage::ResponseRemovals,
        ensures
            final(self).wf(),
            final(self).same_request(*old(self)),
            final(self).setup == old(self).setup,
            final(self).upstream == old(self).upstream,
            match parsed_names(views(remove@)) {
                None => {
                    &&& final(self).stage == ProxyStage::Finished
                    &&& act matches ProxyAction::Fail(m) && m@ == proxy_error_message(ProxyError::InvalidHeaderName)
                },
                Some(_) => {
                    &&& final(self).stage == ProxyStage::ResponseAdditions
                    &&& final(self).removals@ == remove@
                    &&& act == ProxyAction::LoadResponseAdditions(old(self).setup->0.id)
                },
            },
    {
        let r = match self.setup {
            Some(r) => r,
            None => {
                self.stage = ProxyStage::Finished;
                return ProxyAction::AnswerUnauthenticated;
            },
        };
        let mut names: Vec<Vec<u8>> = Vec::new();
        if !crate::forwarding::parse_names_into(&mut names, &remove) {
            self.stage = ProxyStage::Finished;
            return fail(ProxyError::InvalidHeaderName);
        }
        self.stage = ProxyStage::ResponseAdditions;
        self.removals = remove;
        ProxyAction::LoadResponseAdditions(r.id)
    }

    /// The response headers the setup adds: the upstream answer is stored
    /// as it came, and sent with the setup's edits.
    pub fn on_response_additions(&mut self, add: Vec<HeaderPair>) -> (act: ProxyAction)
        requires
            old(self).wf(),
            old(self).stage == ProxyStage::ResponseAdditions,
        ensures
            final(self).wf(),
            final(self).same_request(*old(self)),
            final(self).stage == ProxyStage::Finished,
            ({
                let r = old(self).setup->0;
                let up = old(self).upstream->0;
                match response_headers_for_setup_result(header_views(up.1@), r.show_hit_miss,
                    forwarded_for_of(r, old(self).request), views(old(self).removals@), header_views(add@)) {
                    Err(e) => act matches ProxyAction::Fail(m) && m@ == proxy_error_message(e),
                    Ok(hs) => stores_and_replies(act, up.0, header_views(up.1@), up.2@, hs),
                }
            }),
    {
        self.stage = ProxyStage::Finished;
        let r = match self.setup {
            Some(r) => r,
            None => return ProxyAction::AnswerUnauthenticated,
        };
        let up = match &self.upstream {
            Some(u) => u,
            None => return ProxyAction::AnswerUnauthenticated,
        };
        let forwarded_for = if r.add_forwarded_from_header {
            match &self.request.peer_ip {
                Some(ip) => Some(copy_all(ip.as_slice())),
                None => None,
            }
        } else {
            None
        };
        match response_headers_for_setup(&up.1, r.show_hit_miss, forwarded_for, &self.removals, &add) {
            Err(e) => fail(e),
            Ok(hs) => {
                let (frame, body_copy) = serialize_http_response(up.0, &up.1, up.2.as_slice());
                ProxyAction::StoreAndReply(frame, up.0, hs, body_copy)
            },
        }
    }
}

/// What the proxy stores is what a later hit answers: a response it stores
/// (its header values read as text, which the proxy checks before storing)
/// comes back from its frame with the same status, headers and body, given
/// a three-digit status, at least one header, and header names free of
/// tab, CR and LF (as header names are).
pub proof fn lemma_stored_response_replayed(status: u16, upstream: Seq<(Seq<u8>, Seq<u8>)>, body: Seq<u8>)
    requires
        100 <= status < 1000,
        upstream.len() >= 1,
        all_values_text(upstream),
        forall|i: int| 0 <= i < upstream.len() ==> {
            &&& free_of(#[trigger] upstream[i].0, tab())
            &&& free_of(upstream[i].0, cr())
            &&& free_of(upstream[i].0, lf())
        },
    ensures
        response_decoding(response_frame(status, upstream, body))
            == Ok::<(u16, Seq<(Seq<u8>, Seq<u8>)>, Seq<u8>), FrameError>((status, upstream, body)),
{
    assert forall|i: int| 0 <= i < upstream.len() implies frame_safe(#[trigger] upstream[i]) by {
        assert(crate::forwarding::header_text_ok(upstream[i].1));
        assert forall|k: int| 0 <= k < upstream[i].1.len() implies #[trigger] upstream[i].1[k] != cr() && upstream[i].1[k] != lf() by {
            assert(crate::forwarding::visible_ascii(upstream[i].1[k]));
        }
    }
    lemma_response_frame_round_trip(status, upstream, body);
}

} // verus!
