//! The wire codec: request and reply envelopes.
//!
//! Outbound: `{"request": <name>, "keepalive": true, "arguments": {...}}`,
//! serialized compactly in exactly that member order.  Inbound: an object
//! with a mandatory `status` string, an optional `error` string and an
//! optional `response` value; unknown members are ignored for forward
//! compatibility, and for each known member its first occurrence decides.

use vstd::prelude::*;

verus! {

use crate::json::{Json, JsonView, view_pairs, spec_lookup, str_eq, lemma_view_pairs_index};
use crate::parse::{parse_json, json_of};
use crate::ser::{ser_view, to_bytes};

/// An outbound request envelope.
///
/// `keepalive` is always sent as `true` by this client, signalling that the
/// remote peer must not close the stream after replying.
pub struct Request {
    pub request: String,
    pub keepalive: bool,
    pub arguments: Vec<(String, Json)>,
}

/// An inbound reply envelope.
pub struct Response<T> {
    pub status: String,
    pub error: Option<String>,
    pub response: Option<T>,
}

/// The JSON object a request envelope is serialized as.
pub open spec fn spec_request_envelope(
    name: Seq<char>,
    keepalive: bool,
    args: Seq<(Seq<char>, JsonView)>,
) -> JsonView {
    JsonView::Obj(
        seq![
            ("request"@, JsonView::Str(name)),
            ("keepalive"@, JsonView::Bool(keepalive)),
            ("arguments"@, JsonView::Obj(args)),
        ],
    )
}

pub open spec fn req_envelope(r: Request) -> JsonView {
    spec_request_envelope(r.request@, r.keepalive, view_pairs(r.arguments@))
}

/// Serialize a request envelope to its wire bytes.
pub fn encode_request(req: Request) -> (out: Vec<u8>)
    ensures
        out@ == ser_view(req_envelope(req)),
{
    let ghost goal = req_envelope(req);
    let Request { request, keepalive, arguments } = req;
    let mut pairs: Vec<(String, Json)> = Vec::new();
    pairs.push(("request".to_owned(), Json::Str(request)));
    pairs.push(("keepalive".to_owned(), Json::Bool(keepalive)));
    pairs.push(("arguments".to_owned(), Json::Obj(arguments)));
    let v = Json::Obj(pairs);
    proof {
        lemma_view_pairs_index(pairs@);
        assert(view_pairs(pairs@) =~= goal->Obj_0);
        assert(v@ == goal);
    }
    to_bytes(&v)
}

/// The decoded form of an inbound envelope.
#[verifier::ext_equal]
pub ghost struct EnvView {
    pub status: Seq<char>,
    pub error: Option<Seq<char>>,
    pub response: Option<JsonView>,
}

/// An optional string member: absent or `null` is `None`, a string is
/// `Some`, anything else malformed (outer `None`).
pub open spec fn spec_opt_str_field(
    pairs: Seq<(Seq<char>, JsonView)>,
    key: Seq<char>,
) -> Option<Option<Seq<char>>> {
    match spec_lookup(pairs, key) {
        None => Some(None),
        Some(JsonView::Null) => Some(None),
        Some(JsonView::Str(s)) => Some(Some(s)),
        Some(_) => None,
    }
}

/// What a reply value denotes as an envelope, if it is well-formed:
/// an object whose `status` member is a string; `error`, if present and not
/// `null`, a string; `response`, if present, any value (`null` counting as
/// absent).  Other members are ignored.
pub open spec fn spec_envelope_of(v: JsonView) -> Option<EnvView> {
    match v {
        JsonView::Obj(pairs) => match spec_lookup(pairs, "status"@) {
            Some(JsonView::Str(st)) => match spec_opt_str_field(pairs, "error"@) {
                Some(err) => Some(
                    EnvView {
                        status: st,
                        error: err,
                        response: match spec_lookup(pairs, "response"@) {
                            None => None,
                            Some(JsonView::Null) => None,
                            Some(r) => Some(r),
                        },
                    },
                ),
                None => None,
            },
            _ => None,
        },
        _ => None,
    }
}

/// What a frame's bytes denote as an envelope, if anything.
pub open spec fn spec_decode(bytes: Seq<u8>) -> Option<EnvView> {
    match json_of(bytes) {
        Some(v) => spec_envelope_of(v),
        None => None,
    }
}

pub open spec fn resp_view(resp: Response<Json>) -> EnvView {
    EnvView {
        status: resp.status@,
        error: match resp.error {
            Some(s) => Some(s@),
            None => None,
        },
        response: match resp.response {
            Some(j) => Some(j@),
            None => None,
        },
    }
}

/// Decode one frame into a reply envelope.
///
/// Succeeds exactly when the frame is JSON denoting a well-formed envelope
/// ([`spec_decode`]), and then returns exactly that envelope.
pub fn decode_envelope(frame: &[u8]) -> (r: Option<Response<Json>>)
    ensures
        match r {
            Some(resp) => spec_decode(frame@) == Some(resp_view(resp)),
            None => spec_decode(frame@) is None,
        },
{
    let parsed = match parse_json(frame) {
        Some(p) => p,
        None => {
            return None;
        },
    };
    let pairs = match &parsed {
        Json::Obj(pairs) => pairs,
        _ => {
            return None;
        },
    };
    let status = match crate::json::lookup(pairs, "status") {
        Some(Json::Str(st)) => st.clone(),
        _ => {
            return None;
        },
    };
    let error = match crate::json::lookup(pairs, "error") {
        None => None,
        Some(Json::Null) => None,
        Some(Json::Str(e)) => Some(e.clone()),
        Some(_) => {
            return None;
        },
    };
    let response = match crate::json::lookup(pairs, "response") {
        None => None,
        Some(Json::Null) => None,
        Some(r) => Some(r.deep_clone()),
    };
    let resp = Response { status, error, response };
    proof {
        assert(spec_decode(frame@) matches Some(e) && e =~= resp_view(resp));
    }
    Some(resp)
}

impl<T> Response<T> {
    /// Split an envelope into the caller-facing outcome: the payload when
    /// the remote reported success and sent one, else the remote's error
    /// message, with "Unknown" standing in when it sent none.
    pub fn into_result(self) -> (r: Result<T, String>)
        ensures
            (self.status@ == "success"@ && self.response is Some) ==> (r matches Ok(t) && t
                == self.response->0),
            !(self.status@ == "success"@ && self.response is Some) ==> (r matches Err(m) && (
            match self.error {
                Some(e) => m == e,
                None => m@ == "Unknown"@,
            })),
    {
        let Response { status, error, response } = self;
        if str_eq(status.as_str(), "success") {
            match response {
                Some(t) => Ok(t),
                None => match error {
                    Some(e) => Err(e),
                    None => Err("Unknown".to_owned()),
                },
            }
        } else {
            match error {
                Some(e) => Err(e),
                None => Err("Unknown".to_owned()),
            }
        }
    }
}

} // verus!
