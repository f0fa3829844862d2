//! The endpoint facade.
//!
//! An [`Endpoint`] owns one connection handle, the reusable scratch buffer
//! of the frame reader, and the dialect classified for the connection.  The
//! protocol has no request identifiers, so correctness rests on strict
//! request/response alternation; one endpoint serves one caller at a time.
//!
//! The embedder drives the byte stream: write the encoded request to the
//! socket, feed whatever the socket yields into the endpoint until a frame
//! is ready, decode it, and hand the payload to the typed handlers here.
//! The endpoint itself never blocks and never touches the socket, so any
//! execution model - thread-blocking or cooperative - fits around it.

use vstd::prelude::*;

verus! {

use crate::frame::{FrameReader, FrameStep, frame_scan, ScanState};
use crate::dialect::RouterVersion;
use crate::json::{Json, view_pairs, JsonView};
use crate::entities::{PeerEntry, SessionEntry, SelfEntry, PathEntry, DHTEntry, TunEntry,
    TreeEntry, ListEntry, Empty};
use crate::normalize::{peers_post, peers_from_response, sessions_post, sessions_from_response,
    self_post, self_from_response, paths_post, paths_from_response, dht_post, dht_from_response,
    trees_match, trees_ok, tree_from_response, is_tun, tun_ok, tun_from_response, f_str_arr,
    multicast_interfaces_from_response, node_info_from_response, list_post, list_from_response,
    empty_from_response};

/// One attachment to the remote daemon's control socket.
pub struct Endpoint<S> {
    scratch: FrameReader,
    socket: S,
    router_version: RouterVersion,
}

impl<S> Endpoint<S> {
    /// The dialect this endpoint speaks.
    pub closed spec fn version(self) -> RouterVersion {
        self.router_version
    }

    /// Bytes received but not yet handed out as frames.
    pub closed spec fn pending(self) -> Seq<u8> {
        self.scratch@
    }

    /// The connection handle.
    pub closed spec fn sock(self) -> S {
        self.socket
    }

    /// Attach to a socket with a dialect already known out-of-band,
    /// skipping the probe.
    pub fn attach_version(socket: S, router_version: RouterVersion) -> (r: Self)
        ensures
            r.sock() == socket,
            r.version() == router_version,
            r.pending() == Seq::<u8>::empty(),
    {
        Endpoint { scratch: FrameReader::new(), socket, router_version }
    }

    /// Record the dialect classified by the negotiation probe.
    pub fn set_version(&mut self, router_version: RouterVersion)
        ensures
            final(self).version() == router_version,
            final(self).sock() == old(self).sock(),
            final(self).pending() == old(self).pending(),
    {
        self.router_version = router_version;
    }

    /// The dialect classified (or forced) for this connection.
    pub fn get_version(&self) -> (r: RouterVersion)
        ensures
            r == self.version(),
    {
        self.router_version
    }

    /// Give up the endpoint, returning the socket.
    pub fn into_inner(self) -> (r: S)
        ensures
            r == self.sock(),
    {
        self.socket
    }

    /// Borrow the socket.
    pub fn get_ref(&self) -> (r: &S)
        ensures
            *r == self.sock(),
    {
        &self.socket
    }

    /// Borrow the socket mutably (to write a request or read a reply).
    pub fn get_mut(&mut self) -> (r: &mut S)
        ensures
            *r == old(self).sock(),
            final(self).sock() == *final(r),
            final(self).version() == old(self).version(),
            final(self).pending() == old(self).pending(),
    {
        &mut self.socket
    }

    /// Hand bytes read from the socket to the frame reader.
    pub fn feed(&mut self, chunk: &[u8])
        ensures
            final(self).pending() == old(self).pending() + chunk@,
            final(self).version() == old(self).version(),
            final(self).sock() == old(self).sock(),
    {
        self.scratch.feed(chunk);
    }

    /// Take the first complete frame out of the pending bytes, if any.
    pub fn next_frame(&mut self) -> (r: FrameStep)
        ensures
            final(self).version() == old(self).version(),
            final(self).sock() == old(self).sock(),
            match frame_scan(old(self).pending()) {
                ScanState::Done { end } => r matches FrameStep::Ready(f) && f@ == old(
                    self,
                ).pending().take(end) && final(self).pending() == old(self).pending().skip(end),
                ScanState::Bad => r is Invalid && final(self).pending() == old(self).pending(),
                _ => r is Incomplete && final(self).pending() == old(self).pending(),
            },
    {
        self.scratch.next_frame()
    }

    /// Reshape a successful `getpeers` payload for this dialect.
    pub fn get_peers(&self, response: &Json) -> (r: Option<Vec<PeerEntry>>)
        ensures
            peers_post(self.version(), response@, r),
    {
        peers_from_response(self.router_version, response)
    }

    /// Reshape a successful `getsessions` payload for this dialect.
    pub fn get_sessions(&self, response: &Json) -> (r: Option<Vec<SessionEntry>>)
        ensures
            sessions_post(self.version(), response@, r),
    {
        sessions_from_response(self.router_version, response)
    }

    /// Reshape a successful `getself` payload for this dialect.
    pub fn get_self(&self, response: &Json) -> (r: Option<Result<SelfEntry, String>>)
        ensures
            self_post(self.version(), response@, r),
    {
        self_from_response(self.router_version, response)
    }

    /// Reshape a successful `getpaths` payload for this dialect.
    pub fn get_paths(&self, response: &Json) -> (r: Option<Vec<PathEntry>>)
        ensures
            paths_post(self.version(), response@, r),
    {
        paths_from_response(self.router_version, response)
    }

    /// Reshape a successful `getdht` payload for this dialect.
    pub fn get_dht(&self, response: &Json) -> (r: Option<Vec<DHTEntry>>)
        ensures
            dht_post(self.version(), response@, r),
    {
        dht_from_response(self.router_version, response)
    }

    /// Reshape a successful `getnodeinfo` payload: the opaque mapping.
    pub fn get_node_info(&self, response: &Json) -> (r: Option<Vec<(String, Json)>>)
        ensures
            match response@ {
                JsonView::Obj(ps) => r matches Some(v) && view_pairs(v@) == ps,
                _ => r is None,
            },
    {
        node_info_from_response(response)
    }

    /// Reshape a successful `getmulticastinterfaces` payload.
    pub fn get_multicast_interfaces(&self, response: &Json) -> (r: Option<Vec<String>>)
        ensures
            match response@ {
                JsonView::Obj(ps) => (match f_str_arr(ps, "multicast_interfaces"@) {
                    Some(ss) => r matches Some(v) && v.deep_view() == ss,
                    None => r is None,
                }),
                _ => r is None,
            },
    {
        multicast_interfaces_from_response(response)
    }

    /// Reshape a successful `gettun` payload.
    pub fn get_tun(&self, response: &Json) -> (r: Option<TunEntry>)
        ensures
            r matches Some(e) ==> is_tun(response@, e),
            r is Some <==> tun_ok(response@),
    {
        tun_from_response(response)
    }

    /// Reshape a successful `gettree` payload (current dialect only;
    /// asking an older daemon is the caller's error and fails remotely).
    pub fn get_tree(&self, response: &Json) -> (r: Option<Vec<TreeEntry>>)
        ensures
            r matches Some(v) ==> trees_match(response@, v@),
            r is Some <==> trees_ok(response@),
    {
        tree_from_response(response)
    }

    /// Reshape a successful `list` payload for this dialect.
    pub fn list(&self, response: &Json) -> (r: Option<Vec<ListEntry>>)
        ensures
            list_post(self.version(), response@, r),
    {
        list_from_response(self.router_version, response)
    }

    /// Read the empty success marker of `addpeer` / `removepeer`.
    pub fn empty_response(&self, response: &Json) -> (r: Option<Empty>)
        ensures
            r is Some <==> response@ is Obj,
    {
        empty_from_response(response)
    }
}

/// The argument mapping of `addpeer` and `removepeer`: the peer URI, and
/// the interface to bind when one is given.
pub fn peer_arguments(uri: String, interface: Option<String>) -> (r: Vec<(String, Json)>)
    ensures
        view_pairs(r@) == (match interface {
            Some(itf) => seq![
                ("uri"@, JsonView::Str(uri@)),
                ("interface"@, JsonView::Str(itf@)),
            ],
            None => seq![("uri"@, JsonView::Str(uri@))],
        }),
{
    let ghost gitf = interface;
    let mut args: Vec<(String, Json)> = Vec::new();
    args.push(("uri".to_owned(), Json::Str(uri)));
    match interface {
        Some(itf) => {
            args.push(("interface".to_owned(), Json::Str(itf)));
            proof {
                crate::json::lemma_view_pairs_index(args@);
                assert(view_pairs(args@) =~= seq![
                    ("uri"@, JsonView::Str(args@[0].1->Str_0@)),
                    ("interface"@, JsonView::Str(args@[1].1->Str_0@)),
                ]);
            }
        },
        None => {
            proof {
                crate::json::lemma_view_pairs_index(args@);
                assert(view_pairs(args@) =~= seq![("uri"@, JsonView::Str(args@[0].1->Str_0@))]);
            }
        },
    }
    args
}

/// The argument mapping of `getnodeinfo`: the queried key.
pub fn node_info_arguments(key: String) -> (r: Vec<(String, Json)>)
    ensures
        view_pairs(r@) == seq![("key"@, JsonView::Str(key@))],
{
    let mut args: Vec<(String, Json)> = Vec::new();
    args.push(("key".to_owned(), Json::Str(key)));
    proof {
        crate::json::lemma_view_pairs_index(args@);
        assert(view_pairs(args@) =~= seq![("key"@, JsonView::Str(args@[0].1->Str_0@))]);
    }
    args
}

} // verus!
