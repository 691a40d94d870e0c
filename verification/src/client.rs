//! The client: whom it connects to, and how.

use vstd::prelude::*;
use vstd::slice::slice_to_vec;

use crate::config::ALPN;
use crate::key::{
    is_public_key, law_one_peer_id, law_peer_id_round_trip, peer_of, EndpointId, PeerIdError,
};
use crate::server::{
    build_endpoint, byte_strings, endpoint_view, served_alpns, EndpointPlan, RelayPlan,
};
use crate::text::{is_text, opt_text};
use crate::z32::z32_text;

verus! {

/// What a client needs once the peer is known.
#[derive(Debug)]
pub struct ConnectPlan {
    /// The peer to connect to.
    pub peer: EndpointId,
    /// The relay through which the peer can be reached, if any.
    pub peer_relay: Option<String>,
    /// The protocol to ask for.
    pub alpn: Vec<u8>,
    pub endpoint: EndpointPlan,
}

/// Plans a client. Its endpoint accepts no connections, and the peer is looked
/// for at the relay that the endpoint uses.
pub fn cmd_connect(peer_id: &str, relay_url: Option<String>, mdns: bool) -> (r: Result<
    ConnectPlan,
    PeerIdError,
>)
    ensures
        match peer_of(peer_id@) {
            Ok(id) => r matches Ok(plan) && {
                &&& plan.peer@ == id
                &&& opt_text(plan.peer_relay) == opt_text(relay_url)
                &&& plan.alpn@ == ALPN@
                &&& plan.endpoint@ == endpoint_view(
                    opt_text(relay_url),
                    mdns,
                    None,
                    Seq::empty(),
                )
            },
            Err(e) => r == Err::<ConnectPlan, PeerIdError>(e),
        },
{
    let peer: EndpointId = match EndpointId::from_z32(peer_id) {
        Ok(id) => id,
        Err(e) => {
            return Err(e);
        },
    };
    let peer_relay: Option<String> = match &relay_url {
        Some(url) => Some(url.clone()),
        None => None,
    };
    let alpns: Vec<Vec<u8>> = Vec::new();
    proof {
        assert(byte_strings(alpns) =~= Seq::<Seq<u8>>::empty());
    }
    Ok(
        ConnectPlan {
            peer,
            peer_relay,
            alpn: slice_to_vec(ALPN.as_slice()),
            endpoint: build_endpoint(relay_url, mdns, None, alpns),
        },
    )
}

/// How a client is set up: it connects to the peer whose ID is given, through the
/// relay that is given, if any, which its endpoint uses as well. It asks for the
/// protocol `p2pssh/1`, uses mDNS where asked to, accepts no connections and has no
/// hook. It is not set up where, and only where, the text is not a peer ID.
pub proof fn law_client_plan(
    peer_id: &str,
    relay_url: Option<String>,
    mdns: bool,
    r: Result<ConnectPlan, PeerIdError>,
    key: Seq<u8>,
)
    requires
        call_ensures(cmd_connect, (peer_id, relay_url, mdns), r),
    ensures
        peer_id@ == z32_text(key) && key.len() == 32 && is_public_key(key) ==> r is Ok,
        r matches Ok(plan) ==> {
            &&& peer_id@ == z32_text(plan.peer@) && plan.peer@.len() == 32
            &&& is_public_key(plan.peer@)
            &&& match relay_url {
                Some(given) => {
                    &&& plan.peer_relay matches Some(url) && url@ == given@
                    &&& plan.endpoint.relay matches RelayPlan::Custom { url } && url@ == given@
                },
                None => plan.peer_relay is None && plan.endpoint.relay is Disabled,
            }
            &&& is_text(plan.alpn@, "p2pssh/1"@)
            &&& plan.endpoint.mdns == mdns
            &&& plan.endpoint.alpns is None
            &&& plan.endpoint.hook is None
        },
        r matches Err(e) ==> (e is NotBase32 <==> forall|b: Seq<u8>|
            peer_id@ != #[trigger] z32_text(b)),
{
    reveal_strlit("p2pssh/1");
    if peer_id@ == z32_text(key) && key.len() == 32 && is_public_key(key) {
        law_peer_id_round_trip(key);
    }
    if let Ok(plan) = r {
        law_one_peer_id(peer_id@, plan.peer@);
    }
}

/// A client asks for a protocol that servers accept, however they are set up.
pub proof fn law_same_protocol(
    relay_url: Option<Seq<char>>,
    mdns: bool,
    authorized_keys: Option<Set<Seq<u8>>>,
)
    ensures
        endpoint_view(relay_url, mdns, authorized_keys, served_alpns()).alpns matches Some(alpns)
            && alpns.contains(ALPN@),
{
    assert(served_alpns()[0] == ALPN@);
}

} // verus!
