//! The server: how its endpoint is set up, what it announces, and which
//! connections it takes on.

use vstd::prelude::*;
use vstd::slice::slice_to_vec;

use crate::config::ALPN;
use crate::key::{
    authorized, handshake_outcome, law_refused_without_keys, listed, lists, load_authorized_keys,
    peer_of, public_of, AuthHook, AuthorizedKeys, EndpointId, HandshakeOutcome, HandshakeView,
    KeyFileError, KeyFileFault, PeerIdError, SecretKey, REJECT_CODE, REJECT_REASON,
};
use crate::text::{is_text, opt_str, opt_text};
use crate::z32::z32_text;

verus! {

/// How long to wait for the endpoint to come online, in seconds.
pub const ONLINE_TIMEOUT_SECS: u64 = 30;

/// How peers that cannot be reached directly are reached.
#[derive(Debug)]
pub enum RelayPlan {
    /// Through the relay at this URL.
    Custom { url: String },
    /// Not at all.
    Disabled,
}

/// How an endpoint is set up: nothing beyond what is said here is switched on.
#[derive(Debug)]
pub struct EndpointPlan {
    pub relay: RelayPlan,
    /// The protocols to accept connections for, if any.
    pub alpns: Option<Vec<Vec<u8>>>,
    /// Whether peers are looked for on the local network.
    pub mdns: bool,
    /// Who turns peers away, if anyone does.
    pub hook: Option<AuthHook>,
}

/// What an [`EndpointPlan`] says.
pub struct EndpointView {
    pub relay: Option<Seq<char>>,
    pub alpns: Option<Seq<Seq<u8>>>,
    pub mdns: bool,
    pub allowed: Option<Set<Seq<u8>>>,
}

/// The contents of byte strings.
pub open spec fn byte_strings(v: Vec<Vec<u8>>) -> Seq<Seq<u8>> {
    v@.map_values(|b: Vec<u8>| b@)
}

impl View for EndpointPlan {
    type V = EndpointView;

    open spec fn view(&self) -> EndpointView {
        EndpointView {
            relay: match self.relay {
                RelayPlan::Custom { url } => Some(url@),
                RelayPlan::Disabled => None,
            },
            alpns: match self.alpns {
                Some(v) => Some(byte_strings(v)),
                None => None,
            },
            mdns: self.mdns,
            allowed: match self.hook {
                Some(hook) => Some(hook.allowed@),
                None => None,
            },
        }
    }
}

/// What becomes of a connection with `peer` at an endpoint.
pub open spec fn outcome_at(endpoint: EndpointView, peer: Seq<u8>) -> HandshakeView {
    match endpoint.allowed {
        Some(allowed) => handshake_outcome(allowed, peer),
        None => HandshakeView::Accept,
    }
}

/// How an endpoint is set up: with the relay that is given, or none; for the
/// protocols that are given, if any; and where peers to let in are given, with a
/// hook that turns all others away.
pub open spec fn endpoint_view(
    relay_url: Option<Seq<char>>,
    mdns: bool,
    authorized_keys: Option<Set<Seq<u8>>>,
    alpns: Seq<Seq<u8>>,
) -> EndpointView {
    EndpointView {
        relay: relay_url,
        alpns: if alpns.len() > 0 {
            Some(alpns)
        } else {
            None
        },
        mdns,
        allowed: match authorized_keys {
            Some(ids) if ids != Set::<Seq<u8>>::empty() => Some(ids),
            _ => None,
        },
    }
}

/// Plans an endpoint.
pub fn build_endpoint(
    relay_url: Option<String>,
    mdns: bool,
    authorized_keys: Option<AuthorizedKeys>,
    alpns: Vec<Vec<u8>>,
) -> (r: EndpointPlan)
    ensures
        r@ == endpoint_view(
            opt_text(relay_url),
            mdns,
            match authorized_keys {
                Some(keys) => Some(keys@),
                None => None,
            },
            byte_strings(alpns),
        ),
{
    let relay: RelayPlan = match relay_url {
        Some(url) => RelayPlan::Custom { url },
        None => RelayPlan::Disabled,
    };
    let hook: Option<AuthHook> = match authorized_keys {
        Some(keys) => if keys.is_empty() {
            None
        } else {
            Some(AuthHook::new(keys))
        },
        None => None,
    };
    let alpns: Option<Vec<Vec<u8>>> = if alpns.len() > 0 {
        Some(alpns)
    } else {
        None
    };
    EndpointPlan { relay, alpns, mdns, hook }
}

/// What a server needs once its keys are read.
#[derive(Debug)]
pub struct ServePlan {
    /// The server's peer ID.
    pub peer_id: String,
    pub endpoint: EndpointPlan,
}

/// The protocols that a server accepts.
pub open spec fn served_alpns() -> Seq<Seq<u8>> {
    seq![ALPN@]
}

/// Plans a server, given its secret key and what the file of the authorized keys
/// (at `authorized_path`) holds. It does not start where that file is there and
/// lists no peer.
pub fn cmd_serve(
    secret_key: &SecretKey,
    relay_url: Option<String>,
    mdns: bool,
    authorized_path: &str,
    authorized_file: Option<&str>,
) -> (r: Result<ServePlan, KeyFileError>)
    ensures
        match authorized(opt_str(authorized_file)) {
            Some(ids) => r matches Ok(plan) && {
                &&& plan.peer_id@ == z32_text(public_of(secret_key@))
                &&& peer_of(plan.peer_id@) == Ok::<Seq<u8>, PeerIdError>(public_of(secret_key@))
                &&& plan.endpoint@ == endpoint_view(
                    opt_text(relay_url),
                    mdns,
                    Some(ids),
                    served_alpns(),
                )
            },
            None => r matches Err(e) && e@ == (KeyFileFault::NoValidKeys {
                path: authorized_path@,
            }),
        },
{
    let peer_id: String = secret_key.public().to_z32();
    let keys: AuthorizedKeys = match load_authorized_keys(authorized_path, authorized_file) {
        Ok(keys) => keys,
        Err(e) => {
            return Err(e);
        },
    };
    let mut alpns: Vec<Vec<u8>> = Vec::new();
    alpns.push(slice_to_vec(ALPN.as_slice()));
    proof {
        assert(byte_strings(alpns) =~= served_alpns());
    }
    Ok(ServePlan { peer_id, endpoint: build_endpoint(relay_url, mdns, Some(keys), alpns) })
}

/// What a server announces: its peer ID, and what clients put into their SSH
/// configuration.
pub open spec fn announcement(
    peer_id: Seq<char>,
    hostname: Option<Seq<char>>,
    relay: bool,
    mdns: bool,
) -> Seq<char> {
    "\n=== p2pssh Server Ready ===\nPeer ID: "@ + peer_id + (if relay {
        "\nRelay: custom\n"@
    } else {
        "\nRelay: disabled (direct only)\n"@
    }) + "\nClients can configure ~/.ssh/config:\n  Host "@ + (match hostname {
        Some(name) => name,
        None => "my-server"@,
    }) + "\n    ProxyCommand p2pssh connect "@ + peer_id + "\n    User <username>\n"@ + (if relay {
        "\nWith custom relay:\n    ProxyCommand p2pssh connect "@ + peer_id
            + " --relay-url <URL>"@ + (if mdns {
            " --mdns\n"@
        } else {
            "\n"@
        })
    } else {
        Seq::empty()
    })
}

impl ServePlan {
    /// What the server announces once it is ready, on a machine of this name.
    pub fn ready_text(&self, hostname: Option<&str>) -> (r: String)
        ensures
            r@ == announcement(
                self.peer_id@,
                opt_str(hostname),
                self.endpoint@.relay is Some,
                self.endpoint@.mdns,
            ),
    {
        let relay: bool = matches!(self.endpoint.relay, RelayPlan::Custom { .. });
        let id: &str = self.peer_id.as_str();
        let mut text: String = "\n=== p2pssh Server Ready ===\nPeer ID: ".to_owned();
        text.append(id);
        if relay {
            text.append("\nRelay: custom\n");
        } else {
            text.append("\nRelay: disabled (direct only)\n");
        }
        text.append("\nClients can configure ~/.ssh/config:\n  Host ");
        match hostname {
            Some(name) => text.append(name),
            None => text.append("my-server"),
        }
        text.append("\n    ProxyCommand p2pssh connect ");
        text.append(id);
        text.append("\n    User <username>\n");
        let ghost head = text@;
        if relay {
            text.append("\nWith custom relay:\n    ProxyCommand p2pssh connect ");
            text.append(id);
            text.append(" --relay-url <URL>");
            if self.endpoint.mdns {
                text.append(" --mdns\n");
            } else {
                text.append("\n");
            }
        }
        proof {
            let tail = if relay {
                "\nWith custom relay:\n    ProxyCommand p2pssh connect "@ + id@
                    + " --relay-url <URL>"@ + (if self.endpoint.mdns {
                    " --mdns\n"@
                } else {
                    "\n"@
                })
            } else {
                Seq::empty()
            };
            assert(text@ =~= head + tail);
        }
        text
    }
}

/// The relay of an endpoint is the one that is given, whatever else is given, and
/// there is none only where none is given.
pub proof fn law_planned_relay(
    relay_url: Option<String>,
    mdns: bool,
    authorized_keys: Option<AuthorizedKeys>,
    alpns: Vec<Vec<u8>>,
    plan: EndpointPlan,
)
    requires
        call_ensures(build_endpoint, (relay_url, mdns, authorized_keys, alpns), plan),
    ensures
        match relay_url {
            Some(given) => plan.relay matches RelayPlan::Custom { url } && url@ == given@,
            None => plan.relay is Disabled,
        },
{
}

/// mDNS is used where it is asked for, and only there, whatever else is given.
pub proof fn law_planned_mdns(
    relay_url: Option<String>,
    mdns: bool,
    authorized_keys: Option<AuthorizedKeys>,
    alpns: Vec<Vec<u8>>,
    plan: EndpointPlan,
)
    requires
        call_ensures(build_endpoint, (relay_url, mdns, authorized_keys, alpns), plan),
    ensures
        plan.mdns <==> mdns,
{
}

/// An endpoint accepts connections for exactly the protocols that are given, in
/// their order, whatever else is given; and for none where none is given.
pub proof fn law_planned_protocols(
    relay_url: Option<String>,
    mdns: bool,
    authorized_keys: Option<AuthorizedKeys>,
    alpns: Vec<Vec<u8>>,
    plan: EndpointPlan,
)
    requires
        call_ensures(build_endpoint, (relay_url, mdns, authorized_keys, alpns), plan),
    ensures
        alpns@.len() == 0 <==> plan.alpns is None,
        plan.alpns matches Some(planned) ==> planned@.len() == alpns@.len() && forall|i: int|
            0 <= i < alpns@.len() ==> (#[trigger] planned@[i])@ == alpns@[i]@,
{
    if let Some(planned) = plan.alpns {
        assert(byte_strings(planned).len() == planned@.len());
        assert(byte_strings(alpns).len() == alpns@.len());
        assert forall|i: int| 0 <= i < alpns@.len() implies (#[trigger] planned@[i])@
            == alpns@[i]@ by {
            assert(byte_strings(planned)[i] == planned@[i]@);
            assert(byte_strings(alpns)[i] == alpns@[i]@);
        }
    }
}

/// Whom an endpoint lets in, whatever else is given: where peers are given, those
/// and no others, and all others are turned away with code 403; where none are
/// given, everyone, as there is no hook.
pub proof fn law_planned_hook(
    relay_url: Option<String>,
    mdns: bool,
    authorized_keys: Option<AuthorizedKeys>,
    alpns: Vec<Vec<u8>>,
    plan: EndpointPlan,
    peer: EndpointId,
    outcome: HandshakeOutcome,
)
    requires
        call_ensures(build_endpoint, (relay_url, mdns, authorized_keys, alpns), plan),
        plan.hook matches Some(hook) ==> call_ensures(
            AuthHook::after_handshake,
            (&hook, &peer),
            outcome,
        ),
    ensures
        plan.hook is None <==> !(authorized_keys matches Some(keys) && exists|id: Seq<u8>|
            keys@.contains(id)),
        plan.hook is Some ==> (outcome is Accept <==> authorized_keys->0@.contains(peer@)),
        plan.hook is Some && !authorized_keys->0@.contains(peer@) ==> (
        outcome matches HandshakeOutcome::Reject { error_code, .. } && error_code == 403),
{
    if let Some(keys) = authorized_keys {
        if keys@ != Set::<Seq<u8>>::empty() {
            if forall|id: Seq<u8>| !keys@.contains(id) {
                assert(keys@ =~= Set::<Seq<u8>>::empty());
            }
        }
    }
}

/// How a server is set up: it shows the ID of its own peer, uses the relay that is
/// given and mDNS where asked to, and accepts the one protocol `p2pssh/1`. Where
/// there is a file of authorized keys, it lets in the peers that the file lists
/// and no others; without a file there is no hook. It is not set up where, and
/// only where, there is a file that lists no peer, and the error names the file.
pub proof fn law_server_plan(
    secret_key: SecretKey,
    relay_url: Option<String>,
    mdns: bool,
    path: &str,
    file: Option<&str>,
    r: Result<ServePlan, KeyFileError>,
)
    requires
        call_ensures(cmd_serve, (&secret_key, relay_url, mdns, path, file), r),
    ensures
        r is Err <==> (file matches Some(text) && forall|id: Seq<u8>| !lists(text@, id)),
        r matches Err(e) ==> (e matches KeyFileError::NoValidKeys { path: named } && named@
            == path@),
        r matches Ok(plan) ==> {
            &&& plan.peer_id@ == z32_text(public_of(secret_key@))
            &&& match relay_url {
                Some(given) => plan.endpoint.relay matches RelayPlan::Custom { url } && url@
                    == given@,
                None => plan.endpoint.relay is Disabled,
            }
            &&& plan.endpoint.mdns == mdns
            &&& plan.endpoint.alpns matches Some(alpns) && alpns@.len() == 1 && is_text(
                alpns@[0]@,
                "p2pssh/1"@,
            )
            &&& match file {
                None => plan.endpoint.hook is None,
                Some(text) => plan.endpoint.hook matches Some(hook) && forall|id: Seq<u8>|
                    #[trigger] hook.allowed@.contains(id) <==> lists(text@, id),
            }
        },
{
    reveal_strlit("p2pssh/1");
    if let Some(text) = file {
        law_refused_without_keys(text@);
    }
    if let Ok(plan) = r {
        let alpns = plan.endpoint.alpns->0;
        assert(byte_strings(alpns) == served_alpns());
        assert(byte_strings(alpns).len() == alpns@.len());
        assert(byte_strings(alpns)[0] == alpns@[0]@);
        if let Some(text) = file {
            assert(authorized(Some(text@)) == Some(listed(text@)));
            let hook = plan.endpoint.hook->0;
            assert(hook.allowed@ == listed(text@));
            assert forall|id: Seq<u8>| #[trigger] hook.allowed@.contains(id) <==> lists(
                text@,
                id,
            ) by {
                assert(listed(text@).contains(id) <==> lists(text@, id));
            }
        }
    }
}

/// How the texts of the announcement are made up of lines.
proof fn lemma_announcement_texts()
    ensures
        "\n=== p2pssh Server Ready ===\nPeer ID: "@ == "\n=== p2pssh Server Ready ===\n"@
            + "Peer ID: "@,
        "\nRelay: custom\n"@ == "\n"@ + "Relay: custom\n"@,
        "\nRelay: disabled (direct only)\n"@ == "\n"@ + "Relay: disabled (direct only)\n"@,
        "\nClients can configure ~/.ssh/config:\n  Host "@
            == "\nClients can configure ~/.ssh/config:\n"@ + "  Host "@,
        "\n    ProxyCommand p2pssh connect "@ == "\n"@ + "    ProxyCommand p2pssh connect "@,
        "\n    User <username>\n"@ == "\n"@ + "    User <username>\n"@,
        "\nWith custom relay:\n    ProxyCommand p2pssh connect "@ == "\nWith custom relay:\n"@
            + "    ProxyCommand p2pssh connect "@,
        " --mdns\n"@ == " --mdns"@ + "\n"@,
        ""@ == Seq::<char>::empty(),
{
    reveal_strlit("");
    reveal_strlit("\n");
    reveal_strlit("\n=== p2pssh Server Ready ===\n");
    reveal_strlit("Peer ID: ");
    reveal_strlit("\n=== p2pssh Server Ready ===\nPeer ID: ");
    reveal_strlit("Relay: custom\n");
    reveal_strlit("\nRelay: custom\n");
    reveal_strlit("Relay: disabled (direct only)\n");
    reveal_strlit("\nRelay: disabled (direct only)\n");
    reveal_strlit("\nClients can configure ~/.ssh/config:\n");
    reveal_strlit("  Host ");
    reveal_strlit("\nClients can configure ~/.ssh/config:\n  Host ");
    reveal_strlit("    ProxyCommand p2pssh connect ");
    reveal_strlit("\n    ProxyCommand p2pssh connect ");
    reveal_strlit("    User <username>\n");
    reveal_strlit("\n    User <username>\n");
    reveal_strlit("\nWith custom relay:\n");
    reveal_strlit("\nWith custom relay:\n    ProxyCommand p2pssh connect ");
    reveal_strlit(" --mdns");
    reveal_strlit(" --mdns\n");
}

proof fn lemma_assoc(a: Seq<char>, b: Seq<char>, c: Seq<char>)
    ensures
        a + (b + c) == a + b + c,
{
    assert(a + (b + c) =~= a + b + c);
}

proof fn lemma_prefix(a: Seq<char>, b: Seq<char>, c: Seq<char>)
    requires
        a.is_prefix_of(b),
    ensures
        a.is_prefix_of(b + c),
{
    assert(a =~= b.subrange(0, a.len() as int));
    assert((b + c).subrange(0, a.len() as int) =~= a);
}

/// The announcement, line by line: it starts with the ready line and the peer ID,
/// says whether there is a relay, and gives the host name and the command by which
/// clients connect to this peer; where there is a relay, it says how to name it,
/// with `--mdns` where the server uses mDNS.
pub proof fn law_announcement(plan: ServePlan, hostname: Option<&str>, text: String)
    requires
        call_ensures(ServePlan::ready_text, (&plan, hostname), text),
    ensures
        ("\n=== p2pssh Server Ready ===\n"@ + "Peer ID: "@ + plan.peer_id@ + "\n"@).is_prefix_of(
            text@,
        ),
        text@ == "\n=== p2pssh Server Ready ===\n"@ + "Peer ID: "@ + plan.peer_id@ + "\n"@ + (if
        plan.endpoint.relay is Custom {
            "Relay: custom\n"@
        } else {
            "Relay: disabled (direct only)\n"@
        }) + "\nClients can configure ~/.ssh/config:\n"@ + "  Host "@ + (match hostname {
            Some(name) => name@,
            None => "my-server"@,
        }) + "\n"@ + "    ProxyCommand p2pssh connect "@ + plan.peer_id@ + "\n"@
            + "    User <username>\n"@ + (if plan.endpoint.relay is Custom {
            "\nWith custom relay:\n"@ + "    ProxyCommand p2pssh connect "@ + plan.peer_id@
                + " --relay-url <URL>"@ + (if plan.endpoint.mdns {
                " --mdns"@
            } else {
                ""@
            }) + "\n"@
        } else {
            ""@
        }),
{
    let id = plan.peer_id@;
    let name = match hostname {
        Some(name) => name@,
        None => "my-server"@,
    };
    let nl = "\n"@;
    let ready = "\n=== p2pssh Server Ready ===\n"@ + "Peer ID: "@;
    let relay = if plan.endpoint.relay is Custom {
        "Relay: custom\n"@
    } else {
        "Relay: disabled (direct only)\n"@
    };
    let clients = "\nClients can configure ~/.ssh/config:\n"@;
    let connect = "    ProxyCommand p2pssh connect "@;
    let user = "    User <username>\n"@;
    lemma_announcement_texts();
    lemma_assoc(ready + id, nl, relay);
    let a = ready + id + nl + relay;
    lemma_assoc(a, clients, "  Host "@);
    let b = a + clients + "  Host "@ + name;
    lemma_assoc(b, nl, connect);
    let c = b + nl + connect + id;
    lemma_assoc(c, nl, user);
    let head = c + nl + user;
    let tail = if plan.endpoint.relay is Custom {
        let url = "\nWith custom relay:\n"@ + connect + id + " --relay-url <URL>"@;
        lemma_assoc(url, " --mdns"@, nl);
        assert(url + ""@ =~= url);
        url + (if plan.endpoint.mdns {
            " --mdns"@
        } else {
            ""@
        }) + nl
    } else {
        ""@
    };
    assert(text@ == head + tail);
    let first = ready + id + nl;
    assert(first.subrange(0, first.len() as int) =~= first);
    lemma_prefix(first, first, relay);
    lemma_prefix(first, a, clients);
    lemma_prefix(first, a + clients, "  Host "@);
    lemma_prefix(first, a + clients + "  Host "@, name);
    lemma_prefix(first, b, nl);
    lemma_prefix(first, b + nl, connect);
    lemma_prefix(first, b + nl + connect, id);
    lemma_prefix(first, c, nl);
    lemma_prefix(first, c + nl, user);
    lemma_prefix(first, head, tail);
}

/// The largest number of connections that can be asked for.
pub const MAX_CONNECTIONS: usize = usize::MAX / 8;

/// What happens to a running server.
#[derive(Clone, Copy, Debug, PartialEq, Eq, Structural)]
pub enum ServerEvent {
    /// A peer asks for a connection.
    Incoming,
    /// A connection that was taken on is over.
    HandlerDone,
    /// The user asks to stop.
    CtrlC,
    /// The system asks to stop.
    Terminate,
}

/// What a running server does about it.
#[derive(Clone, Copy, Debug, PartialEq, Eq, Structural)]
pub enum ServerAction {
    /// Take the connection on.
    Handle,
    /// Refuse the connection.
    Refuse,
    /// Wait for what happens next.
    Wait,
    /// Close the endpoint.
    Shutdown,
}

/// A running server.
#[derive(Debug)]
pub struct ServerLoop {
    /// How many connections it takes on at once.
    pub max: usize,
    /// How many it has taken on that are not over.
    pub active: usize,
    /// Whether it is still running.
    pub running: bool,
}

/// What a running server does about an event.
pub open spec fn server_action(s: ServerLoop, event: ServerEvent) -> ServerAction {
    match event {
        ServerEvent::Incoming => if s.active < s.max {
            ServerAction::Handle
        } else {
            ServerAction::Refuse
        },
        ServerEvent::HandlerDone => ServerAction::Wait,
        ServerEvent::CtrlC | ServerEvent::Terminate => ServerAction::Shutdown,
    }
}

/// A running server after an event.
pub open spec fn server_after(s: ServerLoop, event: ServerEvent) -> ServerLoop {
    match event {
        ServerEvent::Incoming => if s.active < s.max {
            ServerLoop { active: (s.active + 1) as usize, ..s }
        } else {
            s
        },
        ServerEvent::HandlerDone => ServerLoop { active: (s.active - 1) as usize, ..s },
        ServerEvent::CtrlC | ServerEvent::Terminate => ServerLoop { running: false, ..s },
    }
}

/// Whether an event can happen: something must be running, and only a connection
/// that was taken on can be over.
pub open spec fn can_happen(s: ServerLoop, event: ServerEvent) -> bool {
    s.running && (event is HandlerDone ==> s.active > 0)
}

impl ServerLoop {
    /// It never has more connections than it takes on at once.
    pub open spec fn wf(self) -> bool {
        self.active <= self.max <= MAX_CONNECTIONS
    }

    /// A server without connections.
    pub fn new(max: usize) -> (r: ServerLoop)
        requires
            max <= MAX_CONNECTIONS,
        ensures
            r == (ServerLoop { max, active: 0, running: true }),
            r.wf(),
    {
        ServerLoop { max, active: 0, running: true }
    }

    /// Takes note of an event, and says what to do about it.
    pub fn step(&mut self, event: ServerEvent) -> (r: ServerAction)
        requires
            old(self).wf(),
            can_happen(*old(self), event),
        ensures
            final(self).wf(),
            *final(self) == server_after(*old(self), event),
            r == server_action(*old(self), event),
    {
        match event {
            ServerEvent::Incoming => if self.active < self.max {
                self.active = self.active + 1;
                ServerAction::Handle
            } else {
                ServerAction::Refuse
            },
            ServerEvent::HandlerDone => {
                self.active = self.active - 1;
                ServerAction::Wait
            },
            ServerEvent::CtrlC | ServerEvent::Terminate => {
                self.running = false;
                ServerAction::Shutdown
            },
        }
    }
}

/// A server once a sequence of events has happened to it.
pub open spec fn server_state(max: usize, events: Seq<ServerEvent>) -> ServerLoop
    decreases events.len(),
{
    if events.len() == 0 {
        ServerLoop { max, active: 0, running: true }
    } else {
        server_after(server_state(max, events.drop_last()), events.last())
    }
}

/// Whether each event could happen when it did.
pub open spec fn is_run(max: usize, events: Seq<ServerEvent>) -> bool
    decreases events.len(),
{
    events.len() > 0 ==> {
        &&& is_run(max, events.drop_last())
        &&& can_happen(server_state(max, events.drop_last()), events.last())
    }
}

/// How many connections were taken on.
pub open spec fn handled(max: usize, events: Seq<ServerEvent>) -> nat
    decreases events.len(),
{
    if events.len() == 0 {
        0
    } else {
        let before = events.drop_last();
        handled(max, before) + if server_action(server_state(max, before), events.last()) is Handle {
            1nat
        } else {
            0nat
        }
    }
}

/// How many connections are over.
pub open spec fn finished(events: Seq<ServerEvent>) -> nat
    decreases events.len(),
{
    if events.len() == 0 {
        0
    } else {
        finished(events.drop_last()) + if events.last() is HandlerDone {
            1nat
        } else {
            0nat
        }
    }
}

/// However events come, no more connections are open at once than were asked
/// for. A peer is refused exactly when that many are open, and is taken on exactly
/// when fewer are: there is no third way.
pub proof fn law_connection_limit(max: usize, events: Seq<ServerEvent>)
    requires
        max <= MAX_CONNECTIONS,
        is_run(max, events),
    ensures
        server_state(max, events).active == handled(max, events) - finished(events),
        handled(max, events) - finished(events) <= max,
        server_action(server_state(max, events), ServerEvent::Incoming) is Refuse <==> handled(
            max,
            events,
        ) - finished(events) == max,
        server_action(server_state(max, events), ServerEvent::Incoming) is Handle <==> handled(
            max,
            events,
        ) - finished(events) < max,
        server_state(max, events).max == max,
    decreases events.len(),
{
    if events.len() > 0 {
        law_connection_limit(max, events.drop_last());
    }
}

/// What a server does about an event that is not a new connection: it shuts down
/// where it is asked to stop, and waits where a connection is over. While it runs
/// anything may happen, but a connection can be over only if one is open.
pub proof fn law_server_reacts(s: ServerLoop, event: ServerEvent)
    ensures
        server_action(s, event) is Shutdown <==> event is CtrlC || event is Terminate,
        server_action(s, event) is Wait <==> event is HandlerDone,
        can_happen(s, event) <==> s.running && (s.active == 0 ==> !(event is HandlerDone)),
{
}

/// A server stops when, and only when, it is asked to.
pub proof fn law_stops_when_asked(max: usize, events: Seq<ServerEvent>)
    requires
        is_run(max, events),
    ensures
        server_state(max, events).running <==> forall|i: int|
            0 <= i < events.len() ==> !(#[trigger] events[i] is CtrlC || events[i] is Terminate),
    decreases events.len(),
{
    if events.len() > 0 {
        let before = events.drop_last();
        law_stops_when_asked(max, before);
        assert(events[events.len() - 1] == events.last());
        assert(forall|i: int| 0 <= i < before.len() ==> #[trigger] events[i] == before[i]);
    }
}

/// What is to be done for a connection that was taken on.
#[derive(Clone, Copy, Debug, PartialEq, Eq, Structural)]
pub enum HandlerStep {
    /// Complete the handshake, in which the peer may be turned away.
    Handshake,
    /// Wait for the peer to open its stream.
    AcceptStream,
    /// Connect to the SSH server.
    ConnectTcp,
    /// Forward between the two.
    Forward,
    /// Nothing: the connection is over, and went well or not.
    Ended { ok: bool },
}

/// The step after one that went well or not.
pub open spec fn handler_after(step: HandlerStep, ok: bool) -> HandlerStep {
    if !ok {
        HandlerStep::Ended { ok: false }
    } else {
        match step {
            HandlerStep::Handshake => HandlerStep::AcceptStream,
            HandlerStep::AcceptStream => HandlerStep::ConnectTcp,
            HandlerStep::ConnectTcp => HandlerStep::Forward,
            HandlerStep::Forward | HandlerStep::Ended { .. } => HandlerStep::Ended { ok: true },
        }
    }
}

/// A connection that a server has taken on.
#[derive(Debug)]
pub struct Handler {
    /// The step that is to be taken.
    pub step: HandlerStep,
}

impl Handler {
    /// A connection for which nothing has been done.
    pub fn new() -> (r: Handler)
        ensures
            r == (Handler { step: HandlerStep::Handshake }),
    {
        Handler { step: HandlerStep::Handshake }
    }

    /// Takes note of whether the step went well, and goes on to the next one.
    pub fn advance(&mut self, ok: bool)
        requires
            !(old(self).step is Ended),
        ensures
            final(self).step == handler_after(old(self).step, ok),
    {
        self.step = if !ok {
            HandlerStep::Ended { ok: false }
        } else {
            match self.step {
                HandlerStep::Handshake => HandlerStep::AcceptStream,
                HandlerStep::AcceptStream => HandlerStep::ConnectTcp,
                HandlerStep::ConnectTcp => HandlerStep::Forward,
                HandlerStep::Forward | HandlerStep::Ended { .. } => HandlerStep::Ended { ok: true },
            }
        };
    }
}

/// The step that is to be taken for a connection once steps went well or not.
pub open spec fn handler_step(results: Seq<bool>) -> HandlerStep
    decreases results.len(),
{
    if results.len() == 0 {
        HandlerStep::Handshake
    } else {
        handler_after(handler_step(results.drop_last()), results.last())
    }
}

/// Whether there was a step to take each time.
pub open spec fn is_handling(results: Seq<bool>) -> bool
    decreases results.len(),
{
    results.len() > 0 ==> {
        &&& is_handling(results.drop_last())
        &&& !(handler_step(results.drop_last()) is Ended)
    }
}

/// The steps for a connection are taken in order, each only if those before it
/// went well. So the SSH server is contacted, and bytes are forwarded, only once
/// the handshake went well and the peer has opened its stream; a connection ends
/// well if all four steps did, and badly at the first that did not.
pub proof fn law_ssh_after_handshake(results: Seq<bool>)
    requires
        is_handling(results),
    ensures
        match handler_step(results) {
            HandlerStep::Handshake => results == Seq::<bool>::empty(),
            HandlerStep::AcceptStream => results == seq![true],
            HandlerStep::ConnectTcp => results == seq![true, true],
            HandlerStep::Forward => results == seq![true, true, true],
            HandlerStep::Ended { ok: true } => results == seq![true, true, true, true],
            HandlerStep::Ended { ok: false } => 0 < results.len() <= 4 && !results.last()
                && forall|i: int| 0 <= i < results.len() - 1 ==> #[trigger] results[i],
        },
    decreases results.len(),
{
    if results.len() > 0 {
        let before = results.drop_last();
        law_ssh_after_handshake(before);
        assert(results =~= before.push(results.last()));
        assert(forall|i: int| 0 <= i < before.len() ==> #[trigger] results[i] == before[i]);
    }
}

/// With a file of authorized keys, a server lets in the peers that the file
/// lists, and turns every other peer away as unauthorized.
pub proof fn law_only_listed_peers(
    relay_url: Option<Seq<char>>,
    mdns: bool,
    alpns: Seq<Seq<u8>>,
    content: Seq<char>,
    peer: Seq<u8>,
)
    requires
        authorized(Some(content)) is Some,
    ensures
        outcome_at(
            endpoint_view(relay_url, mdns, authorized(Some(content)), alpns),
            peer,
        ) == if lists(content, peer) {
            HandshakeView::Accept
        } else {
            HandshakeView::Reject { error_code: REJECT_CODE, reason: REJECT_REASON@ }
        },
{
}

/// Without a file of authorized keys, a server lets every peer in.
pub proof fn law_open_without_file(
    relay_url: Option<Seq<char>>,
    mdns: bool,
    alpns: Seq<Seq<u8>>,
    peer: Seq<u8>,
)
    ensures
        outcome_at(endpoint_view(relay_url, mdns, authorized(None), alpns), peer)
            == HandshakeView::Accept,
{
}

} // verus!
