//! The protocol state machine: what the server does with each datagram.
//!
//! The server is driven from outside. It is handed each datagram with the
//! clock's value and answers with the actions to carry out: datagrams to
//! send, relay endpoints to open and to close.

use vstd::prelude::*;
use crate::addr::{ClientTuple, TransactionId, TransportAddr};
use crate::allocation::{
    all_peers_swept, live, live_allocations, removed_exactly, table_wf, Allocation,
    AllocationTable, TableConfig,
};
use crate::attr::{DecodeError, ATTR_DATA};
use crate::auth::{
    auth_verdict, nonces_after, seal, sealable, sealed, AuthOutcome, AuthVerdict, Authenticator,
};
use crate::chandata::{parse_channel_data, ChannelData};
use crate::credentials::{fresh_nonces, Credential, CredentialStore};
use crate::message::{
    decode_header, encode_message, parse_header, parse_message, peer_of, text_of, Class, Header,
    Message, MessageSpec, Method,
};
use crate::peers::bound_at;
use crate::relay::{deliver_from_peer, delivery, send_post, send_to_peer, SendError};
use crate::request::{
    allocate_handled, binding_message, binding_response, bind_handled, challenge_message,
    challenge_response, error_message, error_response, handle_allocate, handle_channel_bind,
    handle_create_permission, handle_refresh, permission_handled, refresh_handled,
    unknown_attribute_message, unknown_attribute_response, HandledSpec, CODE_BAD_REQUEST,
    CODE_STALE_NONCE, CODE_UNAUTHORIZED,
};
use crate::wire::copy_range;

verus! {

/// Something for the driver of the server to carry out.
#[derive(Clone, Debug, PartialEq, Eq)]
pub enum Action {
    /// Send `bytes` to the client of `tuple`.
    ToClient { tuple: ClientTuple, bytes: Vec<u8> },
    /// Send `payload` to `peer` from the relay endpoint `relay`.
    ToPeer { relay: TransportAddr, peer: TransportAddr, payload: Vec<u8> },
    /// Open the relay endpoint `relay`.
    OpenRelay { relay: TransportAddr },
    /// Close the relay endpoint `relay`.
    CloseRelay { relay: TransportAddr },
}

/// The mathematical value of an [`Action`].
pub ghost enum ActionSpec {
    ToClient { tuple: ClientTuple, bytes: Seq<u8> },
    ToPeer { relay: TransportAddr, peer: TransportAddr, payload: Seq<u8> },
    OpenRelay { relay: TransportAddr },
    CloseRelay { relay: TransportAddr },
}

impl View for Action {
    type V = ActionSpec;

    open spec fn view(&self) -> ActionSpec {
        match *self {
            Action::ToClient { tuple, bytes } => ActionSpec::ToClient { tuple, bytes: bytes@ },
            Action::ToPeer { relay, peer, payload } => ActionSpec::ToPeer {
                relay,
                peer,
                payload: payload@,
            },
            Action::OpenRelay { relay } => ActionSpec::OpenRelay { relay },
            Action::CloseRelay { relay } => ActionSpec::CloseRelay { relay },
        }
    }
}

/// The values of a list of actions.
pub open spec fn actions_view(s: Seq<Action>) -> Seq<ActionSpec> {
    Seq::new(s.len(), |i: int| s[i]@)
}

/// No action.
pub open spec fn nothing() -> Seq<ActionSpec> {
    Seq::empty()
}

/// The message sent to the client, if it can be sent.
pub open spec fn to_client(tuple: ClientTuple, m: MessageSpec) -> Seq<ActionSpec> {
    if m.wf() {
        seq![ActionSpec::ToClient { tuple, bytes: encode_message(m) }]
    } else {
        nothing()
    }
}

/// The message sent to the client with its integrity tag under `key`, if
/// it can be sent so.
pub open spec fn to_client_sealed(tuple: ClientTuple, m: MessageSpec, key: Seq<u8>) -> Seq<
    ActionSpec,
> {
    if sealable(m, key) {
        seq![ActionSpec::ToClient { tuple, bytes: encode_message(sealed(m, key)) }]
    } else {
        nothing()
    }
}

/// Closing one relay endpoint and opening another, the closing first.
pub open spec fn relay_actions(close: Option<TransportAddr>, open: Option<TransportAddr>) -> Seq<
    ActionSpec,
> {
    let closing = match close {
        Some(relay) => seq![ActionSpec::CloseRelay { relay }],
        None => nothing(),
    };
    let opening = match open {
        Some(relay) => seq![ActionSpec::OpenRelay { relay }],
        None => nothing(),
    };
    closing + opening
}

/// The actions that a handled request comes to.
pub open spec fn handled_actions(tuple: ClientTuple, out: HandledSpec, key: Seq<u8>) -> Seq<
    ActionSpec,
> {
    relay_actions(out.close, out.open) + to_client_sealed(tuple, out.response, key)
}

/// What the request `m` of an authenticated user does, by its method.
pub open spec fn method_handled(
    before: Map<ClientTuple, Allocation>,
    after: Map<ClientTuple, Allocation>,
    cfg: TableConfig,
    tuple: ClientTuple,
    m: MessageSpec,
    username: Seq<u8>,
    realm: Seq<u8>,
    now: u64,
    out: HandledSpec,
) -> bool {
    match m.method {
        Method::Allocate => allocate_handled(
            before,
            after,
            cfg,
            tuple,
            m,
            username,
            realm,
            now,
            out,
        ),
        Method::Refresh => refresh_handled(before, after, cfg, tuple, m, now, out),
        Method::CreatePermission => permission_handled(before, after, cfg, tuple, m, now, out),
        Method::ChannelBind => bind_handled(before, after, cfg, tuple, m, now, out),
        _ => false,
    }
}

/// What the server is set up with and does not change.
pub ghost struct Setup {
    pub config: TableConfig,
    pub realm: Seq<u8>,
    pub nonce_lifetime: u64,
    pub credentials: Map<Seq<u8>, Credential>,
}

/// What the request of an authenticated user does: it is handled by its
/// method, relay endpoints are closed and opened as that asks, and the
/// answer is sent under the user's key.
pub open spec fn granted_post(
    a0: Map<ClientTuple, Allocation>,
    a1: Map<ClientTuple, Allocation>,
    cfg: TableConfig,
    tuple: ClientTuple,
    m: MessageSpec,
    username: Seq<u8>,
    realm: Seq<u8>,
    key: Seq<u8>,
    now: u64,
    actions: Seq<ActionSpec>,
) -> bool {
    exists|out: HandledSpec|
        #[trigger] method_handled(a0, a1, cfg, tuple, m, username, realm, now, out) && actions
            == handled_actions(tuple, out, key)
}

/// What a request does once its credentials were checked: where they are
/// missing, stale, incomplete or wrong the answer is an error and the table
/// stays as it is, and else the request is handled by its method and
/// answered under the user's key.
pub open spec fn verdict_post(
    a0: Map<ClientTuple, Allocation>,
    a1: Map<ClientTuple, Allocation>,
    setup: Setup,
    tuple: ClientTuple,
    m: MessageSpec,
    verdict: AuthVerdict,
    now: u64,
    fresh: Seq<u8>,
    actions: Seq<ActionSpec>,
) -> bool {
    let h = m.header();
    match verdict {
        AuthVerdict::Challenge => a1 == a0 && actions == to_client(
            tuple,
            challenge_response(h, CODE_UNAUTHORIZED, setup.realm, fresh),
        ),
        AuthVerdict::StaleNonce => a1 == a0 && actions == to_client(
            tuple,
            challenge_response(h, CODE_STALE_NONCE, setup.realm, fresh),
        ),
        AuthVerdict::BadRequest => a1 == a0 && actions == to_client(
            tuple,
            error_response(h, CODE_BAD_REQUEST),
        ),
        AuthVerdict::Unauthorized => a1 == a0 && actions == to_client(
            tuple,
            error_response(h, CODE_UNAUTHORIZED),
        ),
        AuthVerdict::Granted { username, realm, key } => granted_post(
            a0,
            a1,
            setup.config,
            tuple,
            m,
            username,
            realm,
            key,
            now,
            actions,
        ),
    }
}

/// What a request does.
///
/// A Binding request is answered with the client's address. A request with
/// the method of an indication is a bad request. Any other is checked for
/// its credentials, which may hand out a nonce, and goes on from there.
pub open spec fn request_post(
    a0: Map<ClientTuple, Allocation>,
    a1: Map<ClientTuple, Allocation>,
    n0: Map<Seq<u8>, u64>,
    n1: Map<Seq<u8>, u64>,
    setup: Setup,
    tuple: ClientTuple,
    m: MessageSpec,
    raw: Seq<u8>,
    now: u64,
    fresh: Seq<u8>,
    actions: Seq<ActionSpec>,
) -> bool {
    let h = m.header();
    match m.method {
        Method::Binding => a1 == a0 && n1 == n0 && actions == to_client(
            tuple,
            binding_response(h, tuple.client),
        ),
        Method::Send => a1 == a0 && n1 == n0 && actions == to_client(
            tuple,
            error_response(h, CODE_BAD_REQUEST),
        ),
        Method::Data => a1 == a0 && n1 == n0 && actions == to_client(
            tuple,
            error_response(h, CODE_BAD_REQUEST),
        ),
        _ => {
            let verdict = auth_verdict(
                m.attributes,
                raw,
                n0,
                setup.nonce_lifetime,
                setup.credentials,
                now,
            );
            &&& n1 == nonces_after(n0, verdict, fresh, now)
            &&& verdict_post(a0, a1, setup, tuple, m, verdict, now, fresh, actions)
        },
    }
}

/// The actions that sending to a peer comes to.
pub open spec fn send_actions(
    r: Result<TransportAddr, SendError>,
    peer: TransportAddr,
    payload: Seq<u8>,
) -> Seq<ActionSpec> {
    match r {
        Ok(relay) => seq![ActionSpec::ToPeer { relay, peer, payload }],
        Err(_) => nothing(),
    }
}

/// What an indication does: a Send indication with a peer address and data
/// sends the data to the peer where the data path lets it, and nothing
/// else has any effect. No indication is ever answered.
pub open spec fn indication_post(
    a0: Map<ClientTuple, Allocation>,
    a1: Map<ClientTuple, Allocation>,
    cfg: TableConfig,
    tuple: ClientTuple,
    m: MessageSpec,
    now: u64,
    actions: Seq<ActionSpec>,
) -> bool {
    match (m.method, peer_of(m.attributes), text_of(m.attributes, ATTR_DATA)) {
        (Method::Send, Some(peer), Some(data)) => exists|r: Result<TransportAddr, SendError>|
            #[trigger] send_post(a0, a1, cfg, tuple, peer, now, r) && actions == send_actions(
                r,
                peer,
                data,
            ),
        _ => a1 == a0 && actions == nothing(),
    }
}

/// The answer to a request that could not be decoded, where its header
/// could: no answer unless it is a request.
pub open spec fn failure_reply(tuple: ClientTuple, h: Header, m: MessageSpec) -> Seq<ActionSpec> {
    if h.class == Class::Request {
        to_client(tuple, m)
    } else {
        nothing()
    }
}

/// What a datagram in STUN framing does. Of a message that bears an
/// integrity tag, the attributes after the tag are not looked at.
pub open spec fn stun_post(
    a0: Map<ClientTuple, Allocation>,
    a1: Map<ClientTuple, Allocation>,
    n0: Map<Seq<u8>, u64>,
    n1: Map<Seq<u8>, u64>,
    setup: Setup,
    tuple: ClientTuple,
    raw: Seq<u8>,
    now: u64,
    fresh: Seq<u8>,
    actions: Seq<ActionSpec>,
) -> bool {
    match parse_message(raw) {
        Err(DecodeError::MalformedAttribute) => a1 == a0 && n1 == n0 && actions == failure_reply(
            tuple,
            parse_header(raw).unwrap(),
            error_response(parse_header(raw).unwrap(), CODE_BAD_REQUEST),
        ),
        Err(DecodeError::UnknownAttributeRequired(typ)) => a1 == a0 && n1 == n0 && actions
            == failure_reply(
            tuple,
            parse_header(raw).unwrap(),
            unknown_attribute_response(parse_header(raw).unwrap(), typ),
        ),
        Err(_) => a1 == a0 && n1 == n0 && actions == nothing(),
        Ok(m) => match m.class {
            Class::Request => request_post(
                a0,
                a1,
                n0,
                n1,
                setup,
                tuple,
                m.protected(),
                raw,
                now,
                fresh,
                actions,
            ),
            Class::Indication => n1 == n0 && indication_post(
                a0,
                a1,
                setup.config,
                tuple,
                m.protected(),
                now,
                actions,
            ),
            _ => a1 == a0 && n1 == n0 && actions == nothing(),
        },
    }
}

/// What a datagram in ChannelData framing does: its payload goes to the
/// peer that the channel is bound to with the client's allocation, and
/// nowhere where there is none.
pub open spec fn channel_data_post(
    a0: Map<ClientTuple, Allocation>,
    tuple: ClientTuple,
    raw: Seq<u8>,
    now: u64,
    actions: Seq<ActionSpec>,
) -> bool {
    match parse_channel_data(raw) {
        None => actions == nothing(),
        Some(frame) => if live(a0, tuple, now) && bound_at(
            a0[tuple].peers.channels(),
            frame.number,
            now,
        ) {
            actions == seq![
                ActionSpec::ToPeer {
                    relay: a0[tuple].relay,
                    peer: a0[tuple].peers.channels()[frame.number].peer,
                    payload: frame.data,
                },
            ]
        } else {
            actions == nothing()
        },
    }
}

/// What a datagram from a client does, by its first byte: STUN framing
/// below 64, ChannelData framing below 128, and nothing else.
pub open spec fn client_datagram_post(
    a0: Map<ClientTuple, Allocation>,
    a1: Map<ClientTuple, Allocation>,
    n0: Map<Seq<u8>, u64>,
    n1: Map<Seq<u8>, u64>,
    setup: Setup,
    tuple: ClientTuple,
    raw: Seq<u8>,
    now: u64,
    fresh: Seq<u8>,
    actions: Seq<ActionSpec>,
) -> bool {
    if raw.len() > 0 && raw[0] < 64 {
        stun_post(a0, a1, n0, n1, setup, tuple, raw, now, fresh, actions)
    } else if raw.len() > 0 && raw[0] < 128 {
        a1 == a0 && n1 == n0 && channel_data_post(a0, tuple, raw, now, actions)
    } else {
        a1 == a0 && n1 == n0 && actions == nothing()
    }
}

/// The actions that a datagram from a peer comes to.
pub open spec fn peer_datagram_actions(
    m: Map<ClientTuple, Allocation>,
    port: u16,
    peer: TransportAddr,
    payload: Seq<u8>,
    now: u64,
    id: TransactionId,
) -> Seq<ActionSpec> {
    match delivery(m, port, peer, payload, now, id) {
        Some((tuple, bytes)) => seq![ActionSpec::ToClient { tuple, bytes }],
        None => nothing(),
    }
}

/// A datagram from a peer whose address holds no permission with the
/// allocation that it is sent to comes to no action: the client is sent
/// neither the data nor an error.
pub proof fn lemma_unpermitted_peer_comes_to_nothing(
    m: Map<ClientTuple, Allocation>,
    port: u16,
    peer: TransportAddr,
    payload: Seq<u8>,
    now: u64,
    id: TransactionId,
)
    requires
        forall|t: ClientTuple|
            crate::allocation::relays_on(m, t, port, now) ==> !crate::peers::permitted(
                m[t].peers.permissions(),
                peer.ip,
                now,
            ),
    ensures
        peer_datagram_actions(m, port, peer, payload, now, id) == nothing(),
{
    crate::relay::lemma_unpermitted_dropped(m, port, peer, payload, now, id);
}

/// The closing of the relay endpoint of each of `removed`.
pub open spec fn closings(removed: Seq<Allocation>) -> Seq<ActionSpec> {
    Seq::new(removed.len(), |i: int| ActionSpec::CloseRelay { relay: removed[i].relay })
}

fn push_action(actions: &mut Vec<Action>, a: Action)
    ensures
        actions_view(final(actions)@) == actions_view(old(actions)@).push(a@),
{
    actions.push(a);
    assert(actions_view(actions@) =~= actions_view(old(actions)@).push(a@));
}

fn push_to_client(actions: &mut Vec<Action>, tuple: ClientTuple, m: &Message)
    ensures
        actions_view(final(actions)@) == actions_view(old(actions)@) + to_client(tuple, m@),
{
    match m.encode() {
        Some(bytes) => {
            push_action(actions, Action::ToClient { tuple, bytes });
            assert(actions_view(actions@) =~= actions_view(old(actions)@) + to_client(tuple, m@));
        },
        None => {
            assert(actions_view(actions@) =~= actions_view(old(actions)@) + to_client(tuple, m@));
        },
    }
}

fn push_sealed(actions: &mut Vec<Action>, tuple: ClientTuple, m: &Message, key: &[u8])
    ensures
        actions_view(final(actions)@) == actions_view(old(actions)@) + to_client_sealed(
            tuple,
            m@,
            key@,
        ),
{
    match seal(m, key) {
        Some(bytes) => {
            push_action(actions, Action::ToClient { tuple, bytes });
            assert(actions_view(actions@) =~= actions_view(old(actions)@) + to_client_sealed(
                tuple,
                m@,
                key@,
            ));
        },
        None => {
            assert(actions_view(actions@) =~= actions_view(old(actions)@) + to_client_sealed(
                tuple,
                m@,
                key@,
            ));
        },
    }
}

fn push_relay_actions(
    actions: &mut Vec<Action>,
    close: Option<TransportAddr>,
    open: Option<TransportAddr>,
)
    ensures
        actions_view(final(actions)@) == actions_view(old(actions)@) + relay_actions(close, open),
{
    if let Some(relay) = close {
        push_action(actions, Action::CloseRelay { relay });
    }
    if let Some(relay) = open {
        push_action(actions, Action::OpenRelay { relay });
    }
    assert(actions_view(actions@) =~= actions_view(old(actions)@) + relay_actions(close, open));
}

/// What a server is made with.
#[derive(Debug)]
pub struct ServerConfig {
    pub realm: Vec<u8>,
    /// How long a nonce is good for, in seconds.
    pub nonce_lifetime: u64,
    pub table: TableConfig,
}

/// The server: the users and nonces that requests are checked against, and
/// the allocation table.
#[derive(Debug)]
pub struct Server {
    auth: Authenticator,
    table: AllocationTable,
}

impl Server {
    /// The allocations by client, expired ones included until the next
    /// tick.
    pub closed spec fn allocations(&self) -> Map<ClientTuple, Allocation> {
        self.table.allocations()
    }

    /// The instant of issue of each nonce.
    pub closed spec fn nonces(&self) -> Map<Seq<u8>, u64> {
        self.auth.nonces()
    }

    /// What the server was made with.
    pub closed spec fn setup(&self) -> Setup {
        Setup {
            config: self.table.config(),
            realm: self.auth.realm(),
            nonce_lifetime: self.auth.nonce_lifetime(),
            credentials: self.auth.credentials(),
        }
    }

    /// The invariant of the representation.
    pub closed spec fn inv(&self) -> bool {
        self.auth.wf() && self.table.inv()
    }

    /// The invariant of the server.
    pub open spec fn wf(&self) -> bool {
        self.inv() && table_wf(self.allocations(), self.setup().config)
    }

    /// A server without allocations that knows the users in `credentials`.
    pub fn new(config: ServerConfig, credentials: CredentialStore) -> (s: Server)
        requires
            credentials.wf(),
        ensures
            s.wf(),
            s.allocations() == Map::<ClientTuple, Allocation>::empty(),
            s.nonces() == Map::<Seq<u8>, u64>::empty(),
            s.setup() == (Setup {
                config: config.table,
                realm: config.realm@,
                nonce_lifetime: config.nonce_lifetime,
                credentials: credentials.credentials(),
            }),
    {
        Server {
            auth: Authenticator::new(config.realm.as_slice(), config.nonce_lifetime, credentials),
            table: AllocationTable::new(config.table),
        }
    }

    /// The allocation that the client of `tuple` holds at `now`.
    pub fn lookup(&self, tuple: ClientTuple, now: u64) -> (r: Option<&Allocation>)
        requires
            self.wf(),
        ensures
            match r {
                Some(a) => live(self.allocations(), tuple, now) && *a == self.allocations()[tuple],
                None => !live(self.allocations(), tuple, now),
            },
    {
        self.table.lookup(tuple, now)
    }

    fn handle_request(
        &mut self,
        tuple: ClientTuple,
        msg: &Message,
        raw: &[u8],
        now: u64,
        fresh_nonce: &[u8],
    ) -> (actions: Vec<Action>)
        requires
            old(self).wf(),
        ensures
            final(self).wf(),
            final(self).setup() == old(self).setup(),
            request_post(
                old(self).allocations(),
                final(self).allocations(),
                old(self).nonces(),
                final(self).nonces(),
                old(self).setup(),
                tuple,
                msg@,
                raw@,
                now,
                fresh_nonce@,
                actions_view(actions@),
            ),
    {
        let h = msg.header();
        let mut actions: Vec<Action> = Vec::new();
        assert(actions_view(actions@) =~= nothing());
        match msg.method {
            Method::Binding => {
                push_to_client(&mut actions, tuple, &binding_message(&h, tuple.client));
                assert(actions_view(actions@) =~= to_client(
                    tuple,
                    binding_response(h, tuple.client),
                ));
                return actions;
            },
            Method::Send => {
                push_to_client(&mut actions, tuple, &error_message(&h, CODE_BAD_REQUEST));
                assert(actions_view(actions@) =~= to_client(
                    tuple,
                    error_response(h, CODE_BAD_REQUEST),
                ));
                return actions;
            },
            Method::Data => {
                push_to_client(&mut actions, tuple, &error_message(&h, CODE_BAD_REQUEST));
                assert(actions_view(actions@) =~= to_client(
                    tuple,
                    error_response(h, CODE_BAD_REQUEST),
                ));
                return actions;
            },
            _ => {},
        }
        let outcome = self.auth.authenticate(msg, raw, now, fresh_nonce);
        let ghost realm = old(self).setup().realm;
        match outcome {
            AuthOutcome::Challenge => {
                let m = challenge_message(
                    &h,
                    CODE_UNAUTHORIZED,
                    self.auth.realm_bytes().as_slice(),
                    fresh_nonce,
                );
                push_to_client(&mut actions, tuple, &m);
                assert(actions_view(actions@) =~= to_client(
                    tuple,
                    challenge_response(h, CODE_UNAUTHORIZED, realm, fresh_nonce@),
                ));
            },
            AuthOutcome::StaleNonce => {
                let m = challenge_message(
                    &h,
                    CODE_STALE_NONCE,
                    self.auth.realm_bytes().as_slice(),
                    fresh_nonce,
                );
                push_to_client(&mut actions, tuple, &m);
                assert(actions_view(actions@) =~= to_client(
                    tuple,
                    challenge_response(h, CODE_STALE_NONCE, realm, fresh_nonce@),
                ));
            },
            AuthOutcome::BadRequest => {
                push_to_client(&mut actions, tuple, &error_message(&h, CODE_BAD_REQUEST));
                assert(actions_view(actions@) =~= to_client(
                    tuple,
                    error_response(h, CODE_BAD_REQUEST),
                ));
            },
            AuthOutcome::Unauthorized => {
                push_to_client(&mut actions, tuple, &error_message(&h, CODE_UNAUTHORIZED));
                assert(actions_view(actions@) =~= to_client(
                    tuple,
                    error_response(h, CODE_UNAUTHORIZED),
                ));
            },
            AuthOutcome::Granted(who) => {
                let out = match msg.method {
                    Method::Allocate => handle_allocate(
                        &mut self.table,
                        tuple,
                        msg,
                        who.username.as_slice(),
                        who.realm.as_slice(),
                        now,
                    ),
                    Method::Refresh => handle_refresh(&mut self.table, tuple, msg, now),
                    Method::CreatePermission => handle_create_permission(
                        &mut self.table,
                        tuple,
                        msg,
                        now,
                    ),
                    _ => handle_channel_bind(&mut self.table, tuple, msg, now),
                };
                push_relay_actions(&mut actions, out.close, out.open);
                push_sealed(&mut actions, tuple, &out.response, who.key.as_slice());
                assert(actions_view(actions@) =~= handled_actions(tuple, out@, who.key@));
                assert(method_handled(
                    old(self).allocations(),
                    self.allocations(),
                    old(self).setup().config,
                    tuple,
                    msg@,
                    who.username@,
                    who.realm@,
                    now,
                    out@,
                ));
                assert(granted_post(
                    old(self).allocations(),
                    self.allocations(),
                    old(self).setup().config,
                    tuple,
                    msg@,
                    who.username@,
                    who.realm@,
                    who.key@,
                    now,
                    actions_view(actions@),
                ));
            },
        }
        actions
    }

    fn handle_indication(&mut self, tuple: ClientTuple, msg: &Message, now: u64) -> (actions: Vec<
        Action,
    >)
        requires
            old(self).wf(),
        ensures
            final(self).wf(),
            final(self).setup() == old(self).setup(),
            final(self).nonces() == old(self).nonces(),
            indication_post(
                old(self).allocations(),
                final(self).allocations(),
                old(self).setup().config,
                tuple,
                msg@,
                now,
                actions_view(actions@),
            ),
    {
        let mut actions: Vec<Action> = Vec::new();
        assert(actions_view(actions@) =~= nothing());
        let (peer, data) = match (msg.method, msg.peer(), msg.text(ATTR_DATA)) {
            (Method::Send, Some(peer), Some(data)) => (peer, data),
            _ => {
                return actions;
            },
        };
        let r = send_to_peer(&mut self.table, tuple, peer, now);
        proof {
            assert(send_post(
                old(self).allocations(),
                self.allocations(),
                old(self).setup().config,
                tuple,
                peer,
                now,
                r,
            ));
        }
        if let Ok(relay) = r {
            let payload = copy_range(data.as_slice(), 0, data.len());
            assert(payload@ =~= data@);
            push_action(&mut actions, Action::ToPeer { relay, peer, payload });
            assert(actions_view(actions@) =~= send_actions(r, peer, data@));
        }
        actions
    }

    fn handle_stun(&mut self, tuple: ClientTuple, raw: &[u8], now: u64, fresh_nonce: &[u8]) -> (actions:
        Vec<Action>)
        requires
            old(self).wf(),
        ensures
            final(self).wf(),
            final(self).setup() == old(self).setup(),
            stun_post(
                old(self).allocations(),
                final(self).allocations(),
                old(self).nonces(),
                final(self).nonces(),
                old(self).setup(),
                tuple,
                raw@,
                now,
                fresh_nonce@,
                actions_view(actions@),
            ),
    {
        let mut actions: Vec<Action> = Vec::new();
        assert(actions_view(actions@) =~= nothing());
        match Message::decode(raw) {
            Ok(msg) => {
                let msg = msg.protected();
                match msg.class {
                    Class::Request => self.handle_request(tuple, &msg, raw, now, fresh_nonce),
                    Class::Indication => self.handle_indication(tuple, &msg, now),
                    _ => actions,
                }
            },
            Err(DecodeError::MalformedAttribute) => {
                if let Ok(h) = decode_header(raw) {
                    if h.class == Class::Request {
                        push_to_client(&mut actions, tuple, &error_message(&h, CODE_BAD_REQUEST));
                    }
                }
                actions
            },
            Err(DecodeError::UnknownAttributeRequired(typ)) => {
                if let Ok(h) = decode_header(raw) {
                    if h.class == Class::Request {
                        push_to_client(&mut actions, tuple, &unknown_attribute_message(&h, typ));
                    }
                }
                actions
            },
            Err(_) => actions,
        }
    }

    fn handle_channel_data(&self, tuple: ClientTuple, raw: &[u8], now: u64) -> (actions: Vec<
        Action,
    >)
        requires
            self.wf(),
        ensures
            channel_data_post(self.allocations(), tuple, raw@, now, actions_view(actions@)),
    {
        let mut actions: Vec<Action> = Vec::new();
        assert(actions_view(actions@) =~= nothing());
        let frame = match ChannelData::decode(raw) {
            None => {
                return actions;
            },
            Some(f) => f,
        };
        let a = match self.table.lookup(tuple, now) {
            None => {
                return actions;
            },
            Some(a) => a,
        };
        match a.peers.peer_for(frame.number, now) {
            None => {},
            Some(peer) => {
                let ghost before = actions_view(actions@);
                push_action(
                    &mut actions,
                    Action::ToPeer { relay: a.relay, peer, payload: frame.data },
                );
                assert(actions_view(actions@) =~= seq![
                    ActionSpec::ToPeer { relay: a.relay, peer, payload: frame.data@ },
                ]);
            },
        }
        actions
    }

    /// Takes a datagram that the client of `tuple` sent to the server at
    /// `now`. `fresh_nonce` is the nonce to hand out if the client is to be
    /// challenged: random bytes that were not used before.
    pub fn handle_client_datagram(
        &mut self,
        tuple: ClientTuple,
        raw: &[u8],
        now: u64,
        fresh_nonce: &[u8],
    ) -> (actions: Vec<Action>)
        requires
            old(self).wf(),
        ensures
            final(self).wf(),
            final(self).setup() == old(self).setup(),
            client_datagram_post(
                old(self).allocations(),
                final(self).allocations(),
                old(self).nonces(),
                final(self).nonces(),
                old(self).setup(),
                tuple,
                raw@,
                now,
                fresh_nonce@,
                actions_view(actions@),
            ),
    {
        if raw.len() > 0 && raw[0] < 64 {
            self.handle_stun(tuple, raw, now, fresh_nonce)
        } else if raw.len() > 0 && raw[0] < 128 {
            self.handle_channel_data(tuple, raw, now)
        } else {
            let actions: Vec<Action> = Vec::new();
            assert(actions_view(actions@) =~= nothing());
            actions
        }
    }

    /// Takes a datagram that `peer` sent to relay port `port` at `now`.
    /// `id` is the transaction identifier for a Data indication: random
    /// bits. A datagram from a peer without a permission comes to nothing.
    pub fn handle_peer_datagram(
        &self,
        port: u16,
        peer: TransportAddr,
        payload: &[u8],
        now: u64,
        id: TransactionId,
    ) -> (actions: Vec<Action>)
        requires
            self.wf(),
        ensures
            actions_view(actions@) == peer_datagram_actions(
                self.allocations(),
                port,
                peer,
                payload@,
                now,
                id,
            ),
    {
        let mut actions: Vec<Action> = Vec::new();
        assert(actions_view(actions@) =~= nothing());
        if let Some((tuple, bytes)) = deliver_from_peer(&self.table, port, peer, payload, now, id) {
            push_action(&mut actions, Action::ToClient { tuple, bytes });
            assert(actions_view(actions@) =~= seq![ActionSpec::ToClient { tuple, bytes: bytes@ }]);
        }
        actions
    }

    /// Removes what has expired at `now`: allocations, whose relay
    /// endpoints are to be closed, the permissions and channel bindings of
    /// the allocations that stay, and nonces.
    pub fn tick(&mut self, now: u64) -> (actions: Vec<Action>)
        requires
            old(self).wf(),
        ensures
            final(self).wf(),
            final(self).setup() == old(self).setup(),
            all_peers_swept(
                live_allocations(old(self).allocations(), now),
                final(self).allocations(),
                now,
            ),
            final(self).nonces() == fresh_nonces(
                old(self).nonces(),
                now,
                old(self).setup().nonce_lifetime,
            ),
            exists|removed: Seq<Allocation>|
                #[trigger] removed_exactly(removed, old(self).allocations(), now) && actions_view(
                    actions@,
                ) == closings(removed),
    {
        self.auth.sweep(now);
        let removed = self.table.expire_sweep(now);
        self.table.sweep_peers(now);
        let mut actions: Vec<Action> = Vec::new();
        let mut i: usize = 0;
        assert(actions_view(actions@) =~= closings(removed@.take(0)));
        while i < removed.len()
            invariant
                i <= removed@.len(),
                actions_view(actions@) == closings(removed@.take(i as int)),
            decreases removed@.len() - i,
        {
            push_action(&mut actions, Action::CloseRelay { relay: removed[i].relay });
            i += 1;
            assert(actions_view(actions@) =~= closings(removed@.take(i as int)));
        }
        assert(removed@.take(i as int) =~= removed@);
        actions
    }

    /// Gives up the allocation of the client of `tuple`, as after a failure
    /// of its relay endpoint, and hands back the relay address to close.
    pub fn release(&mut self, tuple: ClientTuple) -> (relay: Option<TransportAddr>)
        requires
            old(self).wf(),
        ensures
            final(self).wf(),
            final(self).setup() == old(self).setup(),
            final(self).nonces() == old(self).nonces(),
            final(self).allocations() == old(self).allocations().remove(tuple),
            relay == if old(self).allocations().contains_key(tuple) {
                Some(old(self).allocations()[tuple].relay)
            } else {
                None
            },
    {
        match self.table.remove(tuple) {
            Some(a) => Some(a.relay),
            None => None,
        }
    }

    /// The client whose allocation exists at `now` and has relay port
    /// `port`.
    pub fn owner_of_relay(&self, port: u16, now: u64) -> (r: Option<ClientTuple>)
        requires
            self.wf(),
        ensures
            r == crate::relay::relay_owner(self.allocations(), port, now),
    {
        match self.table.find_by_relay(port, now) {
            Some(a) => {
                proof {
                    crate::relay::lemma_relay_owner(
                        self.allocations(),
                        self.setup().config,
                        a.tuple,
                        port,
                        now,
                    );
                }
                Some(a.tuple)
            },
            None => None,
        }
    }
}

} // verus!
