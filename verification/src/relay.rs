//! The path of a packet through the relay: authentication, bookkeeping, and
//! the choice of the peers to dial; and the phases of the connection loop
//! that drives it.

use vstd::prelude::*;
use vstd::slice::slice_to_vec;
use crate::address::{pack_address, packed, packed_list, SENTINEL};
use crate::auth::{
    hash_accepted, signature_accepted, validate_packet_signature, validate_packethash, PublicKey,
    RECOVERY_ID,
};
use crate::codec::{
    decode_header, decode_message, parse_header, parse_message, wire_size, DpowNanoMsgHdr,
    HeaderView, IguanaPacketHeader, MessageView,
};
use crate::crypto::ecdsa_recovered_key;
use crate::db::{
    discovered, lemma_learned_all_wf, lemma_own_ip_recorded_wf, lemma_touched_wf, update_ip_logs,
    update_known_ips, update_lastseen, Database, DbView,
};
use crate::error::PacketError;
use crate::roster::NOTARY_COUNT;

verus! {

/// The packed forms of a list of addresses, each given as its four bytes.
pub open spec fn packed_views(list: Seq<Seq<u8>>) -> Seq<u32> {
    Seq::new(list.len(), |i: int| packed(list[i]))
}

/// What the relay learned from a packet it accepted.
#[derive(Clone, Debug, PartialEq, Eq)]
pub struct Accepted {
    /// The message the packet carried.
    pub message: DpowNanoMsgHdr,
    /// The public key recovered from the packet's signature.
    pub key: PublicKey,
    /// The addresses that the packet added to the pool.
    pub new_ips: Vec<[u8; 4]>,
}

/// What an accepted packet gave, as mathematical values.
pub struct AcceptedView {
    pub message: MessageView,
    pub key: Seq<u8>,
    pub new_ips: Seq<u32>,
}

impl View for Accepted {
    type V = AcceptedView;

    open spec fn view(&self) -> AcceptedView {
        AcceptedView {
            message: self.message@,
            key: self.key@,
            new_ips: packed_list(self.new_ips@),
        }
    }
}

/// What becomes of a packet with the header `header` and the payload
/// `payload`, at a relay whose bookkeeping is `v` and whose address lists
/// hold `capacity` entries.
///
/// The checks come in this order: the integrity hash, the signature, the
/// length of the message, the sender index. The first that fails gives the
/// error. A packet that passes all of them is accepted.
pub open spec fn packet_verdict(v: DbView, header: HeaderView, payload: Seq<u8>, capacity: nat)
    -> Result<AcceptedView, PacketError> {
    if !hash_accepted(header, payload) {
        Err(PacketError::HashMismatch)
    } else if !signature_accepted(header.packethash, header.sig) {
        Err(PacketError::SignatureInvalid)
    } else if payload.len() < wire_size(capacity) {
        Err(PacketError::FramingError)
    } else if parse_message(payload, capacity).senderind >= NOTARY_COUNT {
        Err(PacketError::InvalidSender)
    } else {
        let message = parse_message(payload, capacity);
        Ok(
            AcceptedView {
                message,
                key: ecdsa_recovered_key(header.packethash, header.sig, RECOVERY_ID as int)->Some_0,
                new_ips: discovered(v.known_ips, packed_views(message.ipbits)),
            },
        )
    }
}

/// The bookkeeping after the message `m` was accepted at `now`: the sender
/// was seen, the address it reports for itself is logged, and the addresses
/// of its list are learned.
pub open spec fn recorded(v: DbView, m: MessageView, now: u32) -> DbView {
    v.touched(m.senderind, now).own_ip_recorded(m.senderind, packed(m.myipbits), now).learned_all(
        m.senderind,
        packed_views(m.ipbits),
        now,
    )
}

/// The bookkeeping after a packet: an accepted packet is recorded, a
/// dropped one changes nothing.
pub open spec fn after_packet(v: DbView, verdict: Result<AcceptedView, PacketError>, now: u32)
    -> DbView {
    match verdict {
        Ok(accepted) => recorded(v, accepted.message, now),
        Err(_) => v,
    }
}

/// A packet whose hash is not the hash of its payload is dropped with
/// `HashMismatch`, whatever else it holds; and a packet that is dropped, for
/// whatever reason, changes nothing in the bookkeeping.
pub proof fn lemma_dropped_packet(
    v: DbView,
    header: HeaderView,
    payload: Seq<u8>,
    capacity: nat,
    now: u32,
)
    ensures
        !hash_accepted(header, payload) ==> packet_verdict(v, header, payload, capacity) == Err::<
            AcceptedView,
            PacketError,
        >(PacketError::HashMismatch),
        packet_verdict(v, header, payload, capacity) is Err ==> after_packet(
            v,
            packet_verdict(v, header, payload, capacity),
            now,
        ) == v,
{
}

/// Recording an accepted message keeps the bookkeeping well formed; in
/// particular the all-zero address is never stored.
pub proof fn lemma_recorded_wf(v: DbView, m: MessageView, now: u32)
    requires
        v.wf(),
        m.senderind < NOTARY_COUNT,
    ensures
        recorded(v, m, now).wf(),
        !recorded(v, m, now).known_ips.contains(SENTINEL),
        forall|notary: u8| !recorded(v, m, now).ip_logs.contains_key((notary, SENTINEL)),
{
    let touched = v.touched(m.senderind, now);
    lemma_touched_wf(v, m.senderind, now);
    let logged = touched.own_ip_recorded(m.senderind, packed(m.myipbits), now);
    lemma_own_ip_recorded_wf(touched, m.senderind, packed(m.myipbits), now);
    lemma_learned_all_wf(logged, m.senderind, packed_views(m.ipbits), now);
    let r = recorded(v, m, now);
    assert forall|notary: u8| !r.ip_logs.contains_key((notary, SENTINEL)) by {
        if r.ip_logs.contains_key((notary, SENTINEL)) {
            assert((notary, SENTINEL).1 != SENTINEL);
        }
    }
}

/// Takes one packet through the relay: checks its hash and its signature,
/// decodes its message, checks the sender index, and then records the
/// sender, its own address and the addresses it advertises.
///
/// A packet that fails a check is dropped with the error of that check, and
/// nothing is recorded.
pub fn process_packet(
    db: &mut Database,
    header: &IguanaPacketHeader,
    payload: &Vec<u8>,
    capacity: usize,
    now: u32,
) -> (r: Result<Accepted, PacketError>)
    requires
        old(db).wf(),
    ensures
        final(db).wf(),
        final(db)@ == after_packet(
            old(db)@,
            packet_verdict(old(db)@, header@, payload@, capacity as nat),
            now,
        ),
        match packet_verdict(old(db)@, header@, payload@, capacity as nat) {
            Ok(accepted) => r is Ok && r->Ok_0@ == accepted,
            Err(e) => r is Err && r->Err_0 == e,
        },
{
    match validate_packethash(header, payload) {
        Ok(()) => {},
        Err(e) => {
            return Err(e);
        },
    }
    let key = match validate_packet_signature(header) {
        Ok(key) => key,
        Err(e) => {
            return Err(e);
        },
    };
    let message = match decode_message(payload.as_slice(), capacity) {
        Ok(message) => message,
        Err(e) => {
            return Err(e);
        },
    };
    match update_lastseen(db, message.senderind, now) {
        Ok(()) => {},
        Err(e) => {
            return Err(e);
        },
    }
    update_ip_logs(db, message.senderind, message.myipbits, now);
    let advertised: Vec<[u8; 4]> = slice_to_vec(message.ipbits.as_slice());
    let new_ips = update_known_ips(db, message.senderind, advertised, now);
    proof {
        assert(packed_list(message.ipbits@) =~= packed_views(message@.ipbits));
    }
    Ok(Accepted { message, key, new_ips })
}

/// Whether a newly discovered address is to be dialed: it is not the
/// sentinel, not the relay's own address, and not the bootstrap peer, which
/// is connected already.
pub open spec fn dialable(address: u32, local: u32, bootstrap: u32) -> bool {
    address != SENTINEL && address != local && address != bootstrap
}

/// The addresses to dial among those newly discovered: the dialable ones,
/// in order, while dialing on discovery is enabled; none while it is not.
pub open spec fn dial_targets(new_ips: Seq<u32>, local: u32, bootstrap: u32, enabled: bool) -> Seq<
    u32,
> {
    if enabled {
        new_ips.filter(|a: u32| dialable(a, local, bootstrap))
    } else {
        Seq::empty()
    }
}

/// No address chosen for dialing is the sentinel, the relay's own address
/// or the bootstrap peer, and each was newly discovered.
pub proof fn lemma_dial_targets(new_ips: Seq<u32>, local: u32, bootstrap: u32, enabled: bool)
    ensures
        forall|i: int|
            0 <= i < dial_targets(new_ips, local, bootstrap, enabled).len() ==> {
                &&& dialable(
                    #[trigger] dial_targets(new_ips, local, bootstrap, enabled)[i],
                    local,
                    bootstrap,
                )
                &&& new_ips.contains(dial_targets(new_ips, local, bootstrap, enabled)[i])
            },
        !enabled ==> dial_targets(new_ips, local, bootstrap, enabled).len() == 0,
{
    if enabled {
        let pred = |a: u32| dialable(a, local, bootstrap);
        let d = new_ips.filter(pred);
        assert forall|i: int| 0 <= i < d.len() implies dialable(#[trigger] d[i], local, bootstrap)
            && new_ips.contains(d[i]) by {
            new_ips.lemma_filter_pred(pred, i);
            assert(d.contains(d[i]));
            new_ips.lemma_filter_contains_rev(pred, d[i]);
        }
    }
}

/// Chooses the peers to dial among the addresses `new_ips` that a packet
/// added to the pool.
pub fn select_dials(new_ips: &Vec<[u8; 4]>, local: [u8; 4], bootstrap: [u8; 4], enabled: bool) -> (dials:
    Vec<[u8; 4]>)
    ensures
        packed_list(dials@) == dial_targets(
            packed_list(new_ips@),
            packed(local@),
            packed(bootstrap@),
            enabled,
        ),
        !enabled ==> dials@.len() == 0,
{
    let mut dials: Vec<[u8; 4]> = Vec::new();
    if !enabled {
        assert(packed_list(dials@) =~= Seq::<u32>::empty());
        return dials;
    }
    let own: u32 = pack_address(&local);
    let peer: u32 = pack_address(&bootstrap);
    let ghost list = packed_list(new_ips@);
    let ghost pred = |a: u32| dialable(a, own, peer);
    let mut i: usize = 0;
    proof {
        reveal(Seq::filter);
        assert(list.subrange(0, 0) =~= Seq::<u32>::empty());
        assert(packed_list(dials@) =~= list.subrange(0, 0).filter(pred));
    }
    while i < new_ips.len()
        invariant
            i <= new_ips@.len(),
            list == packed_list(new_ips@),
            own == packed(local@),
            peer == packed(bootstrap@),
            pred == (|a: u32| dialable(a, own, peer)),
            packed_list(dials@) == list.subrange(0, i as int).filter(pred),
        decreases new_ips@.len() - i,
    {
        let ghost chosen = packed_list(dials@);
        let address: u32 = pack_address(&new_ips[i]);
        let take = address != SENTINEL && address != own && address != peer;
        if take {
            dials.push(new_ips[i]);
        }
        proof {
            reveal(Seq::filter);
            let next = list.subrange(0, i + 1);
            assert(next.drop_last() =~= list.subrange(0, i as int));
            assert(next.last() == address);
            if take {
                assert(packed_list(dials@) =~= chosen.push(address));
            } else {
                assert(packed_list(dials@) =~= chosen);
            }
        }
        i += 1;
    }
    assert(list.subrange(0, i as int) =~= list);
    dials
}

/// While dialing on discovery is disabled, a packet leads to no dial; and a
/// packet that is dropped never does.
pub proof fn lemma_no_dials(verdict: Result<AcceptedView, PacketError>, s: Settings)
    requires
        !s.enabled || verdict is Err,
    ensures
        packet_dials(verdict, s) == Seq::<u32>::empty(),
{
}

/// One frame cut from a stream: the header, the payload the header
/// declares, and the position at which the next frame starts.
#[derive(Clone, Debug, PartialEq, Eq)]
pub struct Frame {
    pub header: IguanaPacketHeader,
    pub payload: Vec<u8>,
    pub next: usize,
}

/// Whether `stream` holds a whole frame at `at`: a header, and as many
/// bytes after it as the header declares.
pub open spec fn frame_ready(stream: Seq<u8>, at: int) -> bool {
    &&& 0 <= at
    &&& at + 104 <= stream.len()
    &&& at + 104 + frame_header(stream, at).packetlen <= stream.len()
}

/// The header of the frame at `at`.
pub open spec fn frame_header(stream: Seq<u8>, at: int) -> HeaderView {
    parse_header(stream.subrange(at, stream.len() as int))
}

/// The position after the frame at `at`.
pub open spec fn frame_end(stream: Seq<u8>, at: int) -> int {
    at + 104 + frame_header(stream, at).packetlen
}

/// The payload of the frame at `at`.
pub open spec fn frame_payload(stream: Seq<u8>, at: int) -> Seq<u8> {
    stream.subrange(at + 104, frame_end(stream, at))
}

/// Cuts the frame at `at` from `stream`. Fails with `FramingError` exactly
/// when the stream does not yet hold the whole frame; the stream is then to
/// be read again from `at` once more bytes have arrived.
pub fn next_frame(stream: &[u8], at: usize) -> (r: Result<Frame, PacketError>)
    ensures
        r is Ok <==> frame_ready(stream@, at as int),
        r is Err ==> r->Err_0 == PacketError::FramingError,
        r is Ok ==> {
            &&& r->Ok_0.header@ == frame_header(stream@, at as int)
            &&& r->Ok_0.payload@ == frame_payload(stream@, at as int)
            &&& r->Ok_0.next == frame_end(stream@, at as int)
        },
{
    let total: usize = stream.len();
    if at > total {
        return Err(PacketError::FramingError);
    }
    let header = match decode_header(&stream[at..total]) {
        Ok(header) => header,
        Err(e) => {
            return Err(e);
        },
    };
    let from: usize = at + 104;
    let declared: usize = header.packetlen as usize;
    if declared > total - from {
        return Err(PacketError::FramingError);
    }
    let next: usize = from + declared;
    let payload: Vec<u8> = slice_to_vec(&stream[from..next]);
    Ok(Frame { header, payload, next })
}

/// The phases of the connection loop.
#[derive(Clone, Copy, Debug, PartialEq, Eq, Structural)]
pub enum Phase {
    /// Nothing has been done yet.
    Idle,
    /// The local endpoint is bound and the bootstrap peer is dialed.
    Bootstrapping,
    /// The addresses known from earlier runs are dialed.
    CatchUp,
    /// Packets are taken in, and newly discovered peers are dialed.
    Steady,
}

/// What the connection loop asks of the transport.
#[derive(Clone, Copy, Debug, PartialEq, Eq)]
pub enum Action {
    /// Bind the local endpoint at this address.
    Bind([u8; 4]),
    /// Dial the peer at this address. The outcome does not matter to the
    /// loop: a peer that cannot be reached is advertised again later.
    Dial([u8; 4]),
}

/// An action, with its address packed.
pub enum ActionView {
    Bind(u32),
    Dial(u32),
}

impl View for Action {
    type V = ActionView;

    open spec fn view(&self) -> ActionView {
        match *self {
            Action::Bind(ip) => ActionView::Bind(packed(ip@)),
            Action::Dial(ip) => ActionView::Dial(packed(ip@)),
        }
    }
}

/// The views of a list of actions.
pub open spec fn action_views(actions: Seq<Action>) -> Seq<ActionView> {
    Seq::new(actions.len(), |i: int| actions[i]@)
}

/// One dial for each address of `addresses`, in order.
pub open spec fn dial_each(addresses: Seq<u32>) -> Seq<ActionView> {
    Seq::new(addresses.len(), |i: int| ActionView::Dial(addresses[i]))
}

/// How a deployment of the relay is configured.
#[derive(Clone, Copy, Debug, PartialEq, Eq)]
pub struct RelayConfig {
    /// The address the local endpoint is bound to.
    pub local: [u8; 4],
    /// The peer that is dialed first.
    pub bootstrap: [u8; 4],
    /// How many entries the address list of a message holds on this network.
    pub capacity: usize,
    /// Whether the addresses known from earlier runs are dialed at startup.
    pub catch_up: bool,
}

/// The phase that follows `phase`.
pub open spec fn next_phase(phase: Phase, catch_up: bool) -> Phase {
    match phase {
        Phase::Idle => Phase::Bootstrapping,
        Phase::Bootstrapping => if catch_up {
            Phase::CatchUp
        } else {
            Phase::Steady
        },
        Phase::CatchUp => Phase::Steady,
        Phase::Steady => Phase::Steady,
    }
}

/// What is asked of the transport on leaving `phase`: on leaving `Idle`,
/// to bind the local endpoint and dial the bootstrap peer; on leaving
/// `Bootstrapping` for `CatchUp`, to dial every address of the pool;
/// otherwise nothing.
pub open spec fn phase_actions(
    phase: Phase,
    catch_up: bool,
    local: u32,
    bootstrap: u32,
    pool: Seq<u32>,
) -> Seq<ActionView> {
    match phase {
        Phase::Idle => seq![ActionView::Bind(local), ActionView::Dial(bootstrap)],
        Phase::Bootstrapping => if catch_up {
            dial_each(pool)
        } else {
            Seq::empty()
        },
        Phase::CatchUp => Seq::empty(),
        Phase::Steady => Seq::empty(),
    }
}

/// The dials that catching up asks for: one for each address of the pool,
/// in the order in which the addresses were learned.
pub fn connect_to_known_ips(db: &Database) -> (actions: Vec<Action>)
    ensures
        action_views(actions@) == dial_each(db@.known_ips),
{
    let pool = db.known_ips();
    let mut actions: Vec<Action> = Vec::new();
    let mut i: usize = 0;
    while i < pool.len()
        invariant
            i <= pool@.len(),
            actions@.len() == i,
            forall|j: int| 0 <= j < i ==> (#[trigger] actions@[j])@ == ActionView::Dial(packed(pool@[j]@)),
        decreases pool@.len() - i,
    {
        actions.push(Action::Dial(pool[i]));
        i += 1;
    }
    proof {
        assert(packed_list(pool@) == db@.known_ips);
        assert forall|j: int| 0 <= j < pool@.len() implies packed(pool@[j]@) == db@.known_ips[j] by {
            assert(packed_list(pool@)[j] == packed(pool@[j]@));
        }
        assert(action_views(actions@) =~= dial_each(db@.known_ips));
    }
    actions
}

/// The settings under which a stream is taken in.
pub struct Settings {
    pub capacity: nat,
    pub local: u32,
    pub bootstrap: u32,
    pub enabled: bool,
    pub now: u32,
}

/// What taking in a stream gives.
pub struct IngestView {
    /// The bookkeeping afterwards.
    pub db: DbView,
    /// The position up to which the stream was consumed: the start of the
    /// first frame that is not yet whole.
    pub consumed: int,
    /// What became of each frame, in order.
    pub outcomes: Seq<Result<AcceptedView, PacketError>>,
    /// The addresses to dial, in order.
    pub dials: Seq<u32>,
}

/// The dials that a packet with the given verdict leads to.
pub open spec fn packet_dials(verdict: Result<AcceptedView, PacketError>, s: Settings) -> Seq<u32> {
    match verdict {
        Ok(accepted) => dial_targets(accepted.new_ips, s.local, s.bootstrap, s.enabled),
        Err(_) => Seq::empty(),
    }
}

/// What taking in `stream` from position `at` on gives, with the
/// bookkeeping at `v`: the whole frames are processed one after the other,
/// each against the bookkeeping as the frames before it left it; a frame
/// that is dropped changes nothing and leads to no dial.
pub open spec fn ingested(v: DbView, stream: Seq<u8>, at: int, s: Settings) -> IngestView
    decreases stream.len() - at,
{
    if !frame_ready(stream, at) {
        IngestView { db: v, consumed: at, outcomes: Seq::empty(), dials: Seq::empty() }
    } else {
        let verdict = packet_verdict(
            v,
            frame_header(stream, at),
            frame_payload(stream, at),
            s.capacity,
        );
        let rest = ingested(after_packet(v, verdict, s.now), stream, frame_end(stream, at), s);
        IngestView {
            db: rest.db,
            consumed: rest.consumed,
            outcomes: seq![verdict] + rest.outcomes,
            dials: packet_dials(verdict, s) + rest.dials,
        }
    }
}

/// Taking in a stream stops at the start of the first frame that is not yet
/// whole, and never beyond the end of the stream.
pub proof fn lemma_ingested_consumed(v: DbView, stream: Seq<u8>, at: int, s: Settings)
    requires
        0 <= at <= stream.len(),
    ensures
        at <= ingested(v, stream, at, s).consumed <= stream.len(),
        !frame_ready(stream, ingested(v, stream, at, s).consumed),
    decreases stream.len() - at,
{
    if frame_ready(stream, at) {
        let verdict = packet_verdict(
            v,
            frame_header(stream, at),
            frame_payload(stream, at),
            s.capacity,
        );
        lemma_ingested_consumed(
            after_packet(v, verdict, s.now),
            stream,
            frame_end(stream, at),
            s,
        );
    }
}

/// Taking in a stream keeps the bookkeeping well formed, whatever the
/// stream holds.
pub proof fn lemma_ingested_wf(v: DbView, stream: Seq<u8>, at: int, s: Settings)
    requires
        v.wf(),
    ensures
        ingested(v, stream, at, s).db.wf(),
    decreases stream.len() - at,
{
    if frame_ready(stream, at) {
        let verdict = packet_verdict(
            v,
            frame_header(stream, at),
            frame_payload(stream, at),
            s.capacity,
        );
        match verdict {
            Ok(accepted) => {
                lemma_recorded_wf(v, accepted.message, s.now);
            },
            Err(_) => {},
        }
        lemma_ingested_wf(after_packet(v, verdict, s.now), stream, frame_end(stream, at), s);
    }
}

/// Taking in a stream never asks to dial the sentinel, the relay's own
/// address or the bootstrap peer; and while dialing on discovery is
/// disabled it asks for no dial at all.
pub proof fn lemma_ingested_dials(v: DbView, stream: Seq<u8>, at: int, s: Settings)
    ensures
        forall|i: int|
            0 <= i < ingested(v, stream, at, s).dials.len() ==> dialable(
                #[trigger] ingested(v, stream, at, s).dials[i],
                s.local,
                s.bootstrap,
            ),
        !s.enabled ==> ingested(v, stream, at, s).dials.len() == 0,
    decreases stream.len() - at,
{
    if frame_ready(stream, at) {
        let verdict = packet_verdict(
            v,
            frame_header(stream, at),
            frame_payload(stream, at),
            s.capacity,
        );
        let first = packet_dials(verdict, s);
        let rest = ingested(after_packet(v, verdict, s.now), stream, frame_end(stream, at), s);
        lemma_ingested_dials(after_packet(v, verdict, s.now), stream, frame_end(stream, at), s);
        match verdict {
            Ok(accepted) => {
                lemma_dial_targets(accepted.new_ips, s.local, s.bootstrap, s.enabled);
            },
            Err(_) => {},
        }
        let all = ingested(v, stream, at, s).dials;
        assert(all == first + rest.dials);
        assert forall|i: int| 0 <= i < all.len() implies dialable(
            #[trigger] all[i],
            s.local,
            s.bootstrap,
        ) by {
            if i < first.len() {
                assert(all[i] == first[i]);
            } else {
                assert(all[i] == rest.dials[i - first.len()]);
            }
        }
    }
}

/// What became of a packet, as mathematical values.
pub open spec fn outcome_view(outcome: Result<Accepted, PacketError>) -> Result<
    AcceptedView,
    PacketError,
> {
    match outcome {
        Ok(accepted) => Ok(accepted@),
        Err(e) => Err(e),
    }
}

/// The views of a list of outcomes.
pub open spec fn outcome_views(outcomes: Seq<Result<Accepted, PacketError>>) -> Seq<
    Result<AcceptedView, PacketError>,
> {
    Seq::new(outcomes.len(), |i: int| outcome_view(outcomes[i]))
}

/// What taking in a stream gave.
#[derive(Clone, Debug, PartialEq, Eq)]
pub struct IngestReport {
    /// How many bytes of the stream were consumed. The rest is the start of
    /// a frame that is not yet whole.
    pub consumed: usize,
    /// What became of each frame, in order.
    pub outcomes: Vec<Result<Accepted, PacketError>>,
    /// The peers to dial, in order.
    pub dials: Vec<[u8; 4]>,
}

/// The relay: its configuration, the phase of its connection loop, the
/// switch that enables dialing on discovery, and its bookkeeping.
#[derive(Clone, Debug, PartialEq, Eq)]
pub struct Relay {
    pub config: RelayConfig,
    pub phase: Phase,
    pub dial_on_discovery: bool,
    pub db: Database,
}

impl Relay {
    /// The settings under which this relay takes in a stream at `now`.
    pub open spec fn settings(&self, now: u32) -> Settings {
        Settings {
            capacity: self.config.capacity as nat,
            local: packed(self.config.local@),
            bootstrap: packed(self.config.bootstrap@),
            enabled: self.dial_on_discovery,
            now,
        }
    }

    /// A relay that has done nothing yet, with dialing on discovery enabled.
    pub fn new(config: RelayConfig, db: Database) -> (relay: Relay)
        ensures
            relay.config == config,
            relay.phase == Phase::Idle,
            relay.dial_on_discovery,
            relay.db == db,
    {
        Relay { config, phase: Phase::Idle, dial_on_discovery: true, db }
    }

    /// Enables or disables dialing on discovery, and acknowledges.
    pub fn set_dial_on_discovery(&mut self, value: bool) -> (ack: bool)
        ensures
            ack,
            final(self).dial_on_discovery == value,
            final(self).config == old(self).config,
            final(self).phase == old(self).phase,
            final(self).db == old(self).db,
    {
        self.dial_on_discovery = value;
        true
    }

    /// Moves the connection loop to its next phase and returns what the
    /// transport is asked to do on the way.
    pub fn advance(&mut self) -> (actions: Vec<Action>)
        ensures
            final(self).phase == next_phase(old(self).phase, old(self).config.catch_up),
            final(self).config == old(self).config,
            final(self).dial_on_discovery == old(self).dial_on_discovery,
            final(self).db == old(self).db,
            action_views(actions@) == phase_actions(
                old(self).phase,
                old(self).config.catch_up,
                packed(old(self).config.local@),
                packed(old(self).config.bootstrap@),
                old(self).db@.known_ips,
            ),
    {
        let mut actions: Vec<Action> = Vec::new();
        match self.phase {
            Phase::Idle => {
                actions.push(Action::Bind(self.config.local));
                actions.push(Action::Dial(self.config.bootstrap));
                self.phase = Phase::Bootstrapping;
                assert(action_views(actions@) =~= seq![
                    ActionView::Bind(packed(self.config.local@)),
                    ActionView::Dial(packed(self.config.bootstrap@)),
                ]);
            },
            Phase::Bootstrapping => {
                if self.config.catch_up {
                    actions = connect_to_known_ips(&self.db);
                    self.phase = Phase::CatchUp;
                } else {
                    self.phase = Phase::Steady;
                    assert(action_views(actions@) =~= Seq::<ActionView>::empty());
                }
            },
            Phase::CatchUp => {
                self.phase = Phase::Steady;
                assert(action_views(actions@) =~= Seq::<ActionView>::empty());
            },
            Phase::Steady => {
                assert(action_views(actions@) =~= Seq::<ActionView>::empty());
            },
        }
        actions
    }

    /// Takes in the bytes that have arrived, in the `Steady` phase: every
    /// whole frame is cut from the stream and processed, in order. A frame
    /// that fails a check is dropped and the next one is taken up. The
    /// addresses that accepted packets add to the pool are chosen for dialing
    /// as `select_dials` says.
    ///
    /// In any other phase nothing is consumed and nothing changes.
    pub fn ingest(&mut self, stream: &[u8], now: u32) -> (report: IngestReport)
        requires
            old(self).db.wf(),
        ensures
            final(self).db.wf(),
            final(self).config == old(self).config,
            final(self).phase == old(self).phase,
            final(self).dial_on_discovery == old(self).dial_on_discovery,
            old(self).phase != Phase::Steady ==> {
                &&& final(self).db@ == old(self).db@
                &&& report.consumed == 0
                &&& report.outcomes@.len() == 0
                &&& report.dials@.len() == 0
            },
            old(self).phase == Phase::Steady ==> {
                let total = ingested(old(self).db@, stream@, 0, old(self).settings(now));
                &&& final(self).db@ == total.db
                &&& report.consumed == total.consumed
                &&& outcome_views(report.outcomes@) == total.outcomes
                &&& packed_list(report.dials@) == total.dials
            },
    {
        let mut outcomes: Vec<Result<Accepted, PacketError>> = Vec::new();
        let mut dials: Vec<[u8; 4]> = Vec::new();
        let mut at: usize = 0;
        match self.phase {
            Phase::Steady => {},
            _ => {
                return IngestReport { consumed: 0, outcomes, dials };
            },
        }
        let ghost s = self.settings(now);
        let ghost total = ingested(self.db@, stream@, 0, s);
        proof {
            assert(outcome_views(outcomes@) =~= Seq::empty());
            assert(packed_list(dials@) =~= Seq::<u32>::empty());
            assert(outcome_views(outcomes@) + total.outcomes =~= total.outcomes);
            assert(packed_list(dials@) + total.dials =~= total.dials);
        }
        loop
            invariant
                self.db.wf(),
                self.config == old(self).config,
                self.phase == old(self).phase,
                self.dial_on_discovery == old(self).dial_on_discovery,
                s == old(self).settings(now),
                total == ingested(old(self).db@, stream@, 0, s),
                at <= stream@.len(),
                ingested(self.db@, stream@, at as int, s).db == total.db,
                ingested(self.db@, stream@, at as int, s).consumed == total.consumed,
                outcome_views(outcomes@) + ingested(self.db@, stream@, at as int, s).outcomes
                    == total.outcomes,
                packed_list(dials@) + ingested(self.db@, stream@, at as int, s).dials
                    == total.dials,
            ensures
                self.db.wf(),
                self.config == old(self).config,
                self.phase == old(self).phase,
                self.dial_on_discovery == old(self).dial_on_discovery,
                self.db@ == total.db,
                at == total.consumed,
                outcome_views(outcomes@) == total.outcomes,
                packed_list(dials@) == total.dials,
            decreases stream@.len() - at,
        {
            let frame = match next_frame(stream, at) {
                Ok(frame) => frame,
                Err(_) => {
                    proof {
                        let rem = ingested(self.db@, stream@, at as int, s);
                        assert(outcome_views(outcomes@) + rem.outcomes =~= outcome_views(outcomes@));
                        assert(packed_list(dials@) + rem.dials =~= packed_list(dials@));
                    }
                    break ;
                },
            };
            let ghost before = self.db@;
            let ghost seen = outcome_views(outcomes@);
            let ghost chosen = packed_list(dials@);
            let ghost verdict = packet_verdict(before, frame.header@, frame.payload@, s.capacity);
            let outcome = process_packet(
                &mut self.db,
                &frame.header,
                &frame.payload,
                self.config.capacity,
                now,
            );
            let ghost picked = packet_dials(verdict, s);
            match &outcome {
                Ok(accepted) => {
                    let mut picks = select_dials(
                        &accepted.new_ips,
                        self.config.local,
                        self.config.bootstrap,
                        self.dial_on_discovery,
                    );
                    let ghost more = picks@;
                    dials.append(&mut picks);
                    proof {
                        assert(packed_list(dials@) =~= chosen + packed_list(more));
                    }
                },
                Err(_) => {
                    proof {
                        assert(chosen + picked =~= chosen);
                    }
                },
            }
            outcomes.push(outcome);
            proof {
                assert(outcome_view(outcome) == verdict);
                assert(outcome_views(outcomes@) =~= seen + seq![verdict]);
                let rest = ingested(self.db@, stream@, frame.next as int, s);
                assert((seen + seq![verdict]) + rest.outcomes =~= seen + (seq![verdict]
                    + rest.outcomes));
                assert((chosen + picked) + rest.dials =~= chosen + (picked + rest.dials));
            }
            at = frame.next;
        }
        IngestReport { consumed: at, outcomes, dials }
    }
}

} // verus!
