use iguana_rs::auth::{packethash_pow, produce_packethash_signature};
use iguana_rs::codec::{
    decode_header, encode_header, encode_message, DpowNanoMsgHdr, DpowNanoUtxo,
    IguanaPacketHeader,
};
use iguana_rs::db::{init_db, update_known_ips, Database};
use iguana_rs::error::PacketError;
use iguana_rs::relay::{
    connect_to_known_ips, next_frame, process_packet, select_dials, Action, Phase, Relay,
    RelayConfig,
};

const CAPACITY: usize = 8;
const LOCAL: [u8; 4] = [10, 0, 0, 1];
const BOOTSTRAP: [u8; 4] = [10, 0, 0, 2];
const SECRET: [u8; 32] = [0x31; 32];

fn blank_utxo() -> DpowNanoUtxo {
    DpowNanoUtxo {
        srcutxo: [0; 32],
        destutxo: [0; 32],
        bestmask: [0; 8],
        recvmask: [0; 8],
        pendingcrc1: 0,
        pendingcrc2: 0,
        paxwdcrc: 0,
        srcvout: 0,
        destvout: 0,
        sig1: [0; 128],
        sig2: [0; 128],
        siglens: [0; 2],
        pad: 0,
        bestk: 0,
    }
}

fn message(senderind: u8, own: [u8; 4], advertised: &[[u8; 4]]) -> DpowNanoMsgHdr {
    let mut ipbits = vec![[0u8; 4]; CAPACITY];
    ipbits[..advertised.len()].copy_from_slice(advertised);
    DpowNanoMsgHdr {
        srchash: [1; 32],
        desthash: [2; 32],
        ratify: blank_utxo(),
        notarize: blank_utxo(),
        channel: 0x7367_6973,
        height: 100,
        size: 0,
        datalen: 0,
        crc32: 0,
        myipbits: own,
        numipbits: advertised.len() as u32,
        ipbits,
        symbol: [0; 16],
        senderind,
        senderind2: senderind,
        version1: 0,
    }
}

fn packet(msg: &DpowNanoMsgHdr) -> (IguanaPacketHeader, Vec<u8>) {
    let payload = encode_message(msg);
    let (nonce, packethash) = packethash_pow(&payload).unwrap();
    let sig = produce_packethash_signature(packethash, &SECRET).unwrap();
    (IguanaPacketHeader { sig, packethash, nonce, packetlen: payload.len() as u32 }, payload)
}

fn frame(msg: &DpowNanoMsgHdr) -> Vec<u8> {
    let (header, payload) = packet(msg);
    let mut bytes = encode_header(&header);
    bytes.extend_from_slice(&payload);
    bytes
}

fn seeded() -> Database {
    let mut db = Database::new();
    init_db(&mut db);
    db
}

fn steady_relay() -> Relay {
    let config =
        RelayConfig { local: LOCAL, bootstrap: BOOTSTRAP, capacity: CAPACITY, catch_up: false };
    let mut relay = Relay::new(config, seeded());
    relay.advance();
    relay.advance();
    assert_eq!(relay.phase, Phase::Steady);
    relay
}

#[test]
fn accepted_packet_is_recorded() {
    let mut db = seeded();
    let msg = message(63, [8, 8, 8, 8], &[[1, 1, 1, 1], [2, 2, 2, 2]]);
    let (header, payload) = packet(&msg);
    let accepted = process_packet(&mut db, &header, &payload, CAPACITY, 4242).unwrap();
    assert_eq!(accepted.message, msg);
    assert_eq!(accepted.new_ips, vec![[1, 1, 1, 1], [2, 2, 2, 2]]);
    assert_eq!(db.notary(63).unwrap().lastseen, 4242);
    let own = db.ip_log(63, [8, 8, 8, 8]).unwrap();
    assert_eq!((own.first_seen, own.last_seen), (4242, 4242));
    assert_eq!(db.known_ips(), vec![[1, 1, 1, 1], [2, 2, 2, 2]]);
    assert_eq!(db.notary_known_ips().len(), 2);
}

#[test]
fn corrupted_payload_is_a_hash_mismatch_and_writes_nothing() {
    let msg = message(63, [8, 8, 8, 8], &[[1, 1, 1, 1]]);
    let (header, payload) = packet(&msg);
    for at in [0usize, 100, 796, payload.len() - 1] {
        let mut db = seeded();
        let before = db.clone();
        let mut corrupted = payload.clone();
        corrupted[at] ^= 0x40;
        assert_eq!(
            process_packet(&mut db, &header, &corrupted, CAPACITY, 4242),
            Err(PacketError::HashMismatch)
        );
        assert_eq!(db, before);
    }
}

#[test]
fn corrupted_frame_leads_to_no_write_and_no_dial() {
    let mut relay = steady_relay();
    let before = relay.db.clone();
    let mut bytes = frame(&message(63, [8, 8, 8, 8], &[[1, 1, 1, 1]]));
    let last = bytes.len() - 1;
    bytes[last] ^= 0x01;
    let report = relay.ingest(&bytes, 4242);
    assert_eq!(report.consumed, bytes.len());
    assert_eq!(report.outcomes, vec![Err(PacketError::HashMismatch)]);
    assert!(report.dials.is_empty());
    assert_eq!(relay.db, before);
}

#[test]
fn bad_signature_is_dropped_and_writes_nothing() {
    let mut db = seeded();
    let before = db.clone();
    let msg = message(63, [8, 8, 8, 8], &[[1, 1, 1, 1]]);
    let (mut header, payload) = packet(&msg);
    header.sig = [0xff; 64];
    assert_eq!(
        process_packet(&mut db, &header, &payload, CAPACITY, 4242),
        Err(PacketError::SignatureInvalid)
    );
    assert_eq!(db, before);
}

#[test]
fn sender_index_outside_the_roster_is_dropped_and_writes_nothing() {
    let mut db = seeded();
    let before = db.clone();
    let msg = message(64, [8, 8, 8, 8], &[[1, 1, 1, 1]]);
    let (header, payload) = packet(&msg);
    assert_eq!(
        process_packet(&mut db, &header, &payload, CAPACITY, 4242),
        Err(PacketError::InvalidSender)
    );
    assert_eq!(db, before);
}

#[test]
fn payload_shorter_than_a_message_is_a_framing_error() {
    let mut db = seeded();
    let before = db.clone();
    let msg = message(63, [8, 8, 8, 8], &[[1, 1, 1, 1]]);
    let (header, payload) = packet(&msg);
    assert_eq!(
        process_packet(&mut db, &header, &payload, CAPACITY + 1, 4242),
        Err(PacketError::FramingError)
    );
    assert_eq!(db, before);
}

#[test]
fn hash_is_checked_before_the_signature() {
    let mut db = seeded();
    let msg = message(63, [8, 8, 8, 8], &[]);
    let (mut header, mut payload) = packet(&msg);
    header.sig = [0xff; 64];
    payload[3] ^= 1;
    assert_eq!(
        process_packet(&mut db, &header, &payload, CAPACITY, 1),
        Err(PacketError::HashMismatch)
    );
}

#[test]
fn dials_skip_local_bootstrap_and_sentinel() {
    let new_ips = vec![[1, 1, 1, 1], LOCAL, [2, 2, 2, 2], BOOTSTRAP, [0, 0, 0, 0], [3, 3, 3, 3]];
    assert_eq!(
        select_dials(&new_ips, LOCAL, BOOTSTRAP, true),
        vec![[1, 1, 1, 1], [2, 2, 2, 2], [3, 3, 3, 3]]
    );
    assert!(select_dials(&new_ips, LOCAL, BOOTSTRAP, false).is_empty());
    assert!(select_dials(&vec![], LOCAL, BOOTSTRAP, true).is_empty());
    assert!(select_dials(&vec![LOCAL, BOOTSTRAP], LOCAL, BOOTSTRAP, true).is_empty());
}

#[test]
fn frames_are_cut_by_the_declared_length() {
    let first = frame(&message(1, [8, 8, 8, 8], &[]));
    let second = frame(&message(2, [9, 9, 9, 9], &[]));
    let mut stream = first.clone();
    stream.extend_from_slice(&second);
    let a = next_frame(&stream, 0).unwrap();
    assert_eq!(a.header, decode_header(&first).unwrap());
    assert_eq!(a.payload, first[104..].to_vec());
    assert_eq!(a.next, first.len());
    let b = next_frame(&stream, a.next).unwrap();
    assert_eq!(b.payload, second[104..].to_vec());
    assert_eq!(b.next, stream.len());
    assert_eq!(next_frame(&stream, b.next), Err(PacketError::FramingError));
    assert_eq!(next_frame(&stream, stream.len() + 1), Err(PacketError::FramingError));
}

#[test]
fn incomplete_frames_wait_for_more_bytes() {
    let bytes = frame(&message(1, [8, 8, 8, 8], &[]));
    assert_eq!(next_frame(&bytes[..50], 0), Err(PacketError::FramingError));
    assert_eq!(next_frame(&bytes[..104], 0), Err(PacketError::FramingError));
    assert_eq!(next_frame(&bytes[..bytes.len() - 1], 0), Err(PacketError::FramingError));
    assert!(next_frame(&bytes, 0).is_ok());
    let mut relay = steady_relay();
    let report = relay.ingest(&bytes[..bytes.len() - 1], 7);
    assert_eq!(report.consumed, 0);
    assert!(report.outcomes.is_empty());
    assert_eq!(relay.db, seeded());
}

#[test]
fn ingest_processes_frames_in_order_and_dials_what_is_new() {
    let mut relay = steady_relay();
    let first = frame(&message(1, [8, 8, 8, 8], &[[1, 1, 1, 1], LOCAL, BOOTSTRAP]));
    let second = frame(&message(2, [9, 9, 9, 9], &[[1, 1, 1, 1], [2, 2, 2, 2]]));
    let mut stream = first.clone();
    stream.extend_from_slice(&second);
    stream.extend_from_slice(&first[..60]);
    let report = relay.ingest(&stream, 1000);
    assert_eq!(report.consumed, first.len() + second.len());
    assert_eq!(report.outcomes.len(), 2);
    assert_eq!(
        report.outcomes[0].as_ref().unwrap().new_ips,
        vec![[1, 1, 1, 1], LOCAL, BOOTSTRAP]
    );
    assert_eq!(report.outcomes[1].as_ref().unwrap().new_ips, vec![[2, 2, 2, 2]]);
    assert_eq!(report.dials, vec![[1, 1, 1, 1], [2, 2, 2, 2]]);
    assert_eq!(relay.db.known_ips(), vec![[1, 1, 1, 1], LOCAL, BOOTSTRAP, [2, 2, 2, 2]]);
    assert_eq!(relay.db.notary(1).unwrap().lastseen, 1000);
    assert_eq!(relay.db.notary(2).unwrap().lastseen, 1000);
    assert_eq!(relay.db.notary(3).unwrap().lastseen, 0);
}

#[test]
fn a_dropped_frame_does_not_stop_the_ones_after_it() {
    let mut relay = steady_relay();
    let mut bad = frame(&message(1, [8, 8, 8, 8], &[[1, 1, 1, 1]]));
    bad[200] ^= 0xff;
    let good = frame(&message(2, [9, 9, 9, 9], &[[2, 2, 2, 2]]));
    let mut stream = bad.clone();
    stream.extend_from_slice(&good);
    let report = relay.ingest(&stream, 1000);
    assert_eq!(report.consumed, stream.len());
    assert_eq!(report.outcomes[0], Err(PacketError::HashMismatch));
    assert!(report.outcomes[1].is_ok());
    assert_eq!(report.dials, vec![[2, 2, 2, 2]]);
    assert_eq!(relay.db.known_ips(), vec![[2, 2, 2, 2]]);
    assert_eq!(relay.db.notary(1).unwrap().lastseen, 0);
}

#[test]
fn disabled_toggle_records_but_does_not_dial() {
    let mut relay = steady_relay();
    assert!(relay.set_dial_on_discovery(false));
    let report = relay.ingest(&frame(&message(1, [8, 8, 8, 8], &[[1, 1, 1, 1]])), 1000);
    assert!(report.outcomes[0].is_ok());
    assert!(report.dials.is_empty());
    assert_eq!(relay.db.known_ips(), vec![[1, 1, 1, 1]]);
    assert!(relay.set_dial_on_discovery(true));
    let report = relay.ingest(&frame(&message(1, [8, 8, 8, 8], &[[1, 1, 1, 1], [5, 5, 5, 5]])), 1001);
    assert_eq!(report.dials, vec![[5, 5, 5, 5]]);
}

#[test]
fn an_address_is_dialed_once_however_often_it_is_advertised() {
    let mut relay = steady_relay();
    let bytes = frame(&message(1, [8, 8, 8, 8], &[[1, 1, 1, 1], [1, 1, 1, 1]]));
    let first = relay.ingest(&bytes, 1000);
    assert_eq!(first.dials, vec![[1, 1, 1, 1]]);
    let after_first = relay.db.clone();
    let second = relay.ingest(&bytes, 1000);
    assert!(second.dials.is_empty());
    assert_eq!(relay.db, after_first);
}

#[test]
fn phases_run_idle_bootstrapping_steady() {
    let config =
        RelayConfig { local: LOCAL, bootstrap: BOOTSTRAP, capacity: CAPACITY, catch_up: false };
    let mut relay = Relay::new(config, seeded());
    assert_eq!(relay.phase, Phase::Idle);
    assert!(relay.dial_on_discovery);
    assert_eq!(relay.advance(), vec![Action::Bind(LOCAL), Action::Dial(BOOTSTRAP)]);
    assert_eq!(relay.phase, Phase::Bootstrapping);
    assert!(relay.advance().is_empty());
    assert_eq!(relay.phase, Phase::Steady);
    assert!(relay.advance().is_empty());
    assert_eq!(relay.phase, Phase::Steady);
}

#[test]
fn catch_up_dials_every_address_of_the_pool() {
    let mut db = seeded();
    update_known_ips(&mut db, 1, vec![[1, 1, 1, 1], LOCAL, [2, 2, 2, 2]], 5);
    assert_eq!(
        connect_to_known_ips(&db),
        vec![Action::Dial([1, 1, 1, 1]), Action::Dial(LOCAL), Action::Dial([2, 2, 2, 2])]
    );
    let config =
        RelayConfig { local: LOCAL, bootstrap: BOOTSTRAP, capacity: CAPACITY, catch_up: true };
    let mut relay = Relay::new(config, db);
    relay.advance();
    assert_eq!(
        relay.advance(),
        vec![Action::Dial([1, 1, 1, 1]), Action::Dial(LOCAL), Action::Dial([2, 2, 2, 2])]
    );
    assert_eq!(relay.phase, Phase::CatchUp);
    assert!(relay.advance().is_empty());
    assert_eq!(relay.phase, Phase::Steady);
}

#[test]
fn nothing_is_taken_in_before_the_steady_phase() {
    let config =
        RelayConfig { local: LOCAL, bootstrap: BOOTSTRAP, capacity: CAPACITY, catch_up: true };
    let mut relay = Relay::new(config, seeded());
    let bytes = frame(&message(1, [8, 8, 8, 8], &[[1, 1, 1, 1]]));
    for _ in 0..3 {
        let report = relay.ingest(&bytes, 1000);
        assert_eq!(report.consumed, 0);
        assert!(report.outcomes.is_empty());
        assert!(report.dials.is_empty());
        assert_eq!(relay.db, seeded());
        relay.advance();
    }
    assert_eq!(relay.phase, Phase::Steady);
    assert_eq!(relay.ingest(&bytes, 1000).consumed, bytes.len());
}

#[test]
fn data_after_the_message_belongs_to_the_frame() {
    let mut msg = message(1, [8, 8, 8, 8], &[[1, 1, 1, 1]]);
    msg.datalen = 5;
    let mut payload = encode_message(&msg);
    payload.extend_from_slice(&[1, 2, 3, 4, 5]);
    let (nonce, packethash) = packethash_pow(&payload).unwrap();
    let sig = produce_packethash_signature(packethash, &SECRET).unwrap();
    let header = IguanaPacketHeader { sig, packethash, nonce, packetlen: payload.len() as u32 };
    let mut bytes = encode_header(&header);
    bytes.extend_from_slice(&payload);
    let mut relay = steady_relay();
    let report = relay.ingest(&bytes, 1000);
    assert_eq!(report.consumed, bytes.len());
    assert_eq!(report.outcomes[0].as_ref().unwrap().message, msg);
}
