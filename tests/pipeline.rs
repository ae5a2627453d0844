use meshstellar::dto::ServiceEnvelopeSelectResult;
use meshstellar::pipeline::{process_service_envelope, process_service_envelopes, EnvelopeQueue, ProcessOutcome};
use meshstellar::store::{DuplicateStatus, PayloadOutcome, Store, StoreError};

fn varint(mut v: u64, out: &mut Vec<u8>) {
    loop {
        let b = (v & 0x7f) as u8;
        v >>= 7;
        if v == 0 {
            out.push(b);
            break;
        }
        out.push(b | 0x80);
    }
}

fn f_varint(n: u32, v: u64) -> Vec<u8> {
    let mut out = Vec::new();
    varint(((n as u64) << 3) | 0, &mut out);
    varint(v, &mut out);
    out
}

fn f_fixed32(n: u32, v: u32) -> Vec<u8> {
    let mut out = Vec::new();
    varint(((n as u64) << 3) | 5, &mut out);
    out.extend_from_slice(&v.to_le_bytes());
    out
}

fn f_len(n: u32, bytes: &[u8]) -> Vec<u8> {
    let mut out = Vec::new();
    varint(((n as u64) << 3) | 2, &mut out);
    varint(bytes.len() as u64, &mut out);
    out.extend_from_slice(bytes);
    out
}

fn cat(parts: &[Vec<u8>]) -> Vec<u8> {
    parts.concat()
}

struct Pkt {
    from: u32,
    to: u32,
    id: u32,
    rx_time: u32,
    port: i32,
    payload: Vec<u8>,
    gateway: &'static str,
}

fn envelope_bytes(p: &Pkt) -> Vec<u8> {
    let data = cat(&[f_varint(1, p.port as u32 as u64), f_len(2, &p.payload)]);
    let packet = cat(&[
        f_fixed32(1, p.from),
        f_fixed32(2, p.to),
        f_len(4, &data),
        f_fixed32(6, p.id),
        f_fixed32(7, p.rx_time),
        f_fixed32(8, 6.25f32.to_bits()),
        f_varint(12, (-90i64) as u64),
        f_varint(15, 3),
        f_varint(9, 2),
    ]);
    cat(&[f_len(1, &packet), f_len(2, b"LongFast"), f_len(3, p.gateway.as_bytes())])
}

fn envelope(id: i64, hash: u8, p: &Pkt) -> ServiceEnvelopeSelectResult {
    ServiceEnvelopeSelectResult { id, hash: vec![hash; 32], payload_data: envelope_bytes(p), created_at: 0 }
}

fn position_payload(lat: i32, lon: i32, alt: i32, time: u32) -> Vec<u8> {
    cat(&[
        f_fixed32(1, lat as u32),
        f_fixed32(2, lon as u32),
        f_varint(3, alt as i64 as u64),
        f_fixed32(4, time),
        f_fixed32(7, time),
    ])
}

const MIN: i64 = 60_000_000_000;
const T0: i64 = 1_700_000_000_000_000_000;

fn processed(r: Result<ProcessOutcome, StoreError>) -> meshstellar::store::PacketOutcome {
    match r {
        Ok(ProcessOutcome::Packet(o)) => o,
        other => panic!("unexpected outcome {:?}", other),
    }
}

#[test]
fn position_envelope_creates_record_and_updates_node() {
    let mut store = Store::new(3600);
    let p = Pkt {
        from: 0x0a2b3c4d,
        to: 0xFFFF_FFFF,
        id: 7,
        rx_time: 1_700_000_000,
        port: 3,
        payload: position_payload(407128000, -740060000, 10, 1_700_000_000),
        gateway: "!0a2b3c4d",
    };
    let o = processed(process_service_envelope(&mut store, envelope(1, 1, &p), T0));
    assert_eq!(o.status, DuplicateStatus::Novel);
    assert_eq!(o.payload, Some(PayloadOutcome::Handled));
    assert_eq!(store.mesh_packets.len(), 1);
    assert_eq!(store.positions.len(), 1);
    let rec = &store.positions[0];
    assert_eq!(rec.id, 1);
    assert_eq!(rec.mesh_packet_id, 1);
    assert_eq!(rec.position.latitude_i, Some(407128000));
    assert_eq!(rec.timestamp, Some(1_700_000_000_000_000_000));
    let node = store.nodes.get(&0x0a2b3c4d).expect("node");
    let pos = node.position.expect("position");
    assert!(((pos.value.latitude_i as f64) / 1e7 - 40.7128).abs() < 1e-9);
    assert!(((pos.value.longitude_i as f64) / 1e7 - (-74.0060)).abs() < 1e-9);
    assert_eq!(pos.record_id, Some(1));
    assert_eq!(pos.value.altitude, Some(10));
    let radio = node.radio.expect("radio");
    assert_eq!(radio.observed_at, 1_700_000_000_000_000_000);
    assert_eq!(radio.value.rx_rssi, -90);
    assert_eq!(f32::from_bits(radio.value.rx_snr), 6.25);
    assert_eq!(radio.value.hop_start, 3);
    assert_eq!(radio.value.hop_limit, 2);
    let row = &store.mesh_packets[0];
    assert_eq!(row.gateway_id, "!0a2b3c4d");
    assert_eq!(row.unique_id, 7);
    assert_eq!(row.rx_time, 1_700_000_000_000_000_000);
    assert_eq!(row.created_at, T0);
    assert_eq!(row.duplicate_of(), None);
    assert_eq!(row.hop_count(), Some(1));
    assert_eq!(row.portnum, 3);
}

#[test]
fn same_packet_ten_minutes_later_is_a_near_duplicate() {
    let mut store = Store::new(3600);
    let mk = |gateway: &'static str| Pkt {
        from: 0x11,
        to: 0xFFFF_FFFF,
        id: 42,
        rx_time: 1_700_000_000,
        port: 3,
        payload: position_payload(1, 2, 3, 4),
        gateway,
    };
    processed(process_service_envelope(&mut store, envelope(1, 1, &mk("!aaaaaaaa")), T0));
    let o = processed(process_service_envelope(&mut store, envelope(2, 2, &mk("!bbbbbbbb")), T0 + 10 * MIN));
    assert_eq!(o.status, DuplicateStatus::NearDuplicate(1));
    assert_eq!(o.payload, None);
    assert_eq!(store.mesh_packets.len(), 2);
    assert_eq!(store.mesh_packets[1].duplicate_of(), Some(1));
    assert_eq!(store.positions.len(), 1);
    let o3 = processed(process_service_envelope(&mut store, envelope(3, 3, &mk("!cccccccc")), T0 + 20 * MIN));
    assert_eq!(o3.status, DuplicateStatus::NearDuplicate(1));
}

#[test]
fn copies_outside_the_window_are_novel() {
    let mut store = Store::new(3600);
    let p = Pkt { from: 0x11, to: 5, id: 42, rx_time: 1, port: 1, payload: b"hi".to_vec(), gateway: "!g" };
    processed(process_service_envelope(&mut store, envelope(1, 1, &p), T0));
    let o = processed(process_service_envelope(&mut store, envelope(2, 2, &p), T0 + 61 * MIN));
    assert_eq!(o.status, DuplicateStatus::Novel);
}

#[test]
fn packet_id_zero_never_deduplicates() {
    let mut store = Store::new(3600);
    let p = Pkt { from: 0x11, to: 5, id: 0, rx_time: 1, port: 3, payload: position_payload(1, 2, 3, 4), gateway: "!g" };
    processed(process_service_envelope(&mut store, envelope(1, 1, &p), T0));
    let o = processed(process_service_envelope(&mut store, envelope(2, 1, &p), T0 + MIN));
    assert_eq!(o.status, DuplicateStatus::Novel);
    assert_eq!(store.positions.len(), 2);
}

#[test]
fn exact_repeat_gets_a_row_but_no_processing() {
    let mut store = Store::new(3600);
    let p = Pkt { from: 0x11, to: 5, id: 9, rx_time: 1, port: 3, payload: position_payload(1, 2, 3, 4), gateway: "!g" };
    processed(process_service_envelope(&mut store, envelope(1, 7, &p), T0));
    let o = processed(process_service_envelope(&mut store, envelope(2, 7, &p), T0 + 2 * 3600 * 1_000_000_000));
    assert_eq!(o.status, DuplicateStatus::ExactRepeat);
    assert_eq!(o.payload, None);
    assert_eq!(store.mesh_packets.len(), 2);
    assert_eq!(store.positions.len(), 1);
    assert_eq!(store.mesh_packets[1].status, DuplicateStatus::ExactRepeat);
}

#[test]
fn unknown_port_records_packet_only() {
    let mut store = Store::new(3600);
    let p = Pkt { from: 0x33, to: 5, id: 1, rx_time: 100, port: 9999, payload: vec![1, 2, 3], gateway: "!g" };
    let o = processed(process_service_envelope(&mut store, envelope(1, 1, &p), T0));
    assert_eq!(o.payload, Some(PayloadOutcome::Unsupported(9999)));
    assert_eq!(store.mesh_packets.len(), 1);
    assert_eq!(store.positions.len() + store.device_metrics.len() + store.node_infos.len(), 0);
    assert_eq!(store.waypoints.len() + store.neighbors.len() + store.power_metrics.len(), 0);
    let node = store.nodes.get(&0x33).expect("node");
    assert!(node.radio.is_some());
    assert!(node.position.is_none() && node.identity.is_none() && node.device_metrics.is_none());
    let next = Pkt { from: 0x34, to: 5, id: 2, rx_time: 100, port: 3, payload: position_payload(1, 2, 3, 4), gateway: "!g" };
    let o2 = processed(process_service_envelope(&mut store, envelope(2, 2, &next), T0));
    assert_eq!(o2.payload, Some(PayloadOutcome::Handled));
}

fn neighbor(id: u32, snr: f32) -> Vec<u8> {
    cat(&[f_varint(1, id as u64), f_fixed32(2, snr.to_bits())])
}

#[test]
fn neighbor_report_skips_unreal_ids() {
    let mut store = Store::new(3600);
    let info = cat(&[
        f_varint(1, 0x44),
        f_len(4, &neighbor(0, 1.0)),
        f_len(4, &neighbor(0xFFFF_FFFF, 2.0)),
        f_len(4, &neighbor(0x11, 3.0)),
        f_len(4, &neighbor(0x22, 4.0)),
    ]);
    let p = Pkt { from: 0x44, to: 0xFFFF_FFFF, id: 5, rx_time: 200, port: 71, payload: info, gateway: "!g" };
    let o = processed(process_service_envelope(&mut store, envelope(1, 1, &p), T0));
    assert_eq!(o.payload, Some(PayloadOutcome::Handled));
    assert!(store.nodes.contains_key(&0x11));
    assert!(store.nodes.contains_key(&0x22));
    assert!(!store.nodes.contains_key(&0));
    assert!(!store.nodes.contains_key(&0xFFFF_FFFF));
    assert_eq!(store.nodes.len(), 3);
    assert_eq!(store.neighbors.len(), 2);
    assert_eq!(store.neighbors[0].node_id, 0x44);
    assert_eq!(store.neighbors[0].neighbor_node_id, 0x11);
    assert_eq!(f32::from_bits(store.neighbors[1].snr), 4.0);
    assert_eq!(store.neighbors[1].timestamp, 200_000_000_000);
}

#[test]
fn later_position_wins_in_either_order() {
    for order in [[0usize, 1], [1, 0]] {
        let mut store = Store::new(3600);
        let pkts = [
            Pkt { from: 0x55, to: 1, id: 1, rx_time: 1000, port: 3, payload: position_payload(100, 200, 1, 1000), gateway: "!a" },
            Pkt { from: 0x55, to: 1, id: 2, rx_time: 2000, port: 3, payload: position_payload(300, 400, 2, 2000), gateway: "!b" },
        ];
        for (k, &i) in order.iter().enumerate() {
            processed(process_service_envelope(&mut store, envelope(k as i64 + 1, i as u8 + 1, &pkts[i]), T0));
        }
        let pos = store.nodes.get(&0x55).unwrap().position.unwrap();
        assert_eq!(pos.value.latitude_i, 300);
        assert_eq!(pos.value.longitude_i, 400);
        assert_eq!(pos.observed_at, 2_000_000_000_000);
        let radio = store.nodes.get(&0x55).unwrap().radio.unwrap();
        assert_eq!(radio.observed_at, 2_000_000_000_000);
    }
}

#[test]
fn telemetry_device_metrics_update_node() {
    let mut store = Store::new(3600);
    let dm = cat(&[f_varint(1, 87), f_fixed32(2, 4.1f32.to_bits()), f_varint(5, 3600)]);
    let tel = cat(&[f_fixed32(1, 1_700_000_000), f_len(2, &dm)]);
    let p = Pkt { from: 0x66, to: 1, id: 3, rx_time: 5, port: 67, payload: tel, gateway: "!g" };
    processed(process_service_envelope(&mut store, envelope(1, 1, &p), T0));
    assert_eq!(store.device_metrics.len(), 1);
    assert_eq!(store.device_metrics[0].time, Some(1_700_000_000_000_000_000));
    assert_eq!(store.device_metrics[0].metrics.battery_level, Some(87));
    let node = store.nodes.get(&0x66).unwrap();
    let g = node.device_metrics.unwrap();
    assert_eq!(g.record_id, Some(1));
    assert_eq!(f32::from_bits(g.value.voltage.unwrap()), 4.1);
    assert_eq!(g.value.uptime_seconds, Some(3600));
}

#[test]
fn telemetry_power_metrics_are_recorded_only() {
    let mut store = Store::new(3600);
    let pm = cat(&[f_fixed32(1, 5.0f32.to_bits())]);
    let tel = cat(&[f_len(5, &pm)]);
    let p = Pkt { from: 0x67, to: 1, id: 3, rx_time: 5, port: 67, payload: tel, gateway: "!g" };
    processed(process_service_envelope(&mut store, envelope(1, 1, &p), T0));
    assert_eq!(store.power_metrics.len(), 1);
    assert_eq!(store.power_metrics[0].time, None);
    assert!(store.nodes.get(&0x67).unwrap().device_metrics.is_none());
}

#[test]
fn node_info_updates_identity() {
    let mut store = Store::new(3600);
    let user = cat(&[
        f_len(1, b"!00000077"),
        f_len(2, "Base \u{1F600}".as_bytes()),
        f_len(3, b"BS"),
        f_varint(5, 43),
        f_varint(6, 1),
        f_varint(7, 2),
    ]);
    let p = Pkt { from: 0x77, to: 1, id: 3, rx_time: 5, port: 4, payload: user, gateway: "!g" };
    processed(process_service_envelope(&mut store, envelope(1, 1, &p), T0));
    assert_eq!(store.node_infos.len(), 1);
    assert_eq!(store.node_infos[0].user.long_name, "Base \u{1F600}");
    let id = store.nodes.get(&0x77).unwrap().identity.as_ref().unwrap();
    assert_eq!(id.value.short_name, "BS");
    assert_eq!(id.value.hw_model, 43);
    assert!(id.value.is_licensed);
    assert_eq!(id.value.role, 2);
    assert_eq!(id.record_id, Some(1));
}

#[test]
fn waypoint_icon_and_defaults() {
    let mut store = Store::new(3600);
    let wp = cat(&[
        f_varint(1, 12),
        f_fixed32(2, 10),
        f_fixed32(3, (-20i32) as u32),
        f_varint(4, 0),
        f_varint(5, 0x99),
        f_len(6, b"Camp"),
        f_len(7, b"tents"),
        f_fixed32(8, 0x1F3D5),
    ]);
    let p = Pkt { from: 0x78, to: 1, id: 3, rx_time: 5, port: 8, payload: wp, gateway: "!g" };
    processed(process_service_envelope(&mut store, envelope(1, 1, &p), T0));
    let w = &store.waypoints[0];
    assert_eq!(w.waypoint_id, 12);
    assert_eq!(w.longitude_i, Some(-20));
    assert_eq!(w.expire, None);
    assert_eq!(w.locked_to, Some(0x99));
    assert_eq!(w.name, "Camp");
    assert_eq!(w.icon, "\u{1F3D5}");
    assert!(store.nodes.get(&0x78).unwrap().position.is_none());
}

#[test]
fn waypoint_icon_zero_is_empty() {
    assert_eq!(meshstellar::store::icon_string(0), "");
    assert_eq!(meshstellar::store::icon_string(0xD800), "");
    assert_eq!(meshstellar::store::icon_string(0x41), "A");
}

#[test]
fn traceroute_and_routing_create_route_nodes() {
    let mut store = Store::new(3600);
    let route = cat(&[f_fixed32(1, 0x101), f_fixed32(1, 0), f_fixed32(1, 0x102)]);
    let p = Pkt { from: 0x79, to: 0x103, id: 3, rx_time: 5, port: 70, payload: route.clone(), gateway: "!g" };
    processed(process_service_envelope(&mut store, envelope(1, 1, &p), T0));
    for id in [0x79u32, 0x101, 0x102, 0x103] {
        assert!(store.nodes.contains_key(&id));
    }
    assert_eq!(store.nodes.len(), 4);
    let packed: Vec<u8> = [0x201u32, 0x202].iter().flat_map(|v| v.to_le_bytes()).collect();
    let routing = f_len(2, &f_len(1, &packed));
    let p2 = Pkt { from: 0x79, to: 0x203, id: 4, rx_time: 5, port: 5, payload: routing, gateway: "!g" };
    processed(process_service_envelope(&mut store, envelope(2, 2, &p2), T0));
    for id in [0x201u32, 0x202, 0x203] {
        assert!(store.nodes.contains_key(&id));
    }
    let empty = Pkt { from: 0x79, to: 0x204, id: 5, rx_time: 5, port: 5, payload: vec![], gateway: "!g" };
    let o = processed(process_service_envelope(&mut store, envelope(3, 3, &empty), T0));
    assert_eq!(o.payload, Some(PayloadOutcome::NoRoutingVariant));
    assert!(!store.nodes.contains_key(&0x204));
}

#[test]
fn malformed_payload_is_reported_and_packet_kept() {
    let mut store = Store::new(3600);
    let p = Pkt { from: 0x80, to: 1, id: 3, rx_time: 5, port: 3, payload: vec![0xFF], gateway: "!g" };
    let o = processed(process_service_envelope(&mut store, envelope(1, 1, &p), T0));
    assert_eq!(o.payload, Some(PayloadOutcome::Malformed));
    assert_eq!(store.mesh_packets.len(), 1);
    assert_eq!(store.positions.len(), 0);
}

#[test]
fn undecodable_envelope_records_nothing() {
    let mut store = Store::new(3600);
    let e = ServiceEnvelopeSelectResult { id: 1, hash: vec![1], payload_data: vec![0x0A, 0x05, 1], created_at: 0 };
    assert_eq!(process_service_envelope(&mut store, e, T0), Ok(ProcessOutcome::NotDecoded));
    let encrypted = cat(&[f_len(1, &cat(&[f_fixed32(1, 5), f_len(5, b"secret")]))]);
    let e2 = ServiceEnvelopeSelectResult { id: 2, hash: vec![2], payload_data: encrypted, created_at: 0 };
    assert_eq!(process_service_envelope(&mut store, e2, T0), Ok(ProcessOutcome::NotDecoded));
    assert_eq!(store.mesh_packets.len(), 0);
    assert_eq!(store.nodes.len(), 0);
}

#[test]
fn each_processed_envelope_adds_one_row() {
    let mut store = Store::new(3600);
    let p = Pkt { from: 0x90, to: 1, id: 3, rx_time: 5, port: 3, payload: position_payload(1, 2, 3, 4), gateway: "!g" };
    for (i, h) in [1u8, 1, 2, 3].iter().enumerate() {
        processed(process_service_envelope(&mut store, envelope(i as i64 + 1, *h, &p), T0 + i as i64));
        assert_eq!(store.mesh_packets.len(), i + 1);
        assert_eq!(store.mesh_packets[i].id, i as i64 + 1);
    }
    let s = store.stats();
    assert_eq!(s.num_packets, 4);
    assert_eq!(s.num_nodes, 1);
}

#[test]
fn queue_processes_oldest_first_and_marks_processed() {
    let mut store = Store::new(3600);
    let mut queue = EnvelopeQueue::new();
    let a = Pkt { from: 0x91, to: 1, id: 1, rx_time: 1000, port: 3, payload: position_payload(1, 1, 1, 1), gateway: "!a" };
    let b = Pkt { from: 0x91, to: 1, id: 2, rx_time: 2000, port: 3, payload: position_payload(2, 2, 2, 2), gateway: "!b" };
    assert_eq!(queue.stage(envelope_bytes(&b), 20), Ok(1));
    assert_eq!(queue.stage(envelope_bytes(&a), 10), Ok(2));
    assert_eq!(queue.envelopes[0].hash.len(), 32);
    assert_eq!(queue.unprocessed_in_order(), vec![1, 0]);
    assert_eq!(process_service_envelopes(&mut store, &mut queue, T0), Ok(2));
    assert_eq!(queue.processed_at, vec![Some(T0), Some(T0)]);
    assert_eq!(store.mesh_packets[0].gateway_id, "!a");
    assert_eq!(store.mesh_packets[1].gateway_id, "!b");
    assert_eq!(process_service_envelopes(&mut store, &mut queue, T0 + 1), Ok(0));
    assert_eq!(store.mesh_packets.len(), 2);
}

#[test]
fn staging_hashes_with_blake3() {
    let mut queue = EnvelopeQueue::new();
    queue.stage(Vec::new(), 1).unwrap();
    let hex: String = queue.envelopes[0].hash.iter().map(|b| format!("{:02x}", b)).collect();
    assert_eq!(hex, "af1349b9f5f9a1a6a0404dea36dcc9499bcb25c9adc112b7cc9a93cae41f3262");
    queue.stage_with_hash(vec![1], vec![9, 9], 2).unwrap();
    assert_eq!(queue.envelopes[1].hash, vec![9, 9]);
    assert_eq!(queue.envelopes[1].id, 2);
}

#[test]
fn neighbor_report_skips_the_reporter_itself() {
    let mut store = Store::new(3600);
    let info = cat(&[f_varint(1, 0x45), f_len(4, &neighbor(0x45, 1.0)), f_len(4, &neighbor(0x12, 2.0))]);
    let p = Pkt { from: 0x45, to: 0xFFFF_FFFF, id: 6, rx_time: 200, port: 71, payload: info, gateway: "!g" };
    processed(process_service_envelope(&mut store, envelope(1, 1, &p), T0));
    assert_eq!(store.neighbors.len(), 1);
    assert_eq!(store.neighbors[0].neighbor_node_id, 0x12);
}

#[test]
fn equal_creation_times_keep_staging_order() {
    let mut queue = EnvelopeQueue::new();
    queue.stage(vec![1], 5).unwrap();
    queue.stage(vec![2], 5).unwrap();
    queue.stage(vec![3], 4).unwrap();
    assert_eq!(queue.unprocessed_in_order(), vec![2, 0, 1]);
}

#[test]
fn new_node_rows_carry_their_bang_hex_id() {
    let mut store = Store::new(3600);
    store.create_nodes_if_not_exist(&vec![0x0a2b3c4d, 0, 0xFFFF_FFFF, 0x0a2b3c4d], 5);
    assert_eq!(store.nodes.len(), 1);
    let n = store.nodes.get(&0x0a2b3c4d).unwrap();
    assert_eq!(n.user_id, "!0a2b3c4d");
    assert!(n.radio.is_none());
    assert_eq!(n.created_at, 5);
    store.create_nodes_if_not_exist(&vec![0x0a2b3c4d], 9);
    assert_eq!(store.nodes.get(&0x0a2b3c4d).unwrap().created_at, 5);
}

#[test]
fn sender_row_of_a_duplicate_keeps_radio_figures() {
    let mut store = Store::new(3600);
    let p = Pkt { from: 0x92, to: 1, id: 3, rx_time: 7, port: 3, payload: position_payload(1, 2, 3, 4), gateway: "!g" };
    processed(process_service_envelope(&mut store, envelope(1, 1, &p), T0));
    store.nodes.clear();
    let o = processed(process_service_envelope(&mut store, envelope(2, 1, &p), T0));
    assert_eq!(o.status, DuplicateStatus::ExactRepeat);
    let n = store.nodes.get(&0x92).unwrap();
    assert_eq!(n.user_id, "!00000092");
    assert_eq!(n.radio.unwrap().observed_at, 7_000_000_000);
    assert!(n.position.is_none());
}

#[test]
fn envelopes_after_an_unknown_port_are_still_processed() {
    let mut store = Store::new(3600);
    let mut queue = EnvelopeQueue::new();
    let unknown = Pkt { from: 0x93, to: 1, id: 1, rx_time: 1, port: 9999, payload: vec![1], gateway: "!a" };
    let pos = Pkt { from: 0x94, to: 1, id: 2, rx_time: 1, port: 3, payload: position_payload(1, 2, 3, 4), gateway: "!b" };
    queue.stage(vec![0xFF], 1).unwrap();
    queue.stage(envelope_bytes(&unknown), 2).unwrap();
    queue.stage(envelope_bytes(&pos), 3).unwrap();
    assert_eq!(process_service_envelopes(&mut store, &mut queue, T0), Ok(3));
    assert_eq!(queue.processed_at, vec![Some(T0), Some(T0), Some(T0)]);
    assert_eq!(store.mesh_packets.len(), 2);
    assert_eq!(store.positions.len(), 1);
}
