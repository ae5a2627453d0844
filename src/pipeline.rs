//! The envelope loop: raw envelopes are staged with their content hash, then
//! processed oldest first, one at a time, each marked processed afterwards.
use crate::dto::{ServiceEnvelopeSelectResult, StatsSelectResult};
use crate::fields::{fields_of, oneof_choice};
use crate::proto::{
    decode_service_envelope, has_packet, mesh_packet_ok, packet_part, service_envelope_matches,
    service_envelope_ok, ServiceEnvelope,
};
use crate::store::{
    lemma_packet_processed_same_fields, packet_processed, PacketOutcome, Store, StoreError,
};
use vstd::prelude::*;

verus! {

/// What processing one envelope did.
#[derive(Clone, Copy, PartialEq, Eq, Debug)]
pub enum ProcessOutcome {
    /// The envelope holds no decoded mesh packet (malformed, empty or
    /// encrypted); nothing was recorded.
    NotDecoded,
    Packet(PacketOutcome),
}

/// The envelope decodes and carries a mesh packet with a decoded payload.
pub open spec fn envelope_carries_packet(buf: Seq<u8>) -> bool {
    &&& service_envelope_ok(buf)
    &&& has_packet(buf)
    &&& oneof_choice(fields_of(packet_part(buf)), 4, 5).0 == 4
}

/// Processing an envelope with these bytes and this content hash took the
/// store from `s0` to `s1`: a packet it carries was processed under that hash,
/// and an envelope without one left the store as it was.
pub open spec fn envelope_step(s0: Store, s1: Store, payload: Seq<u8>, hash: Seq<u8>, now: i64) -> bool {
    if envelope_carries_packet(payload) {
        exists|e: ServiceEnvelope, h: Vec<u8>, o: PacketOutcome|
            {
                &&& h@ == hash
                &&& service_envelope_matches(payload, e)
                &&& #[trigger] packet_processed(
                    &s0,
                    &s1,
                    e.gateway_id,
                    h,
                    e.packet->0,
                    e.packet->0.decoded->0,
                    now,
                    o,
                )
            }
    } else {
        s1 == s0
    }
}

/// Processes one staged envelope: decodes it and, when it carries a decoded
/// mesh packet, records the packet under the envelope's content hash.
pub fn process_service_envelope(
    store: &mut Store,
    service_envelope: ServiceEnvelopeSelectResult,
    now: i64,
) -> (r: Result<ProcessOutcome, StoreError>)
    requires
        old(store).wf(),
    ensures
        final(store).wf(),
        !envelope_carries_packet(service_envelope.payload_data@) ==> r == Ok::<
            ProcessOutcome,
            StoreError,
        >(ProcessOutcome::NotDecoded) && *final(store) == *old(store),
        envelope_carries_packet(service_envelope.payload_data@) ==> (r is Ok
            <==> old(store).spec_has_room()),
        r is Err ==> *final(store) == *old(store) && !old(store).spec_has_room()
            && envelope_carries_packet(service_envelope.payload_data@),
        r is Ok ==> envelope_step(
            *old(store),
            *final(store),
            service_envelope.payload_data@,
            service_envelope.hash@,
            now,
        ),
        r matches Ok(ProcessOutcome::Packet(o)) ==> exists|e: ServiceEnvelope|
            {
                &&& service_envelope_matches(service_envelope.payload_data@, e)
                &&& #[trigger] packet_processed(
                    old(store),
                    final(store),
                    e.gateway_id,
                    service_envelope.hash,
                    e.packet->0,
                    e.packet->0.decoded->0,
                    now,
                    o,
                )
            },
        r is Ok ==> final(store).mesh_packets@.len() == old(store).mesh_packets@.len() + (
        if envelope_carries_packet(service_envelope.payload_data@) {
            1int
        } else {
            0int
        }),
{
    let ServiceEnvelopeSelectResult { id: _, hash, payload_data, created_at: _ } = service_envelope;
    let e = match decode_service_envelope(payload_data.as_slice()) {
        Some(e) => e,
        None => return Ok(ProcessOutcome::NotDecoded),
    };
    let ghost e0 = e;
    let ServiceEnvelope { packet, channel_id: _, gateway_id } = e;
    let packet = match packet {
        Some(p) => p,
        None => return Ok(ProcessOutcome::NotDecoded),
    };
    let MeshPacketParts { packet, data } = split_packet(packet);
    let data = match data {
        Some(d) => d,
        None => return Ok(ProcessOutcome::NotDecoded),
    };
    proof {
        assert(mesh_packet_ok(packet_part(payload_data@)));
    }
    match store.process_mesh_packet(gateway_id, hash, &packet, data, now) {
        Ok(o) => {
            proof {
                lemma_packet_processed_same_fields(
                    old(store),
                    store,
                    e0.gateway_id,
                    hash,
                    packet,
                    e0.packet->0,
                    e0.packet->0.decoded->0,
                    now,
                    o,
                );
                assert(envelope_step(*old(store), *store, payload_data@, hash@, now));
            }
            Ok(ProcessOutcome::Packet(o))
        },
        Err(err) => Err(err),
    }
}

/// A packet with its decoded content taken out.
struct MeshPacketParts {
    packet: crate::proto::MeshPacket,
    data: Option<crate::proto::Data>,
}

fn split_packet(p: crate::proto::MeshPacket) -> (r: MeshPacketParts)
    ensures
        r.data == p.decoded,
        r.packet == (crate::proto::MeshPacket { decoded: None, ..p }),
{
    let crate::proto::MeshPacket {
        from,
        to,
        channel,
        decoded,
        id,
        rx_time,
        rx_snr,
        hop_limit,
        want_ack,
        priority,
        rx_rssi,
        hop_start,
    } = p;
    MeshPacketParts {
        packet: crate::proto::MeshPacket {
            from,
            to,
            channel,
            decoded: None,
            id,
            rx_time,
            rx_snr,
            hop_limit,
            want_ack,
            priority,
            rx_rssi,
            hop_start,
        },
        data: decoded,
    }
}

// ---------------------------------------------------------------- Staging

/// Names the BLAKE3 digest of a byte string.
pub uninterp spec fn blake3_digest(data: Seq<u8>) -> Seq<u8>;

/// Relies on `blake3::hash`: the 32-byte BLAKE3 digest of the input, which
/// depends on the input alone.
#[verifier::external_body]
fn content_hash(data: &[u8]) -> (r: Vec<u8>)
    ensures
        r@ == blake3_digest(data@),
        r@.len() == 32,
{
    blake3::hash(data).as_bytes().to_vec()
}

/// Raw envelopes as they arrived, each with the time it was processed.
#[derive(Debug)]
pub struct EnvelopeQueue {
    pub envelopes: Vec<ServiceEnvelopeSelectResult>,
    pub processed_at: Vec<Option<i64>>,
}

/// `a` is taken before `b`: created earlier, or at the same time and staged first.
pub open spec fn comes_before(q: Seq<ServiceEnvelopeSelectResult>, a: int, b: int) -> bool {
    q[a].created_at < q[b].created_at || (q[a].created_at == q[b].created_at && a < b)
}

impl EnvelopeQueue {
    pub open spec fn wf(&self) -> bool {
        &&& self.processed_at@.len() == self.envelopes@.len()
        &&& forall|i: int|
            0 <= i < self.envelopes@.len() ==> (#[trigger] self.envelopes@[i]).id == i + 1
    }

    pub fn new() -> (r: EnvelopeQueue)
        ensures
            r.wf(),
            r.envelopes@.len() == 0,
    {
        EnvelopeQueue { envelopes: Vec::new(), processed_at: Vec::new() }
    }

    /// Stages an envelope whose content hash is already known.
    pub fn stage_with_hash(&mut self, payload_data: Vec<u8>, hash: Vec<u8>, created_at: i64) -> (r:
        Result<i64, StoreError>)
        requires
            old(self).wf(),
        ensures
            final(self).wf(),
            r is Ok <==> old(self).envelopes@.len() < i64::MAX,
            r is Err ==> *final(self) == *old(self),
            r matches Ok(id) ==> {
                &&& id == old(self).envelopes@.len() + 1
                &&& final(self).envelopes@.drop_last() == old(self).envelopes@
                &&& final(self).envelopes@.len() == old(self).envelopes@.len() + 1
                &&& final(self).envelopes@.last() == (ServiceEnvelopeSelectResult {
                    id,
                    hash,
                    payload_data,
                    created_at,
                })
                &&& final(self).processed_at@ == old(self).processed_at@.push(None)
            },
    {
        if self.envelopes.len() as u64 >= 0x7FFF_FFFF_FFFF_FFFFu64 {
            return Err(StoreError::StoreFull);
        }
        let id = self.envelopes.len() as i64 + 1;
        let ghost q0 = self.envelopes@;
        self.envelopes.push(ServiceEnvelopeSelectResult { id, hash, payload_data, created_at });
        self.processed_at.push(None);
        proof {
            assert(self.envelopes@.drop_last() =~= q0);
            assert forall|i: int| 0 <= i < self.envelopes@.len() implies (
            #[trigger] self.envelopes@[i]).id == i + 1 by {
                if i < q0.len() {
                    assert(self.envelopes@[i] == q0[i]);
                }
            }
        }
        Ok(id)
    }

    /// Stages a raw envelope under the BLAKE3 digest of its bytes.
    pub fn stage(&mut self, payload_data: Vec<u8>, created_at: i64) -> (r: Result<i64, StoreError>)
        requires
            old(self).wf(),
        ensures
            final(self).wf(),
            r is Ok <==> old(self).envelopes@.len() < i64::MAX,
            r is Err ==> *final(self) == *old(self),
            r matches Ok(id) ==> {
                let e = final(self).envelopes@.last();
                &&& id == old(self).envelopes@.len() + 1
                &&& final(self).envelopes@.drop_last() == old(self).envelopes@
                &&& final(self).envelopes@.len() == old(self).envelopes@.len() + 1
                &&& e.id == id
                &&& e.hash@ == blake3_digest(payload_data@)
                &&& e.payload_data == payload_data
                &&& e.created_at == created_at
                &&& final(self).processed_at@ == old(self).processed_at@.push(None)
            },
    {
        let hash = content_hash(payload_data.as_slice());
        self.stage_with_hash(payload_data, hash, created_at)
    }

    /// The indices of the envelopes not yet processed, oldest first.
    pub fn unprocessed_in_order(&self) -> (r: Vec<usize>)
        requires
            self.wf(),
        ensures
            forall|x: int| 0 <= x < r@.len() ==> r@[x] < self.envelopes@.len(),
            forall|j: int|
                0 <= j < self.envelopes@.len() ==> (r@.contains(j as usize)
                    <==> self.processed_at@[j] is None),
            forall|x: int, y: int|
                0 <= x < y < r@.len() ==> comes_before(
                    self.envelopes@,
                    #[trigger] r@[x] as int,
                    #[trigger] r@[y] as int,
                ),
    {
        let q = &self.envelopes;
        let mut r: Vec<usize> = Vec::new();
        let mut i: usize = 0;
        while i < q.len()
            invariant
                q@ == self.envelopes@,
                self.wf(),
                i <= q@.len(),
                forall|x: int| 0 <= x < r@.len() ==> r@[x] < i,
                forall|j: int|
                    0 <= j < i ==> (r@.contains(j as usize) <==> self.processed_at@[j] is None),
                forall|x: int, y: int|
                    0 <= x < y < r@.len() ==> comes_before(
                        q@,
                        #[trigger] r@[x] as int,
                        #[trigger] r@[y] as int,
                    ),
            decreases q@.len() - i,
        {
            if self.processed_at[i].is_none() {
                let mut k: usize = 0;
                while k < r.len() && q[r[k]].created_at <= q[i].created_at
                    invariant
                        q@ == self.envelopes@,
                        i < q@.len(),
                        k <= r@.len(),
                        forall|x: int| 0 <= x < r@.len() ==> r@[x] < i,
                        forall|x: int|
                            0 <= x < k ==> q@[#[trigger] r@[x] as int].created_at <= q@[i as int].created_at,
                    decreases r@.len() - k,
                {
                    k = k + 1;
                }
                let ghost r0 = r@;
                r.insert(k, i);
                proof {
                    assert forall|x: int| 0 <= x < r@.len() implies r@[x] < i + 1 by {
                        if x < k {
                            assert(r@[x] == r0[x]);
                        } else if x > k {
                            assert(r@[x] == r0[x - 1]);
                        }
                    }
                    assert forall|j: int|
                        0 <= j < i + 1 implies (r@.contains(j as usize)
                            <==> self.processed_at@[j] is None) by {
                        if j < i {
                            if r0.contains(j as usize) {
                                let x = choose|x: int| 0 <= x < r0.len() && #[trigger] r0[x] == j as usize;
                                if x < k {
                                    assert(r@[x] == j as usize);
                                } else {
                                    assert(r@[x + 1] == j as usize);
                                }
                            }
                            if r@.contains(j as usize) {
                                let x = choose|x: int| 0 <= x < r@.len() && #[trigger] r@[x] == j as usize;
                                if x < k {
                                    assert(r0[x] == j as usize);
                                } else if x > k {
                                    assert(r0[x - 1] == j as usize);
                                }
                            }
                        } else {
                            assert(r@[k as int] == i);
                        }
                    }
                    assert forall|x: int, y: int|
                        0 <= x < y < r@.len() implies comes_before(
                        q@,
                        #[trigger] r@[x] as int,
                        #[trigger] r@[y] as int,
                    ) by {
                        if y < k {
                            assert(r@[x] == r0[x] && r@[y] == r0[y]);
                        } else if y == k {
                            assert(r@[x] == r0[x]);
                        } else if x == k {
                            assert(r@[y] == r0[y - 1]);
                            if y - 1 > k {
                                assert(comes_before(q@, r0[k as int] as int, r0[y - 1] as int));
                            }
                        } else if x < k {
                            assert(r@[x] == r0[x] && r@[y] == r0[y - 1]);
                        } else {
                            assert(r@[x] == r0[x - 1] && r@[y] == r0[y - 1]);
                        }
                    }
                }
            }
            i = i + 1;
        }
        r
    }
}

/// The indices of the unprocessed envelopes, each once, oldest first.
pub open spec fn processing_order(q: EnvelopeQueue, order: Seq<usize>) -> bool {
    &&& forall|x: int| 0 <= x < order.len() ==> (#[trigger] order[x]) < q.envelopes@.len()
    &&& forall|j: int|
        0 <= j < q.envelopes@.len() ==> (order.contains(j as usize) <==> q.processed_at@[j] is None)
    &&& forall|x: int, y: int|
        0 <= x < y < order.len() ==> comes_before(
            q.envelopes@,
            #[trigger] order[x] as int,
            #[trigger] order[y] as int,
        )
}

/// `trace` lists the stores that processing the first `k` envelopes of
/// `order` went through, one step per envelope.
pub open spec fn processed_in_turn(
    q: EnvelopeQueue,
    order: Seq<usize>,
    trace: Seq<Store>,
    k: int,
    now: i64,
) -> bool {
    &&& trace.len() == k + 1
    &&& forall|i: int|
        0 <= i < k ==> #[trigger] envelope_step(
            trace[i],
            trace[i + 1],
            q.envelopes@[order[i] as int].payload_data@,
            q.envelopes@[order[i] as int].hash@,
            now,
        )
}

/// The envelopes of `done` were stamped at `now`; nothing else in the queue changed.
pub open spec fn stamped(q0: EnvelopeQueue, q1: EnvelopeQueue, done: Seq<usize>, now: i64) -> bool {
    &&& q1.envelopes@ == q0.envelopes@
    &&& q1.processed_at@.len() == q0.processed_at@.len()
    &&& forall|j: int|
        0 <= j < q0.processed_at@.len() ==> #[trigger] q1.processed_at@[j] == (if done.contains(
            j as usize,
        ) {
            Some(now)
        } else {
            q0.processed_at@[j]
        })
}

/// Processes every envelope not yet processed, oldest first, and stamps each
/// at `now` once it is processed. The run stops only when a table runs out of
/// ids; the envelope it struck and those after it stay unprocessed.
pub fn process_service_envelopes(store: &mut Store, queue: &mut EnvelopeQueue, now: i64) -> (r:
    Result<usize, StoreError>)
    requires
        old(store).wf(),
        old(queue).wf(),
    ensures
        final(store).wf(),
        final(queue).wf(),
        r is Err ==> !final(store).spec_has_room(),
        exists|order: Seq<usize>, trace: Seq<Store>, k: int|
            {
                &&& processing_order(*old(queue), order)
                &&& 0 <= k <= order.len()
                &&& #[trigger] processed_in_turn(*old(queue), order, trace, k, now)
                &&& trace[0] == *old(store)
                &&& trace[k] == *final(store)
                &&& stamped(*old(queue), *final(queue), order.subrange(0, k), now)
                &&& (r is Ok <==> k == order.len())
                &&& (r matches Ok(n) ==> n == k)
                &&& (r is Err ==> envelope_carries_packet(
                    old(queue).envelopes@[order[k] as int].payload_data@,
                ))
            },
{
    let order = queue.unprocessed_in_order();
    let ghost q0 = *queue;
    let ghost s0 = *store;
    let ghost mut trace: Seq<Store> = seq![*store];
    let total = queue.processed_at.len();
    let mut n: usize = 0;
    proof {
        assert(order@.subrange(0, 0) =~= Seq::<usize>::empty());
    }
    while n < order.len()
        invariant
            store.wf(),
            queue.wf(),
            q0 == *old(queue),
            s0 == *old(store),
            q0.processed_at@.len() == q0.envelopes@.len(),
            q0.processed_at@.len() == total,
            processing_order(q0, order@),
            n <= order@.len(),
            processed_in_turn(q0, order@, trace, n as int, now),
            trace[0] == s0,
            trace[n as int] == *store,
            stamped(q0, *queue, order@.subrange(0, n as int), now),
        decreases order@.len() - n,
    {
        let idx = order[n];
        let src = &queue.envelopes[idx];
        let envelope = ServiceEnvelopeSelectResult {
            id: src.id,
            hash: vstd::slice::slice_to_vec(src.hash.as_slice()),
            payload_data: vstd::slice::slice_to_vec(src.payload_data.as_slice()),
            created_at: src.created_at,
        };
        let ghost before = *store;
        match process_service_envelope(store, envelope, now) {
            Ok(_) => {},
            Err(e) => {
                proof {
                    assert(processed_in_turn(q0, order@, trace, n as int, now));
                }
                return Err(e);
            },
        }
        let ghost old_trace = trace;
        proof {
            trace = trace.push(*store);
            assert forall|i: int| 0 <= i < n + 1 implies #[trigger] envelope_step(
                trace[i],
                trace[i + 1],
                q0.envelopes@[order@[i] as int].payload_data@,
                q0.envelopes@[order@[i] as int].hash@,
                now,
            ) by {
                if i < n {
                    assert(trace[i] == old_trace[i] && trace[i + 1] == old_trace[i + 1]);
                    assert(envelope_step(
                        old_trace[i],
                        old_trace[i + 1],
                        q0.envelopes@[order@[i] as int].payload_data@,
                        q0.envelopes@[order@[i] as int].hash@,
                        now,
                    ));
                }
            }
        }
        queue.processed_at.set(idx, Some(now));
        proof {
            assert forall|j: int| 0 <= j < q0.processed_at@.len() implies (
            #[trigger] queue.processed_at@[j] == (if order@.subrange(0, n + 1).contains(j as usize) {
                Some(now)
            } else {
                q0.processed_at@[j]
            })) by {
                if j == idx as int {
                    assert(order@.subrange(0, n + 1)[n as int] == idx);
                } else {
                    if order@.subrange(0, n + 1).contains(j as usize) {
                        let x = choose|x: int|
                            0 <= x < n + 1 && #[trigger] order@.subrange(0, n + 1)[x] == j as usize;
                        assert(order@.subrange(0, n + 1)[n as int] == idx);
                        assert((j as usize) != idx);
                        assert(x != n);
                        assert(order@.subrange(0, n as int)[x] == j as usize);
                    }
                    if order@.subrange(0, n as int).contains(j as usize) {
                        let x = choose|x: int|
                            0 <= x < n && #[trigger] order@.subrange(0, n as int)[x] == j as usize;
                        assert(order@.subrange(0, n + 1)[x] == j as usize);
                    }
                }
            }
        }
        n = n + 1;
    }
    Ok(n)
}

impl Store {
    /// How many packets and nodes are recorded (at most `i64::MAX` each).
    pub fn stats(&self) -> (r: StatsSelectResult)
        ensures
            r.num_packets == (if self.mesh_packets@.len() > i64::MAX {
                i64::MAX as int
            } else {
                self.mesh_packets@.len() as int
            }),
            r.num_nodes == (if self.nodes@.len() > i64::MAX {
                i64::MAX as int
            } else {
                self.nodes@.len() as int
            }),
    {
        let p = self.mesh_packets.len() as u64;
        let n = self.nodes.len() as u64;
        let max = 0x7FFF_FFFF_FFFF_FFFFu64;
        StatsSelectResult {
            num_packets: if p > max {
                i64::MAX
            } else {
                p as i64
            },
            num_nodes: if n > max {
                i64::MAX
            } else {
                n as i64
            },
        }
    }
}

} // verus!
