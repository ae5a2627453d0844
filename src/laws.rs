//! Properties that relate several calls, proved over the store's contracts.
use crate::proto::{Data, MeshPacket};
use crate::store::{
    classify, earliest_near, exact_repeat, near_match, packet_processed, untouched, with_position,
    sender_ensured, reconciled, may_replace, DuplicateStatus, Latest, MeshPacketRecord, NodeRecord,
    PositionFix, Store,
};
use vstd::prelude::*;

verus! {

proof fn lemma_earliest_near_is_earliest(
    rows: Seq<MeshPacketRecord>,
    unique_id: u32,
    payload: Seq<u8>,
    now: i64,
    window: i64,
)
    ensures
        match earliest_near(rows, unique_id, payload, now, window) {
            Some(i) => {
                &&& 0 <= i < rows.len()
                &&& near_match(rows[i], unique_id, payload, now, window)
                &&& forall|j: int|
                    0 <= j < rows.len() && near_match(#[trigger] rows[j], unique_id, payload, now, window)
                        ==> rows[i].created_at <= rows[j].created_at
            },
            None => forall|j: int|
                0 <= j < rows.len() ==> !near_match(#[trigger] rows[j], unique_id, payload, now, window),
        },
    decreases rows.len(),
{
    if rows.len() > 0 {
        let prefix = rows.drop_last();
        lemma_earliest_near_is_earliest(prefix, unique_id, payload, now, window);
        assert forall|j: int| 0 <= j < prefix.len() implies #[trigger] rows[j] == prefix[j] by {}
    }
}

/// A packet that repeats an earlier transmission (same non-zero packet id,
/// same payload bytes, an earlier row created within the window either side of
/// now) and is not an exact repeat refers back to the matching row created
/// first, so every later copy of a transmission points at the same row.
pub proof fn lemma_duplicate_refers_to_earliest(
    rows: Seq<MeshPacketRecord>,
    hash: Seq<u8>,
    unique_id: u32,
    payload: Seq<u8>,
    now: i64,
    window: i64,
    k: int,
)
    requires
        0 <= k < rows.len(),
        near_match(rows[k], unique_id, payload, now, window),
        !exact_repeat(rows, hash),
    ensures
        exists|i: int|
            {
                &&& 0 <= i < rows.len()
                &&& classify(rows, hash, unique_id, payload, now, window)
                    == DuplicateStatus::NearDuplicate(rows[i].id)
                &&& near_match(#[trigger] rows[i], unique_id, payload, now, window)
                &&& forall|j: int|
                    0 <= j < rows.len() && near_match(#[trigger] rows[j], unique_id, payload, now, window)
                        ==> rows[i].created_at <= rows[j].created_at
            },
{
    lemma_earliest_near_is_earliest(rows, unique_id, payload, now, window);
    let i = earliest_near(rows, unique_id, payload, now, window)->0;
    assert(near_match(rows[k], unique_id, payload, now, window));
}

/// An envelope whose content hash an earlier row with a packet id recorded
/// gets a row marked as an exact repeat, never a novel one, and its payload
/// is not processed: besides the new row, only the sender's node row may have
/// been created.
pub proof fn lemma_exact_repeat_rejected(
    s0: &Store,
    s1: &Store,
    gateway_id: String,
    hash: Vec<u8>,
    p: MeshPacket,
    d: Data,
    now: i64,
    o: crate::store::PacketOutcome,
)
    requires
        packet_processed(s0, s1, gateway_id, hash, p, d, now, o),
        exact_repeat(s0.mesh_packets@, hash@),
    ensures
        o.status == DuplicateStatus::ExactRepeat,
        s1.mesh_packets@.last().status == DuplicateStatus::ExactRepeat,
        s1.mesh_packets@.last().hash == hash,
        exists|nodes1: Map<u32, NodeRecord>|
            #[trigger] sender_ensured(s0.nodes@, nodes1, p, now) && untouched(s0, nodes1, s1),
        o.payload is None,
{
    reveal(packet_processed);
}

/// Attribute groups never go back in time: of two updates received at `t1 <
/// t2`, applied in either order, the node keeps the one received at `t2`
/// (unless it already held a later one).
pub proof fn lemma_position_never_regresses(
    m: Map<u32, NodeRecord>,
    id: u32,
    g1: Latest<PositionFix>,
    g2: Latest<PositionFix>,
)
    requires
        m.contains_key(id),
        g1.observed_at < g2.observed_at,
        may_replace(m[id].position, g2.observed_at),
    ensures
        with_position(with_position(m, id, g1), id, g2)[id].position == Some(g2),
        with_position(with_position(m, id, g2), id, g1)[id].position == Some(g2),
{
}

/// The same for any attribute group: the later of two updates wins in either order.
pub proof fn lemma_reconcile_order_independent<T>(
    current: Option<Latest<T>>,
    a: Latest<T>,
    b: Latest<T>,
)
    requires
        a.observed_at < b.observed_at,
        may_replace(current, b.observed_at),
    ensures
        reconciled(reconciled(current, a), b) == Some(b),
        reconciled(reconciled(current, b), a) == Some(b),
{
}

} // verus!
