//! The relational record the pipeline keeps: one row per mesh packet as a
//! gateway relayed it, one row per node holding its latest known state, and the
//! typed payload tables.
//!
//! Row identifiers count from 1 in insertion order. Times are nanoseconds
//! since the epoch.
use crate::fields::{fields_of, fixed_u32, len_ranges, opt_sfixed32, repeated_fixed32, varint_u32};
use crate::proto::{
    decode_neighbor_info, decode_position, decode_route_discovery, decode_routing,
    decode_telemetry, decode_user, decode_waypoint, neighbor_info_ok, neighbor_of, neighbor_part,
    position_of, route_discovery_ok, routing_ok, routing_part, string_of, telemetry_of, user_matches,
    user_ok, waypoint_ok, DeviceMetrics, EnvironmentMetrics, Neighbor, PowerMetrics, Position,
    RoutingVariant, TelemetryVariant, User,
};
use crate::proto::{Data, MeshPacket};
use crate::util::{format_node_id, node_user_id, none_if_default};
use std::collections::HashMap;
use vstd::prelude::*;

verus! {

broadcast use vstd::std_specs::hash::group_hash_axioms;

/// The destination that means "every node"; never a node of its own.
pub const BROADCAST_ID: u32 = 0xFFFF_FFFF;

pub const NANOS_PER_SECOND: i64 = 1_000_000_000;

/// Ids 0 and all-ones never name a real node.
pub open spec fn is_node_id(id: u32) -> bool {
    id != 0 && id != BROADCAST_ID
}

pub fn node_id_is_real(id: u32) -> (r: bool)
    ensures
        r == is_node_id(id),
{
    id != 0 && id != BROADCAST_ID
}

/// Seconds on the wire, nanoseconds in the store.
pub open spec fn nanos(secs: u32) -> i64 {
    (secs as int * NANOS_PER_SECOND) as i64
}

pub fn to_nanos(secs: u32) -> (r: i64)
    ensures
        r == nanos(secs),
{
    (secs as i64) * NANOS_PER_SECOND
}

/// How the duplicate check judged a packet.
#[derive(Clone, Copy, PartialEq, Eq, Debug)]
pub enum DuplicateStatus {
    /// Seen for the first time: its payload is processed.
    Novel,
    /// The same transmission relayed again; holds the id of the earliest row of it.
    NearDuplicate(i64),
    /// An envelope whose content hash was already recorded.
    ExactRepeat,
}

/// One packet as one gateway relayed it.
#[derive(Debug)]
pub struct MeshPacketRecord {
    pub id: i64,
    pub gateway_id: String,
    pub from_id: u32,
    pub to_id: u32,
    pub channel: u32,
    /// The identifier the sending device gave the packet; 0 for none.
    pub unique_id: u32,
    pub portnum: i32,
    pub payload_data: Vec<u8>,
    pub rx_time: i64,
    /// `float` bits.
    pub rx_snr: u32,
    pub rx_rssi: i32,
    pub hop_start: u32,
    pub hop_limit: u32,
    pub want_ack: bool,
    pub want_response: bool,
    pub source: Option<i64>,
    pub dest: Option<i64>,
    pub request_id: Option<i64>,
    pub reply_id: Option<i64>,
    pub emoji: Option<i64>,
    pub priority: i32,
    /// Content hash of the envelope the packet came in.
    pub hash: Vec<u8>,
    pub status: DuplicateStatus,
    pub created_at: i64,
}

impl MeshPacketRecord {
    /// How many hops the packet took: the hops it started with less those left,
    /// known only when it started with some and has no more left than that.
    pub open spec fn spec_hop_count(&self) -> Option<u32> {
        if self.hop_start != 0 && self.hop_start >= self.hop_limit {
            Some((self.hop_start - self.hop_limit) as u32)
        } else {
            None
        }
    }

    pub fn hop_count(&self) -> (r: Option<u32>)
        ensures
            r == self.spec_hop_count(),
    {
        if self.hop_start != 0 && self.hop_start >= self.hop_limit {
            Some(self.hop_start - self.hop_limit)
        } else {
            None
        }
    }

    /// The earlier row this one repeats, if it is a near-duplicate.
    pub open spec fn spec_duplicate_of(&self) -> Option<i64> {
        match self.status {
            DuplicateStatus::NearDuplicate(id) => Some(id),
            _ => None,
        }
    }

    pub fn duplicate_of(&self) -> (r: Option<i64>)
        ensures
            r == self.spec_duplicate_of(),
    {
        match self.status {
            DuplicateStatus::NearDuplicate(id) => Some(id),
            _ => None,
        }
    }
}

/// A group of node attributes with the receive time of the packet they came
/// from and, where they were stored as a row, that row's id.
#[derive(Clone, Copy, PartialEq, Eq, Debug)]
pub struct Latest<T> {
    pub observed_at: i64,
    pub record_id: Option<i64>,
    pub value: T,
}

/// An incoming group may overwrite the stored one when none is stored or the
/// stored one was not received later.
pub open spec fn may_replace<T>(current: Option<Latest<T>>, observed_at: i64) -> bool {
    match current {
        None => true,
        Some(c) => c.observed_at <= observed_at,
    }
}

pub open spec fn reconciled<T>(current: Option<Latest<T>>, incoming: Latest<T>) -> Option<
    Latest<T>,
> {
    if may_replace(current, incoming.observed_at) {
        Some(incoming)
    } else {
        current
    }
}

/// Compare-and-swap on one attribute group: keeps whichever was received later.
pub fn reconcile<T>(slot: &mut Option<Latest<T>>, incoming: Latest<T>)
    ensures
        *final(slot) == reconciled(*old(slot), incoming),
{
    let replace = match slot {
        None => true,
        Some(c) => c.observed_at <= incoming.observed_at,
    };
    if replace {
        *slot = Some(incoming);
    }
}

#[derive(Clone, Copy, PartialEq, Eq, Debug)]
pub struct RadioStats {
    /// `float` bits.
    pub rx_snr: u32,
    pub rx_rssi: i32,
    pub hop_start: u32,
    pub hop_limit: u32,
}

#[derive(Clone, Copy, PartialEq, Eq, Debug)]
pub struct PositionFix {
    pub latitude_i: i32,
    pub longitude_i: i32,
    pub altitude: Option<i32>,
}

#[derive(Debug)]
pub struct Identity {
    pub user_id: String,
    pub long_name: String,
    pub short_name: String,
    pub hw_model: i32,
    pub is_licensed: bool,
    pub role: i32,
}

/// The latest known state of one node, by attribute group.
#[derive(Debug)]
pub struct NodeRecord {
    pub node_id: u32,
    /// The node id as shown to people: `!` and eight lowercase hex digits.
    pub user_id: String,
    pub radio: Option<Latest<RadioStats>>,
    pub identity: Option<Latest<Identity>>,
    pub position: Option<Latest<PositionFix>>,
    pub device_metrics: Option<Latest<DeviceMetrics>>,
    pub environment_metrics: Option<Latest<EnvironmentMetrics>>,
    pub created_at: i64,
    pub updated_at: i64,
}

/// The row a node gets on first sighting: its id in both forms, the radio
/// figures it was first heard with (if any), and no other group.
pub open spec fn is_stub(n: NodeRecord, id: u32, radio: Option<Latest<RadioStats>>, now: i64) -> bool {
    &&& n.node_id == id
    &&& n.user_id@ == node_user_id(id)
    &&& n.radio == radio
    &&& n.identity is None
    &&& n.position is None
    &&& n.device_metrics is None
    &&& n.environment_metrics is None
    &&& n.created_at == now
    &&& n.updated_at == now
}

#[derive(Clone, Copy, PartialEq, Eq, Debug)]
pub struct PositionRecord {
    pub id: i64,
    pub mesh_packet_id: i64,
    pub node_id: u32,
    pub time: i64,
    pub timestamp: Option<i64>,
    pub position: Position,
}

#[derive(Clone, Copy, PartialEq, Eq, Debug)]
pub struct DeviceMetricsRecord {
    pub id: i64,
    pub mesh_packet_id: i64,
    pub node_id: u32,
    pub time: Option<i64>,
    pub metrics: DeviceMetrics,
}

#[derive(Clone, Copy, PartialEq, Eq, Debug)]
pub struct EnvironmentMetricsRecord {
    pub id: i64,
    pub mesh_packet_id: i64,
    pub node_id: u32,
    pub time: Option<i64>,
    pub metrics: EnvironmentMetrics,
}

#[derive(Clone, Copy, PartialEq, Eq, Debug)]
pub struct PowerMetricsRecord {
    pub mesh_packet_id: i64,
    pub node_id: u32,
    pub time: Option<i64>,
    pub metrics: PowerMetrics,
}

#[derive(Debug)]
pub struct NodeInfoRecord {
    pub id: i64,
    pub mesh_packet_id: i64,
    pub node_id: u32,
    pub user: User,
}

/// An edge: `node_id` reported hearing `neighbor_node_id`.
#[derive(Clone, Copy, PartialEq, Eq, Debug)]
pub struct NeighborRecord {
    pub mesh_packet_id: i64,
    pub node_id: u32,
    pub neighbor_node_id: u32,
    /// `float` bits.
    pub snr: u32,
    pub timestamp: i64,
}

#[derive(Debug)]
pub struct WaypointRecord {
    pub mesh_packet_id: i64,
    pub node_id: u32,
    pub waypoint_id: u32,
    pub latitude_i: Option<i32>,
    pub longitude_i: Option<i32>,
    pub expire: Option<i64>,
    pub locked_to: Option<i64>,
    pub name: String,
    pub description: String,
    /// One character, or empty.
    pub icon: String,
}

/// The tables. Fields are public to read; they change only through the
/// methods, which keep `wf`.
#[derive(Debug)]
pub struct Store {
    /// How far, in nanoseconds either side of the processing time, an earlier
    /// row may lie to count as the same transmission.
    pub duplicate_window: i64,
    pub mesh_packets: Vec<MeshPacketRecord>,
    pub nodes: HashMap<u32, NodeRecord>,
    pub positions: Vec<PositionRecord>,
    pub device_metrics: Vec<DeviceMetricsRecord>,
    pub environment_metrics: Vec<EnvironmentMetricsRecord>,
    pub power_metrics: Vec<PowerMetricsRecord>,
    pub node_infos: Vec<NodeInfoRecord>,
    pub neighbors: Vec<NeighborRecord>,
    pub waypoints: Vec<WaypointRecord>,
}

/// No content hash that an earlier row with a packet id recorded comes back as
/// a novel row.
pub open spec fn hashes_not_renewed(rows: Seq<MeshPacketRecord>) -> bool {
    forall|i: int, j: int|
        0 <= i < j < rows.len() && (#[trigger] rows[i]).hash@ == (#[trigger] rows[j]).hash@
            && rows[i].unique_id != 0 ==> rows[j].status == DuplicateStatus::ExactRepeat
}

impl Store {
    pub open spec fn wf(&self) -> bool {
        &&& self.duplicate_window >= 0
        &&& forall|i: int|
            0 <= i < self.mesh_packets@.len() ==> (#[trigger] self.mesh_packets@[i]).id == i + 1
        &&& forall|i: int|
            0 <= i < self.positions@.len() ==> (#[trigger] self.positions@[i]).id == i + 1
        &&& forall|i: int|
            0 <= i < self.device_metrics@.len() ==> (#[trigger] self.device_metrics@[i]).id == i + 1
        &&& forall|i: int|
            0 <= i < self.environment_metrics@.len() ==> (
            #[trigger] self.environment_metrics@[i]).id == i + 1
        &&& forall|i: int|
            0 <= i < self.node_infos@.len() ==> (#[trigger] self.node_infos@[i]).id == i + 1
        &&& forall|k: u32|
            #[trigger] self.nodes@.contains_key(k) ==> self.nodes@[k].node_id == k && is_node_id(k)
        &&& hashes_not_renewed(self.mesh_packets@)
    }

    /// Each table that hands out ids can take one more row.
    pub open spec fn spec_has_room(&self) -> bool {
        &&& self.mesh_packets@.len() < i64::MAX
        &&& self.positions@.len() < i64::MAX
        &&& self.device_metrics@.len() < i64::MAX
        &&& self.environment_metrics@.len() < i64::MAX
        &&& self.node_infos@.len() < i64::MAX
    }

    pub fn has_room(&self) -> (r: bool)
        ensures
            r == self.spec_has_room(),
    {
        let max = 0x7FFF_FFFF_FFFF_FFFFu64;
        (self.mesh_packets.len() as u64) < max && (self.positions.len() as u64) < max
            && (self.device_metrics.len() as u64) < max && (self.environment_metrics.len() as u64)
            < max && (self.node_infos.len() as u64) < max
    }

    /// An empty store whose duplicate window is `duplicate_window_secs` seconds.
    pub fn new(duplicate_window_secs: u32) -> (r: Store)
        ensures
            r.wf(),
            r.duplicate_window == nanos(duplicate_window_secs),
            r.mesh_packets@.len() == 0,
            r.nodes@.len() == 0,
            r.positions@.len() == 0,
            r.device_metrics@.len() == 0,
            r.environment_metrics@.len() == 0,
            r.power_metrics@.len() == 0,
            r.node_infos@.len() == 0,
            r.neighbors@.len() == 0,
            r.waypoints@.len() == 0,
    {
        Store {
            duplicate_window: to_nanos(duplicate_window_secs),
            mesh_packets: Vec::new(),
            nodes: HashMap::new(),
            positions: Vec::new(),
            device_metrics: Vec::new(),
            environment_metrics: Vec::new(),
            power_metrics: Vec::new(),
            node_infos: Vec::new(),
            neighbors: Vec::new(),
            waypoints: Vec::new(),
        }
    }
}

// ---------------------------------------------------------------- Nodes

/// `new` is `old` with a stub row for each real id of `ids` that had none:
/// rows that existed are kept as they were, and no other row appears.
pub open spec fn nodes_ensured(
    old: Map<u32, NodeRecord>,
    new: Map<u32, NodeRecord>,
    ids: Seq<u32>,
    radio: Option<Latest<RadioStats>>,
    now: i64,
) -> bool {
    &&& forall|k: u32|
        #[trigger] new.contains_key(k) <==> (old.contains_key(k) || (is_node_id(k) && ids.contains(k)))
    &&& forall|k: u32| #[trigger] old.contains_key(k) ==> new[k] == old[k]
    &&& forall|k: u32|
        #[trigger] new.contains_key(k) && !old.contains_key(k) ==> is_stub(new[k], k, radio, now)
}

proof fn lemma_nodes_ensured_none(m: Map<u32, NodeRecord>, radio: Option<Latest<RadioStats>>, now: i64)
    ensures
        nodes_ensured(m, m, Seq::empty(), radio, now),
{
}

proof fn lemma_nodes_ensured_push(
    a: Map<u32, NodeRecord>,
    b: Map<u32, NodeRecord>,
    c: Map<u32, NodeRecord>,
    ids: Seq<u32>,
    x: u32,
    radio: Option<Latest<RadioStats>>,
    now: i64,
)
    requires
        nodes_ensured(a, b, ids, radio, now),
        nodes_ensured(b, c, seq![x], radio, now),
    ensures
        nodes_ensured(a, c, ids.push(x), radio, now),
{
    assert forall|k: u32| #[trigger] c.contains_key(k) <==> (a.contains_key(k) || (is_node_id(k)
        && ids.push(x).contains(k))) by {
        if ids.push(x).contains(k) {
            let i = choose|i: int| 0 <= i < ids.push(x).len() && ids.push(x)[i] == k;
            if i < ids.len() {
                assert(ids[i] == k);
            }
        }
        if ids.contains(k) {
            let i = choose|i: int| 0 <= i < ids.len() && ids[i] == k;
            assert(ids.push(x)[i] == k);
        }
        if k == x {
            assert(ids.push(x)[ids.len() as int] == k);
        }
        if seq![x].contains(k) {
            let i = choose|i: int| 0 <= i < 1 && seq![x][i] == k;
        }
        if k == x {
            assert(seq![x][0] == k);
        }
    }
    assert forall|k: u32| #[trigger] a.contains_key(k) implies c[k] == a[k] by {
        assert(b.contains_key(k));
    }
    assert forall|k: u32| #[trigger] c.contains_key(k) && !a.contains_key(k) implies is_stub(
        c[k],
        k,
        radio,
        now,
    ) by {
        if b.contains_key(k) {
            assert(c[k] == b[k]);
        }
    }
}

/// Making sure the same ids have rows a second time changes nothing.
pub proof fn lemma_ensure_twice_changes_nothing(
    old: Map<u32, NodeRecord>,
    mid: Map<u32, NodeRecord>,
    new: Map<u32, NodeRecord>,
    ids: Seq<u32>,
    radio: Option<Latest<RadioStats>>,
    radio2: Option<Latest<RadioStats>>,
    now: i64,
    now2: i64,
)
    requires
        nodes_ensured(old, mid, ids, radio, now),
        nodes_ensured(mid, new, ids, radio2, now2),
    ensures
        new == mid,
{
    assert(new =~= mid);
}

pub open spec fn with_radio(m: Map<u32, NodeRecord>, id: u32, g: Latest<RadioStats>, now: i64) -> Map<
    u32,
    NodeRecord,
> {
    if m.contains_key(id) && may_replace(m[id].radio, g.observed_at) {
        m.insert(id, NodeRecord { radio: Some(g), updated_at: now, ..m[id] })
    } else {
        m
    }
}

pub open spec fn with_identity(m: Map<u32, NodeRecord>, id: u32, g: Latest<Identity>) -> Map<
    u32,
    NodeRecord,
> {
    if m.contains_key(id) {
        m.insert(id, NodeRecord { identity: reconciled(m[id].identity, g), ..m[id] })
    } else {
        m
    }
}

pub open spec fn with_position(m: Map<u32, NodeRecord>, id: u32, g: Latest<PositionFix>) -> Map<
    u32,
    NodeRecord,
> {
    if m.contains_key(id) {
        m.insert(id, NodeRecord { position: reconciled(m[id].position, g), ..m[id] })
    } else {
        m
    }
}

pub open spec fn with_device_metrics(
    m: Map<u32, NodeRecord>,
    id: u32,
    g: Latest<DeviceMetrics>,
) -> Map<u32, NodeRecord> {
    if m.contains_key(id) {
        m.insert(id, NodeRecord { device_metrics: reconciled(m[id].device_metrics, g), ..m[id] })
    } else {
        m
    }
}

pub open spec fn with_environment_metrics(
    m: Map<u32, NodeRecord>,
    id: u32,
    g: Latest<EnvironmentMetrics>,
) -> Map<u32, NodeRecord> {
    if m.contains_key(id) {
        m.insert(
            id,
            NodeRecord { environment_metrics: reconciled(m[id].environment_metrics, g), ..m[id] },
        )
    } else {
        m
    }
}

/// The typed tables are as in `a`, except the one `changed` names.
pub open spec fn tables_kept(a: &Store, b: &Store, changed: Table) -> bool {
    &&& b.duplicate_window == a.duplicate_window
    &&& changed != Table::Positions ==> b.positions@ == a.positions@
    &&& changed != Table::DeviceMetrics ==> b.device_metrics@ == a.device_metrics@
    &&& changed != Table::EnvironmentMetrics ==> b.environment_metrics@ == a.environment_metrics@
    &&& changed != Table::PowerMetrics ==> b.power_metrics@ == a.power_metrics@
    &&& changed != Table::NodeInfos ==> b.node_infos@ == a.node_infos@
    &&& changed != Table::Neighbors ==> b.neighbors@ == a.neighbors@
    &&& changed != Table::Waypoints ==> b.waypoints@ == a.waypoints@
}

/// The typed payload tables.
#[derive(Clone, Copy, PartialEq, Eq, Debug)]
pub enum Table {
    NoTable,
    Positions,
    DeviceMetrics,
    EnvironmentMetrics,
    PowerMetrics,
    NodeInfos,
    Neighbors,
    Waypoints,
}

proof fn lemma_wf_nodes_insert(s: &Store, t: &Store, id: u32, n: NodeRecord)
    requires
        s.wf(),
        t.mesh_packets@ == s.mesh_packets@,
        tables_kept(s, t, Table::NoTable),
        t.nodes@ == s.nodes@.insert(id, n),
        n.node_id == id,
        is_node_id(id),
    ensures
        t.wf(),
{
}

impl Store {
    /// Gives `id` a stub row, holding `radio` as its radio figures, unless it
    /// has a row or is not a real node id.
    pub fn ensure_node_exists(&mut self, id: u32, radio: Option<Latest<RadioStats>>, now: i64)
        requires
            old(self).wf(),
        ensures
            final(self).wf(),
            final(self).mesh_packets@ == old(self).mesh_packets@,
            tables_kept(old(self), final(self), Table::NoTable),
            nodes_ensured(old(self).nodes@, final(self).nodes@, seq![id], radio, now),
    {
        proof {
            assert(seq![id][0] == id);
            assert forall|k: u32| seq![id].contains(k) implies k == id by {
                let i = choose|i: int| 0 <= i < 1 && seq![id][i] == k;
            }
        }
        if node_id_is_real(id) && !self.nodes.contains_key(&id) {
            let n = NodeRecord {
                node_id: id,
                user_id: format_node_id(id),
                radio,
                identity: None,
                position: None,
                device_metrics: None,
                environment_metrics: None,
                created_at: now,
                updated_at: now,
            };
            let ghost s0 = *self;
            self.nodes.insert(id, n);
            proof {
                lemma_wf_nodes_insert(&s0, self, id, n);
            }
        }
    }

    /// Makes sure each id in turn has a row.
    pub fn create_nodes_if_not_exist(&mut self, node_ids: &Vec<u32>, now: i64)
        requires
            old(self).wf(),
        ensures
            final(self).wf(),
            final(self).mesh_packets@ == old(self).mesh_packets@,
            tables_kept(old(self), final(self), Table::NoTable),
            nodes_ensured(old(self).nodes@, final(self).nodes@, node_ids@, None, now),
    {
        proof {
            lemma_nodes_ensured_none(self.nodes@, None, now);
            assert(node_ids@.subrange(0, 0) =~= Seq::<u32>::empty());
        }
        let mut i: usize = 0;
        while i < node_ids.len()
            invariant
                self.wf(),
                i <= node_ids@.len(),
                self.mesh_packets@ == old(self).mesh_packets@,
                tables_kept(old(self), self, Table::NoTable),
                nodes_ensured(
                    old(self).nodes@,
                    self.nodes@,
                    node_ids@.subrange(0, i as int),
                    None,
                    now,
                ),
            decreases node_ids@.len() - i,
        {
            proof {
                assert(node_ids@.subrange(0, i + 1) =~= node_ids@.subrange(0, i as int).push(
                    node_ids@[i as int],
                ));
            }
            let ghost before = self.nodes@;
            self.ensure_node_exists(node_ids[i], None, now);
            proof {
                lemma_nodes_ensured_push(
                    old(self).nodes@,
                    before,
                    self.nodes@,
                    node_ids@.subrange(0, i as int),
                    node_ids@[i as int],
                    None,
                    now,
                );
            }
            i = i + 1;
        }
        proof {
            assert(node_ids@.subrange(0, i as int) =~= node_ids@);
        }
    }

    /// Takes a node's row out to change it; the caller puts it back.
    fn take_node(&mut self, id: u32) -> (r: Option<NodeRecord>)
        ensures
            final(self).nodes@ == old(self).nodes@.remove(id),
            r == (if old(self).nodes@.contains_key(id) {
                Some(old(self).nodes@[id])
            } else {
                None
            }),
            final(self).mesh_packets@ == old(self).mesh_packets@,
            tables_kept(old(self), final(self), Table::NoTable),
    {
        self.nodes.remove(&id)
    }

    /// Updates the last-seen radio figures of node `id` unless newer ones are stored.
    pub fn update_radio(&mut self, id: u32, g: Latest<RadioStats>, now: i64)
        requires
            old(self).wf(),
        ensures
            final(self).wf(),
            final(self).mesh_packets@ == old(self).mesh_packets@,
            tables_kept(old(self), final(self), Table::NoTable),
            final(self).nodes@ == with_radio(old(self).nodes@, id, g, now),
    {
        let ghost s0 = *self;
        match self.take_node(id) {
            Some(mut n) => {
                let replace = match n.radio {
                    None => true,
                    Some(c) => c.observed_at <= g.observed_at,
                };
                if replace {
                    n.radio = Some(g);
                    n.updated_at = now;
                }
                self.nodes.insert(id, n);
                proof {
                    assert(self.nodes@ =~= s0.nodes@.insert(id, n));
                    assert(self.nodes@ =~= with_radio(s0.nodes@, id, g, now));
                    lemma_wf_nodes_insert(&s0, self, id, n);
                }
            },
            None => {
                proof {
                    assert(self.nodes@ =~= s0.nodes@);
                }
            },
        }
    }

    /// Updates the identity group of node `id` unless a later one is stored.
    pub fn update_identity(&mut self, id: u32, g: Latest<Identity>)
        requires
            old(self).wf(),
        ensures
            final(self).wf(),
            final(self).mesh_packets@ == old(self).mesh_packets@,
            tables_kept(old(self), final(self), Table::NoTable),
            final(self).nodes@ == with_identity(old(self).nodes@, id, g),
    {
        let ghost s0 = *self;
        match self.take_node(id) {
            Some(mut n) => {
                reconcile(&mut n.identity, g);
                self.nodes.insert(id, n);
                proof {
                    assert(self.nodes@ =~= with_identity(s0.nodes@, id, g));
                    lemma_wf_nodes_insert(&s0, self, id, n);
                }
            },
            None => {
                proof {
                    assert(self.nodes@ =~= s0.nodes@);
                }
            },
        }
    }

    /// Updates the position group of node `id` unless a later one is stored.
    pub fn update_position(&mut self, id: u32, g: Latest<PositionFix>)
        requires
            old(self).wf(),
        ensures
            final(self).wf(),
            final(self).mesh_packets@ == old(self).mesh_packets@,
            tables_kept(old(self), final(self), Table::NoTable),
            final(self).nodes@ == with_position(old(self).nodes@, id, g),
    {
        let ghost s0 = *self;
        match self.take_node(id) {
            Some(mut n) => {
                reconcile(&mut n.position, g);
                self.nodes.insert(id, n);
                proof {
                    assert(self.nodes@ =~= with_position(s0.nodes@, id, g));
                    lemma_wf_nodes_insert(&s0, self, id, n);
                }
            },
            None => {
                proof {
                    assert(self.nodes@ =~= s0.nodes@);
                }
            },
        }
    }

    /// Updates the device-metrics group of node `id` unless a later one is stored.
    pub fn update_device_metrics(&mut self, id: u32, g: Latest<DeviceMetrics>)
        requires
            old(self).wf(),
        ensures
            final(self).wf(),
            final(self).mesh_packets@ == old(self).mesh_packets@,
            tables_kept(old(self), final(self), Table::NoTable),
            final(self).nodes@ == with_device_metrics(old(self).nodes@, id, g),
    {
        let ghost s0 = *self;
        match self.take_node(id) {
            Some(mut n) => {
                reconcile(&mut n.device_metrics, g);
                self.nodes.insert(id, n);
                proof {
                    assert(self.nodes@ =~= with_device_metrics(s0.nodes@, id, g));
                    lemma_wf_nodes_insert(&s0, self, id, n);
                }
            },
            None => {
                proof {
                    assert(self.nodes@ =~= s0.nodes@);
                }
            },
        }
    }

    /// Updates the environment-metrics group of node `id` unless a later one is stored.
    pub fn update_environment_metrics(&mut self, id: u32, g: Latest<EnvironmentMetrics>)
        requires
            old(self).wf(),
        ensures
            final(self).wf(),
            final(self).mesh_packets@ == old(self).mesh_packets@,
            tables_kept(old(self), final(self), Table::NoTable),
            final(self).nodes@ == with_environment_metrics(old(self).nodes@, id, g),
    {
        let ghost s0 = *self;
        match self.take_node(id) {
            Some(mut n) => {
                reconcile(&mut n.environment_metrics, g);
                self.nodes.insert(id, n);
                proof {
                    assert(self.nodes@ =~= with_environment_metrics(s0.nodes@, id, g));
                    lemma_wf_nodes_insert(&s0, self, id, n);
                }
            },
            None => {
                proof {
                    assert(self.nodes@ =~= s0.nodes@);
                }
            },
        }
    }
}

// ---------------------------------------------------------------- Duplicates

/// An earlier row is the same transmission: the packet has an id, the row has
/// the same id and the same payload bytes, and it was created within the window
/// either side of `now`.
pub open spec fn near_match(
    r: MeshPacketRecord,
    unique_id: u32,
    payload: Seq<u8>,
    now: i64,
    window: i64,
) -> bool {
    &&& unique_id != 0
    &&& r.unique_id == unique_id
    &&& r.payload_data@ == payload
    &&& now - window <= r.created_at <= now + window
}

/// The index of the matching row created first (the lowest index among equal
/// creation times).
pub open spec fn earliest_near(
    rows: Seq<MeshPacketRecord>,
    unique_id: u32,
    payload: Seq<u8>,
    now: i64,
    window: i64,
) -> Option<int>
    decreases rows.len(),
{
    if rows.len() == 0 {
        None
    } else {
        let prev = earliest_near(rows.drop_last(), unique_id, payload, now, window);
        let i = rows.len() - 1;
        if near_match(rows[i], unique_id, payload, now, window) && (prev is None || rows[i].created_at
            < rows[prev->0].created_at) {
            Some(i)
        } else {
            prev
        }
    }
}

/// A row with this content hash and a packet id exists.
pub open spec fn exact_repeat(rows: Seq<MeshPacketRecord>, hash: Seq<u8>) -> bool {
    exists|i: int| 0 <= i < rows.len() && (#[trigger] rows[i]).hash@ == hash && rows[i].unique_id != 0
}

pub open spec fn classify(
    rows: Seq<MeshPacketRecord>,
    hash: Seq<u8>,
    unique_id: u32,
    payload: Seq<u8>,
    now: i64,
    window: i64,
) -> DuplicateStatus {
    if exact_repeat(rows, hash) {
        DuplicateStatus::ExactRepeat
    } else {
        match earliest_near(rows, unique_id, payload, now, window) {
            Some(i) => DuplicateStatus::NearDuplicate(rows[i].id),
            None => DuplicateStatus::Novel,
        }
    }
}

pub fn bytes_equal(a: &[u8], b: &[u8]) -> (r: bool)
    ensures
        r == (a@ == b@),
{
    if a.len() != b.len() {
        return false;
    }
    let mut i: usize = 0;
    while i < a.len()
        invariant
            a@.len() == b@.len(),
            i <= a@.len(),
            forall|j: int| 0 <= j < i ==> a@[j] == b@[j],
        decreases a@.len() - i,
    {
        if a[i] != b[i] {
            return false;
        }
        i = i + 1;
    }
    proof {
        assert(a@ =~= b@);
    }
    true
}

impl Store {
    /// Classifies a packet against the rows already recorded.
    pub fn classify_packet(&self, hash: &[u8], unique_id: u32, payload: &[u8], now: i64) -> (r:
        DuplicateStatus)
        requires
            self.wf(),
        ensures
            r == classify(
                self.mesh_packets@,
                hash@,
                unique_id,
                payload@,
                now,
                self.duplicate_window,
            ),
    {
        let rows = &self.mesh_packets;
        let window = self.duplicate_window;
        let mut exact = false;
        let mut best: Option<usize> = None;
        let mut i: usize = 0;
        while i < rows.len()
            invariant
                rows@ == self.mesh_packets@,
                window == self.duplicate_window,
                i <= rows@.len(),
                exact == exists|j: int|
                    0 <= j < i && (#[trigger] rows@[j]).hash@ == hash@ && rows@[j].unique_id != 0,
                match best {
                    Some(b) => earliest_near(
                        rows@.subrange(0, i as int),
                        unique_id,
                        payload@,
                        now,
                        window,
                    ) == Some(b as int) && b < i,
                    None => earliest_near(
                        rows@.subrange(0, i as int),
                        unique_id,
                        payload@,
                        now,
                        window,
                    ) is None,
                },
            decreases rows@.len() - i,
        {
            let r = &rows[i];
            proof {
                let sub = rows@.subrange(0, i + 1);
                assert(sub.drop_last() =~= rows@.subrange(0, i as int));
                assert(sub[i as int] == rows@[i as int]);
                if let Some(b) = best {
                    assert(sub[b as int] == rows@[b as int]);
                }
            }
            if r.unique_id != 0 && bytes_equal(r.hash.as_slice(), hash) {
                exact = true;
            }
            let within = (r.created_at as i128) >= (now as i128) - (window as i128) && (
            r.created_at as i128) <= (now as i128) + (window as i128);
            if unique_id != 0 && r.unique_id == unique_id && within && bytes_equal(
                r.payload_data.as_slice(),
                payload,
            ) {
                let earlier = match best {
                    None => true,
                    Some(b) => r.created_at < rows[b].created_at,
                };
                if earlier {
                    best = Some(i);
                }
            }
            i = i + 1;
        }
        proof {
            assert(rows@.subrange(0, i as int) =~= rows@);
        }
        if exact {
            DuplicateStatus::ExactRepeat
        } else {
            match best {
                Some(b) => DuplicateStatus::NearDuplicate(rows[b].id),
                None => DuplicateStatus::Novel,
            }
        }
    }
}

// ---------------------------------------------------------------- Payloads

pub const PORT_POSITION: i32 = 3;
pub const PORT_NODEINFO: i32 = 4;
pub const PORT_ROUTING: i32 = 5;
pub const PORT_WAYPOINT: i32 = 8;
pub const PORT_TELEMETRY: i32 = 67;
pub const PORT_TRACEROUTE: i32 = 70;
pub const PORT_NEIGHBORINFO: i32 = 71;

/// What became of a payload, for the log.
#[derive(Clone, Copy, PartialEq, Eq, Debug)]
pub enum PayloadOutcome {
    /// Decoded and handled.
    Handled,
    /// The bytes did not decode as the port's message.
    Malformed,
    /// A port this library does not handle.
    Unsupported(i32),
    /// A routing message that carries none of its variants.
    NoRoutingVariant,
}

/// Nothing but the node map may differ, and it is `nodes0`.
pub open spec fn untouched(s0: &Store, nodes0: Map<u32, NodeRecord>, s1: &Store) -> bool {
    tables_kept(s0, s1, Table::NoTable) && s1.nodes@ == nodes0
}

/// An optional scalar whose zero value means "absent".
pub open spec fn nonzero(v: i64) -> Option<i64> {
    if v == 0 {
        None
    } else {
        Some(v)
    }
}

pub open spec fn opt_nanos(secs: u32) -> Option<i64> {
    if secs == 0 {
        None
    } else {
        Some(nanos(secs))
    }
}

/// When a fix was taken: its timestamp plus the millisecond adjustment.
pub open spec fn fix_timestamp(p: Position) -> Option<i64> {
    if p.timestamp == 0 {
        None
    } else {
        Some((nanos(p.timestamp) + p.timestamp_millis_adjust * 1_000_000) as i64)
    }
}

pub open spec fn position_record(id: int, mesh_packet_id: i64, from: u32, p: Position) -> PositionRecord {
    PositionRecord {
        id: id as i64,
        mesh_packet_id,
        node_id: from,
        time: nanos(p.time),
        timestamp: fix_timestamp(p),
        position: p,
    }
}

/// A position report with both coordinates becomes a row and, unless a later
/// fix is stored, the node's position.
pub open spec fn position_step(
    s0: &Store,
    nodes0: Map<u32, NodeRecord>,
    s1: &Store,
    payload: Seq<u8>,
    from: u32,
    rx_time: i64,
    mesh_packet_id: i64,
) -> bool {
    match position_of(payload) {
        Some(p) => if p.latitude_i is Some && p.longitude_i is Some {
            let rec = position_record(s0.positions@.len() + 1int, mesh_packet_id, from, p);
            &&& tables_kept(s0, s1, Table::Positions)
            &&& s1.positions@ == s0.positions@.push(rec)
            &&& s1.nodes@ == with_position(
                nodes0,
                from,
                Latest {
                    observed_at: rx_time,
                    record_id: Some(rec.id),
                    value: PositionFix {
                        latitude_i: p.latitude_i->0,
                        longitude_i: p.longitude_i->0,
                        altitude: p.altitude,
                    },
                },
            )
        } else {
            untouched(s0, nodes0, s1)
        },
        None => untouched(s0, nodes0, s1),
    }
}

/// Device and environment metrics become a row and the node's latest group;
/// power metrics only a row.
pub open spec fn telemetry_step(
    s0: &Store,
    nodes0: Map<u32, NodeRecord>,
    s1: &Store,
    payload: Seq<u8>,
    from: u32,
    rx_time: i64,
    mesh_packet_id: i64,
) -> bool {
    match telemetry_of(payload) {
        Some(t) => {
            let time = opt_nanos(t.time);
            match t.variant {
                Some(TelemetryVariant::DeviceMetrics(d)) => {
                    let id = (s0.device_metrics@.len() + 1) as i64;
                    &&& tables_kept(s0, s1, Table::DeviceMetrics)
                    &&& s1.device_metrics@ == s0.device_metrics@.push(
                        DeviceMetricsRecord { id, mesh_packet_id, node_id: from, time, metrics: d },
                    )
                    &&& s1.nodes@ == with_device_metrics(
                        nodes0,
                        from,
                        Latest { observed_at: rx_time, record_id: Some(id), value: d },
                    )
                },
                Some(TelemetryVariant::EnvironmentMetrics(e)) => {
                    let id = (s0.environment_metrics@.len() + 1) as i64;
                    &&& tables_kept(s0, s1, Table::EnvironmentMetrics)
                    &&& s1.environment_metrics@ == s0.environment_metrics@.push(
                        EnvironmentMetricsRecord { id, mesh_packet_id, node_id: from, time, metrics: e },
                    )
                    &&& s1.nodes@ == with_environment_metrics(
                        nodes0,
                        from,
                        Latest { observed_at: rx_time, record_id: Some(id), value: e },
                    )
                },
                Some(TelemetryVariant::PowerMetrics(pm)) => {
                    &&& tables_kept(s0, s1, Table::PowerMetrics)
                    &&& s1.power_metrics@ == s0.power_metrics@.push(
                        PowerMetricsRecord { mesh_packet_id, node_id: from, time, metrics: pm },
                    )
                    &&& s1.nodes@ == nodes0
                },
                _ => untouched(s0, nodes0, s1),
            }
        },
        None => untouched(s0, nodes0, s1),
    }
}

pub open spec fn identity_of(u: User) -> Identity {
    Identity {
        user_id: u.id,
        long_name: u.long_name,
        short_name: u.short_name,
        hw_model: u.hw_model,
        is_licensed: u.is_licensed,
        role: u.role,
    }
}

/// A node announcement becomes a row and, unless a later one is stored, the
/// node's identity.
pub open spec fn nodeinfo_step(
    s0: &Store,
    nodes0: Map<u32, NodeRecord>,
    s1: &Store,
    payload: Seq<u8>,
    from: u32,
    rx_time: i64,
    mesh_packet_id: i64,
) -> bool {
    if user_ok(payload) {
        let id = (s0.node_infos@.len() + 1) as i64;
        let rec = s1.node_infos@.last();
        &&& tables_kept(s0, s1, Table::NodeInfos)
        &&& s1.node_infos@.len() == s0.node_infos@.len() + 1
        &&& s1.node_infos@.drop_last() == s0.node_infos@
        &&& rec.id == id && rec.mesh_packet_id == mesh_packet_id && rec.node_id == from
        &&& user_matches(payload, rec.user)
        &&& s1.nodes@ == with_identity(
            nodes0,
            from,
            Latest { observed_at: rx_time, record_id: Some(id), value: identity_of(rec.user) },
        )
    } else {
        untouched(s0, nodes0, s1)
    }
}

/// Code points that are Unicode scalar values.
pub open spec fn is_scalar_value(u: u32) -> bool {
    u < 0xD800 || (0xE000 <= u && u <= 0x10FFFF)
}

/// The icon text of a code point: that one character, or empty for 0 and for
/// a number that is no character.
pub open spec fn icon_text(icon: u32, s: Seq<char>) -> bool {
    if icon != 0 && is_scalar_value(icon) {
        s.len() == 1 && s[0] as u32 == icon
    } else {
        s.len() == 0
    }
}

pub open spec fn waypoint_record_matches(
    payload: Seq<u8>,
    w: WaypointRecord,
    mesh_packet_id: i64,
    from: u32,
) -> bool {
    let fs = fields_of(payload);
    &&& w.mesh_packet_id == mesh_packet_id
    &&& w.node_id == from
    &&& w.waypoint_id == varint_u32(fs, 1)
    &&& w.latitude_i == opt_sfixed32(fs, 2)
    &&& w.longitude_i == opt_sfixed32(fs, 3)
    &&& w.expire == opt_nanos(varint_u32(fs, 4))
    &&& w.locked_to == nonzero(varint_u32(fs, 5) as i64)
    &&& w.name@ == string_of(payload, fs, 6)
    &&& w.description@ == string_of(payload, fs, 7)
    &&& icon_text(fixed_u32(fs, 8), w.icon@)
}

/// A waypoint becomes a row; nodes are not touched.
pub open spec fn waypoint_step(
    s0: &Store,
    nodes0: Map<u32, NodeRecord>,
    s1: &Store,
    payload: Seq<u8>,
    from: u32,
    mesh_packet_id: i64,
) -> bool {
    if waypoint_ok(payload) {
        &&& tables_kept(s0, s1, Table::Waypoints)
        &&& s1.waypoints@.len() == s0.waypoints@.len() + 1
        &&& s1.waypoints@.drop_last() == s0.waypoints@
        &&& waypoint_record_matches(payload, s1.waypoints@.last(), mesh_packet_id, from)
        &&& s1.nodes@ == nodes0
    } else {
        untouched(s0, nodes0, s1)
    }
}

/// A neighbour counts unless it is no real node or the reporter itself.
pub open spec fn counts_as_neighbor(reporter: u32, id: u32) -> bool {
    is_node_id(id) && id != reporter
}

pub open spec fn neighbor_ids(ns: Seq<Neighbor>, reporter: u32) -> Seq<u32>
    decreases ns.len(),
{
    if ns.len() == 0 {
        Seq::empty()
    } else if counts_as_neighbor(reporter, ns.last().node_id) {
        neighbor_ids(ns.drop_last(), reporter).push(ns.last().node_id)
    } else {
        neighbor_ids(ns.drop_last(), reporter)
    }
}

pub open spec fn neighbor_edges(
    ns: Seq<Neighbor>,
    reporter: u32,
    mesh_packet_id: i64,
    timestamp: i64,
) -> Seq<NeighborRecord>
    decreases ns.len(),
{
    if ns.len() == 0 {
        Seq::empty()
    } else {
        let prev = neighbor_edges(ns.drop_last(), reporter, mesh_packet_id, timestamp);
        let n = ns.last();
        if counts_as_neighbor(reporter, n.node_id) {
            prev.push(
                NeighborRecord {
                    mesh_packet_id,
                    node_id: reporter,
                    neighbor_node_id: n.node_id,
                    snr: n.snr,
                    timestamp,
                },
            )
        } else {
            prev
        }
    }
}

/// The neighbour entries of a report that parses.
pub open spec fn reported_neighbors(payload: Seq<u8>) -> Seq<Neighbor> {
    Seq::new(
        len_ranges(fields_of(payload), 4).len(),
        |i: int| neighbor_of(neighbor_part(payload, i))->0,
    )
}

/// Each counted neighbour gets a node row if it has none, and an edge from the
/// reporting node.
pub open spec fn neighbor_step(
    s0: &Store,
    nodes0: Map<u32, NodeRecord>,
    s1: &Store,
    payload: Seq<u8>,
    rx_time: i64,
    mesh_packet_id: i64,
    now: i64,
) -> bool {
    if neighbor_info_ok(payload) {
        let reporter = varint_u32(fields_of(payload), 1);
        let ns = reported_neighbors(payload);
        &&& tables_kept(s0, s1, Table::Neighbors)
        &&& s1.neighbors@ == s0.neighbors@ + neighbor_edges(ns, reporter, mesh_packet_id, rx_time)
        &&& nodes_ensured(nodes0, s1.nodes@, neighbor_ids(ns, reporter), None, now)
    } else {
        untouched(s0, nodes0, s1)
    }
}

/// The nodes on a route, and the destination, get node rows.
pub open spec fn route_nodes_step(
    s0: &Store,
    nodes0: Map<u32, NodeRecord>,
    s1: &Store,
    route: Seq<u32>,
    to: u32,
    now: i64,
) -> bool {
    tables_kept(s0, s1, Table::NoTable) && nodes_ensured(nodes0, s1.nodes@, route.push(to), None, now)
}

pub open spec fn traceroute_step(
    s0: &Store,
    nodes0: Map<u32, NodeRecord>,
    s1: &Store,
    payload: Seq<u8>,
    to: u32,
    now: i64,
) -> bool {
    if route_discovery_ok(payload) {
        route_nodes_step(s0, nodes0, s1, repeated_fixed32(payload, fields_of(payload), 1)->0, to, now)
    } else {
        untouched(s0, nodes0, s1)
    }
}

pub open spec fn routing_step(
    s0: &Store,
    nodes0: Map<u32, NodeRecord>,
    s1: &Store,
    payload: Seq<u8>,
    to: u32,
    now: i64,
) -> bool {
    let m = crate::fields::oneof_choice(fields_of(payload), 1, 3).0;
    if routing_ok(payload) && (m == 1 || m == 2) {
        let part = routing_part(payload);
        route_nodes_step(s0, nodes0, s1, repeated_fixed32(part, fields_of(part), 1)->0, to, now)
    } else {
        untouched(s0, nodes0, s1)
    }
}

/// The payload's effect, by port.
pub open spec fn payload_step(
    s0: &Store,
    nodes0: Map<u32, NodeRecord>,
    s1: &Store,
    port: i32,
    payload: Seq<u8>,
    from: u32,
    to: u32,
    rx_time: i64,
    mesh_packet_id: i64,
    now: i64,
) -> bool {
    if port == PORT_POSITION {
        position_step(s0, nodes0, s1, payload, from, rx_time, mesh_packet_id)
    } else if port == PORT_TELEMETRY {
        telemetry_step(s0, nodes0, s1, payload, from, rx_time, mesh_packet_id)
    } else if port == PORT_NODEINFO {
        nodeinfo_step(s0, nodes0, s1, payload, from, rx_time, mesh_packet_id)
    } else if port == PORT_WAYPOINT {
        waypoint_step(s0, nodes0, s1, payload, from, mesh_packet_id)
    } else if port == PORT_NEIGHBORINFO {
        neighbor_step(s0, nodes0, s1, payload, rx_time, mesh_packet_id, now)
    } else if port == PORT_TRACEROUTE {
        traceroute_step(s0, nodes0, s1, payload, to, now)
    } else if port == PORT_ROUTING {
        routing_step(s0, nodes0, s1, payload, to, now)
    } else {
        untouched(s0, nodes0, s1)
    }
}

pub open spec fn payload_outcome(port: i32, payload: Seq<u8>) -> PayloadOutcome {
    let handled = if port == PORT_POSITION {
        position_of(payload) is Some
    } else if port == PORT_TELEMETRY {
        telemetry_of(payload) is Some
    } else if port == PORT_NODEINFO {
        user_ok(payload)
    } else if port == PORT_WAYPOINT {
        waypoint_ok(payload)
    } else if port == PORT_NEIGHBORINFO {
        neighbor_info_ok(payload)
    } else if port == PORT_TRACEROUTE {
        route_discovery_ok(payload)
    } else {
        routing_ok(payload)
    };
    if port != PORT_POSITION && port != PORT_TELEMETRY && port != PORT_NODEINFO && port
        != PORT_WAYPOINT && port != PORT_NEIGHBORINFO && port != PORT_TRACEROUTE && port
        != PORT_ROUTING {
        PayloadOutcome::Unsupported(port)
    } else if !handled {
        PayloadOutcome::Malformed
    } else if port == PORT_ROUTING && crate::fields::oneof_choice(fields_of(payload), 1, 3).0 == 0 {
        PayloadOutcome::NoRoutingVariant
    } else {
        PayloadOutcome::Handled
    }
}

/// Relies on std's `char::from_u32`: a character exactly for the Unicode
/// scalar values, and that character's code point is the number given.
pub assume_specification[ char::from_u32 ](i: u32) -> (r: Option<char>)
    ensures
        r is Some <==> (i < 0xD800 || (0xE000 <= i && i <= 0x10FFFF)),
        r matches Some(c) ==> c as u32 == i,
;

/// The icon text of a code point: one character, or empty for 0 and for a
/// number that is no character.
pub fn icon_string(icon: u32) -> (r: String)
    ensures
        icon_text(icon, r@),
{
    let mut s = String::new();
    if icon != 0 {
        if let Some(c) = char::from_u32(icon) {
            s.push(c);
        }
    }
    s
}

proof fn lemma_wf_tables(s0: &Store, s1: &Store, changed: Table)
    requires
        s0.wf(),
        s1.mesh_packets@ == s0.mesh_packets@,
        s1.nodes@ == s0.nodes@,
        s1.duplicate_window == s0.duplicate_window,
        tables_kept(s0, s1, changed),
        changed == Table::Positions ==> s1.positions@.drop_last() == s0.positions@
            && s1.positions@.len() == s0.positions@.len() + 1 && s1.positions@.last().id
            == s0.positions@.len() + 1,
        changed == Table::DeviceMetrics ==> s1.device_metrics@.drop_last() == s0.device_metrics@
            && s1.device_metrics@.len() == s0.device_metrics@.len() + 1
            && s1.device_metrics@.last().id == s0.device_metrics@.len() + 1,
        changed == Table::EnvironmentMetrics ==> s1.environment_metrics@.drop_last()
            == s0.environment_metrics@ && s1.environment_metrics@.len()
            == s0.environment_metrics@.len() + 1 && s1.environment_metrics@.last().id
            == s0.environment_metrics@.len() + 1,
        changed == Table::NodeInfos ==> s1.node_infos@.drop_last() == s0.node_infos@
            && s1.node_infos@.len() == s0.node_infos@.len() + 1 && s1.node_infos@.last().id
            == s0.node_infos@.len() + 1,
    ensures
        s1.wf(),
{
    if changed == Table::Positions {
        assert forall|i: int| 0 <= i < s1.positions@.len() implies (
        #[trigger] s1.positions@[i]).id == i + 1 by {
            if i < s0.positions@.len() {
                assert(s1.positions@[i] == s1.positions@.drop_last()[i]);
            }
        }
    }
    if changed == Table::DeviceMetrics {
        assert forall|i: int| 0 <= i < s1.device_metrics@.len() implies (
        #[trigger] s1.device_metrics@[i]).id == i + 1 by {
            if i < s0.device_metrics@.len() {
                assert(s1.device_metrics@[i] == s1.device_metrics@.drop_last()[i]);
            }
        }
    }
    if changed == Table::EnvironmentMetrics {
        assert forall|i: int| 0 <= i < s1.environment_metrics@.len() implies (
        #[trigger] s1.environment_metrics@[i]).id == i + 1 by {
            if i < s0.environment_metrics@.len() {
                assert(s1.environment_metrics@[i] == s1.environment_metrics@.drop_last()[i]);
            }
        }
    }
    if changed == Table::NodeInfos {
        assert forall|i: int| 0 <= i < s1.node_infos@.len() implies (
        #[trigger] s1.node_infos@[i]).id == i + 1 by {
            if i < s0.node_infos@.len() {
                assert(s1.node_infos@[i] == s1.node_infos@.drop_last()[i]);
            }
        }
    }
}

impl Store {
    /// Stores a position report that carries both coordinates.
    pub fn handle_position_payload(
        &mut self,
        payload: &[u8],
        from: u32,
        rx_time: i64,
        mesh_packet_id: i64,
    ) -> (decoded: bool)
        requires
            old(self).wf(),
            old(self).positions@.len() < i64::MAX,
        ensures
            final(self).wf(),
            final(self).mesh_packets@ == old(self).mesh_packets@,
            position_step(old(self), old(self).nodes@, final(self), payload@, from, rx_time, mesh_packet_id),
            decoded == position_of(payload@) is Some,
    {
        match decode_position(payload) {
            Some(p) => {
                match (p.latitude_i, p.longitude_i) {
                    (Some(lat), Some(lon)) => {
                        let id = self.positions.len() as i64 + 1;
                        let timestamp = if p.timestamp == 0 {
                            None
                        } else {
                            Some(to_nanos(p.timestamp) + (p.timestamp_millis_adjust as i64) * 1_000_000)
                        };
                        let rec = PositionRecord {
                            id,
                            mesh_packet_id,
                            node_id: from,
                            time: to_nanos(p.time),
                            timestamp,
                            position: p,
                        };
                        let ghost s0 = *self;
                        self.positions.push(rec);
                        proof {
                            assert(self.positions@.drop_last() =~= s0.positions@);
                            lemma_wf_tables(&s0, self, Table::Positions);
                        }
                        let fix = PositionFix { latitude_i: lat, longitude_i: lon, altitude: p.altitude };
                        self.update_position(
                            from,
                            Latest { observed_at: rx_time, record_id: Some(id), value: fix },
                        );
                    },
                    _ => {},
                }
                true
            },
            None => false,
        }
    }

    /// Stores telemetry; device and environment metrics also update the node.
    pub fn handle_telemetry_payload(
        &mut self,
        payload: &[u8],
        from: u32,
        rx_time: i64,
        mesh_packet_id: i64,
    ) -> (decoded: bool)
        requires
            old(self).wf(),
            old(self).device_metrics@.len() < i64::MAX,
            old(self).environment_metrics@.len() < i64::MAX,
        ensures
            final(self).wf(),
            final(self).mesh_packets@ == old(self).mesh_packets@,
            telemetry_step(old(self), old(self).nodes@, final(self), payload@, from, rx_time, mesh_packet_id),
            decoded == telemetry_of(payload@) is Some,
    {
        match decode_telemetry(payload) {
            Some(t) => {
                let time = if t.time == 0 {
                    None
                } else {
                    Some(to_nanos(t.time))
                };
                let ghost s0 = *self;
                match t.variant {
                    Some(TelemetryVariant::DeviceMetrics(d)) => {
                        let id = self.device_metrics.len() as i64 + 1;
                        self.device_metrics.push(
                            DeviceMetricsRecord { id, mesh_packet_id, node_id: from, time, metrics: d },
                        );
                        proof {
                            assert(self.device_metrics@.drop_last() =~= s0.device_metrics@);
                            lemma_wf_tables(&s0, self, Table::DeviceMetrics);
                        }
                        self.update_device_metrics(
                            from,
                            Latest { observed_at: rx_time, record_id: Some(id), value: d },
                        );
                    },
                    Some(TelemetryVariant::EnvironmentMetrics(e)) => {
                        let id = self.environment_metrics.len() as i64 + 1;
                        self.environment_metrics.push(
                            EnvironmentMetricsRecord {
                                id,
                                mesh_packet_id,
                                node_id: from,
                                time,
                                metrics: e,
                            },
                        );
                        proof {
                            assert(self.environment_metrics@.drop_last() =~= s0.environment_metrics@);
                            lemma_wf_tables(&s0, self, Table::EnvironmentMetrics);
                        }
                        self.update_environment_metrics(
                            from,
                            Latest { observed_at: rx_time, record_id: Some(id), value: e },
                        );
                    },
                    Some(TelemetryVariant::PowerMetrics(pm)) => {
                        self.power_metrics.push(
                            PowerMetricsRecord { mesh_packet_id, node_id: from, time, metrics: pm },
                        );
                        proof {
                            lemma_wf_tables(&s0, self, Table::PowerMetrics);
                        }
                    },
                    _ => {},
                }
                true
            },
            None => false,
        }
    }

    /// Stores a node announcement and updates the node's identity.
    pub fn handle_nodeinfo_payload(
        &mut self,
        payload: &[u8],
        from: u32,
        rx_time: i64,
        mesh_packet_id: i64,
    ) -> (decoded: bool)
        requires
            old(self).wf(),
            old(self).node_infos@.len() < i64::MAX,
        ensures
            final(self).wf(),
            final(self).mesh_packets@ == old(self).mesh_packets@,
            nodeinfo_step(old(self), old(self).nodes@, final(self), payload@, from, rx_time, mesh_packet_id),
            decoded == user_ok(payload@),
    {
        match decode_user(payload) {
            Some(u) => {
                let id = self.node_infos.len() as i64 + 1;
                let identity = Identity {
                    user_id: u.id.clone(),
                    long_name: u.long_name.clone(),
                    short_name: u.short_name.clone(),
                    hw_model: u.hw_model,
                    is_licensed: u.is_licensed,
                    role: u.role,
                };
                let ghost s0 = *self;
                let ghost user = u;
                self.node_infos.push(NodeInfoRecord { id, mesh_packet_id, node_id: from, user: u });
                proof {
                    assert(self.node_infos@.drop_last() =~= s0.node_infos@);
                    lemma_wf_tables(&s0, self, Table::NodeInfos);
                    assert(identity == identity_of(user));
                }
                self.update_identity(
                    from,
                    Latest { observed_at: rx_time, record_id: Some(id), value: identity },
                );
                true
            },
            None => false,
        }
    }

    /// Stores a waypoint.
    pub fn handle_waypoint_payload(&mut self, payload: &[u8], from: u32, mesh_packet_id: i64) -> (decoded:
        bool)
        requires
            old(self).wf(),
        ensures
            final(self).wf(),
            final(self).mesh_packets@ == old(self).mesh_packets@,
            waypoint_step(old(self), old(self).nodes@, final(self), payload@, from, mesh_packet_id),
            decoded == waypoint_ok(payload@),
    {
        match decode_waypoint(payload) {
            Some(w) => {
                let expire = if w.expire == 0 {
                    None
                } else {
                    Some(to_nanos(w.expire))
                };
                let locked_to = none_if_default(w.locked_to as i64);
                let icon = icon_string(w.icon);
                let ghost s0 = *self;
                self.waypoints.push(
                    WaypointRecord {
                        mesh_packet_id,
                        node_id: from,
                        waypoint_id: w.id,
                        latitude_i: w.latitude_i,
                        longitude_i: w.longitude_i,
                        expire,
                        locked_to,
                        name: w.name,
                        description: w.description,
                        icon,
                    },
                );
                proof {
                    assert(self.waypoints@.drop_last() =~= s0.waypoints@);
                    lemma_wf_tables(&s0, self, Table::Waypoints);
                }
                true
            },
            None => false,
        }
    }
}

impl Store {
    /// Gives each counted neighbour a node row, then records an edge to it.
    pub fn handle_neighbor_payload(
        &mut self,
        payload: &[u8],
        rx_time: i64,
        mesh_packet_id: i64,
        now: i64,
    ) -> (decoded: bool)
        requires
            old(self).wf(),
        ensures
            final(self).wf(),
            final(self).mesh_packets@ == old(self).mesh_packets@,
            neighbor_step(old(self), old(self).nodes@, final(self), payload@, rx_time, mesh_packet_id, now),
            decoded == neighbor_info_ok(payload@),
    {
        let ni = match decode_neighbor_info(payload) {
            Some(ni) => ni,
            None => return false,
        };
        proof {
            assert(ni.neighbors@ =~= reported_neighbors(payload@));
        }
        let reporter = ni.node_id;
        let ns = &ni.neighbors;
        let mut ids: Vec<u32> = Vec::new();
        let mut i: usize = 0;
        while i < ns.len()
            invariant
                i <= ns@.len(),
                ids@ == neighbor_ids(ns@.subrange(0, i as int), reporter),
            decreases ns@.len() - i,
        {
            proof {
                assert(ns@.subrange(0, i + 1).drop_last() =~= ns@.subrange(0, i as int));
            }
            let id = ns[i].node_id;
            if node_id_is_real(id) && id != reporter {
                ids.push(id);
            }
            i = i + 1;
        }
        proof {
            assert(ns@.subrange(0, i as int) =~= ns@);
        }
        self.create_nodes_if_not_exist(&ids, now);
        let ghost s1 = *self;
        let mut j: usize = 0;
        while j < ns.len()
            invariant
                self.wf(),
                j <= ns@.len(),
                self.mesh_packets@ == s1.mesh_packets@,
                self.nodes@ == s1.nodes@,
                tables_kept(&s1, self, Table::Neighbors),
                self.neighbors@ == s1.neighbors@ + neighbor_edges(
                    ns@.subrange(0, j as int),
                    reporter,
                    mesh_packet_id,
                    rx_time,
                ),
            decreases ns@.len() - j,
        {
            proof {
                assert(ns@.subrange(0, j + 1).drop_last() =~= ns@.subrange(0, j as int));
            }
            let n = ns[j];
            if node_id_is_real(n.node_id) && n.node_id != reporter {
                let ghost before = *self;
                self.neighbors.push(
                    NeighborRecord {
                        mesh_packet_id,
                        node_id: reporter,
                        neighbor_node_id: n.node_id,
                        snr: n.snr,
                        timestamp: rx_time,
                    },
                );
                proof {
                    lemma_wf_tables(&before, self, Table::Neighbors);
                    assert(self.neighbors@ =~= s1.neighbors@ + neighbor_edges(
                        ns@.subrange(0, j + 1),
                        reporter,
                        mesh_packet_id,
                        rx_time,
                    ));
                }
            }
            j = j + 1;
        }
        proof {
            assert(ns@.subrange(0, j as int) =~= ns@);
        }
        true
    }

    /// Gives the nodes on a route, and the destination, node rows.
    fn ensure_route_nodes(&mut self, route: Vec<u32>, to: u32, now: i64)
        requires
            old(self).wf(),
        ensures
            final(self).wf(),
            final(self).mesh_packets@ == old(self).mesh_packets@,
            route_nodes_step(old(self), old(self).nodes@, final(self), route@, to, now),
    {
        let mut ids = route;
        ids.push(to);
        self.create_nodes_if_not_exist(&ids, now);
    }

    /// A traceroute is not stored; the nodes it names get node rows.
    pub fn handle_traceroute_payload(&mut self, payload: &[u8], to: u32, now: i64) -> (decoded: bool)
        requires
            old(self).wf(),
        ensures
            final(self).wf(),
            final(self).mesh_packets@ == old(self).mesh_packets@,
            traceroute_step(old(self), old(self).nodes@, final(self), payload@, to, now),
            decoded == route_discovery_ok(payload@),
    {
        match decode_route_discovery(payload) {
            Some(rd) => {
                self.ensure_route_nodes(rd.route, to, now);
                true
            },
            None => {
                proof {
                    lemma_wf_tables(self, self, Table::NoTable);
                }
                false
            },
        }
    }

    /// A routing message is not stored; the nodes of a route request or reply
    /// get node rows.
    pub fn handle_routing_payload(&mut self, payload: &[u8], to: u32, now: i64) -> (r: PayloadOutcome)
        requires
            old(self).wf(),
        ensures
            final(self).wf(),
            final(self).mesh_packets@ == old(self).mesh_packets@,
            routing_step(old(self), old(self).nodes@, final(self), payload@, to, now),
            r == payload_outcome(PORT_ROUTING, payload@),
    {
        proof {
            crate::fields::lemma_oneof_range(fields_of(payload@), 1, 3);
        }
        match decode_routing(payload) {
            Some(routing) => match routing.variant {
                Some(RoutingVariant::RouteRequest(rd)) => {
                    self.ensure_route_nodes(rd.route, to, now);
                    PayloadOutcome::Handled
                },
                Some(RoutingVariant::RouteReply(rd)) => {
                    self.ensure_route_nodes(rd.route, to, now);
                    PayloadOutcome::Handled
                },
                Some(RoutingVariant::ErrorReason(_)) => PayloadOutcome::Handled,
                None => PayloadOutcome::NoRoutingVariant,
            },
            None => PayloadOutcome::Malformed,
        }
    }

    /// Hands the payload to the handler of its port.
    pub fn handle_payload(
        &mut self,
        port: i32,
        payload: &[u8],
        from: u32,
        to: u32,
        rx_time: i64,
        mesh_packet_id: i64,
        now: i64,
    ) -> (r: PayloadOutcome)
        requires
            old(self).wf(),
            old(self).positions@.len() < i64::MAX,
            old(self).device_metrics@.len() < i64::MAX,
            old(self).environment_metrics@.len() < i64::MAX,
            old(self).node_infos@.len() < i64::MAX,
        ensures
            final(self).wf(),
            final(self).mesh_packets@ == old(self).mesh_packets@,
            payload_step(
                old(self),
                old(self).nodes@,
                final(self),
                port,
                payload@,
                from,
                to,
                rx_time,
                mesh_packet_id,
                now,
            ),
            r == payload_outcome(port, payload@),
    {
        let handled = if port == PORT_POSITION {
            self.handle_position_payload(payload, from, rx_time, mesh_packet_id)
        } else if port == PORT_TELEMETRY {
            self.handle_telemetry_payload(payload, from, rx_time, mesh_packet_id)
        } else if port == PORT_NODEINFO {
            self.handle_nodeinfo_payload(payload, from, rx_time, mesh_packet_id)
        } else if port == PORT_WAYPOINT {
            self.handle_waypoint_payload(payload, from, mesh_packet_id)
        } else if port == PORT_NEIGHBORINFO {
            self.handle_neighbor_payload(payload, rx_time, mesh_packet_id, now)
        } else if port == PORT_TRACEROUTE {
            self.handle_traceroute_payload(payload, to, now)
        } else if port == PORT_ROUTING {
            return self.handle_routing_payload(payload, to, now);
        } else {
            return PayloadOutcome::Unsupported(port);
        };
        if handled {
            PayloadOutcome::Handled
        } else {
            PayloadOutcome::Malformed
        }
    }
}

// ---------------------------------------------------------------- Packets

/// A failure that stops the pipeline.
#[derive(Clone, Copy, PartialEq, Eq, Debug)]
pub enum StoreError {
    /// A table that hands out ids has no id left.
    StoreFull,
}

/// What processing one packet did.
#[derive(Clone, Copy, PartialEq, Eq, Debug)]
pub struct PacketOutcome {
    /// The id of the packet's new row.
    pub id: i64,
    pub status: DuplicateStatus,
    /// What became of the payload; `None` for a duplicate, whose payload is skipped.
    pub payload: Option<PayloadOutcome>,
}

pub open spec fn packet_row(
    id: i64,
    gateway_id: String,
    hash: Vec<u8>,
    p: MeshPacket,
    d: Data,
    status: DuplicateStatus,
    now: i64,
) -> MeshPacketRecord {
    MeshPacketRecord {
        id,
        gateway_id,
        from_id: p.from,
        to_id: p.to,
        channel: p.channel,
        unique_id: p.id,
        portnum: d.portnum,
        payload_data: d.payload,
        rx_time: nanos(p.rx_time),
        rx_snr: p.rx_snr,
        rx_rssi: p.rx_rssi,
        hop_start: p.hop_start,
        hop_limit: p.hop_limit,
        want_ack: p.want_ack,
        want_response: d.want_response,
        source: nonzero(d.source as i64),
        dest: nonzero(d.dest as i64),
        request_id: nonzero(d.request_id as i64),
        reply_id: nonzero(d.reply_id as i64),
        emoji: nonzero(d.emoji as i64),
        priority: p.priority,
        hash,
        status,
        created_at: now,
    }
}

pub open spec fn radio_of(p: MeshPacket) -> Latest<RadioStats> {
    Latest {
        observed_at: nanos(p.rx_time),
        record_id: None,
        value: RadioStats {
            rx_snr: p.rx_snr,
            rx_rssi: p.rx_rssi,
            hop_start: p.hop_start,
            hop_limit: p.hop_limit,
        },
    }
}

/// Processing one decoded packet took the store from `s0` to `s1`: the packet
/// was classified against the rows before it, its sender got a node row, and it
/// got a row of its own whatever the classification. Only a novel packet
/// updates the sender's radio figures and has its payload handled.
#[verifier::opaque]
pub open spec fn packet_processed(
    s0: &Store,
    s1: &Store,
    gateway_id: String,
    hash: Vec<u8>,
    p: MeshPacket,
    d: Data,
    now: i64,
    r: PacketOutcome,
) -> bool {
    let status = classify(s0.mesh_packets@, hash@, p.id, d.payload@, now, s0.duplicate_window);
    let id = (s0.mesh_packets@.len() + 1) as i64;
    &&& r.id == id
    &&& r.status == status
    &&& s1.mesh_packets@ == s0.mesh_packets@.push(packet_row(id, gateway_id, hash, p, d, status, now))
    &&& exists|nodes1: Map<u32, NodeRecord>|
        #[trigger] sender_ensured(s0.nodes@, nodes1, p, now) && packet_effects(
            s0,
            s1,
            nodes1,
            p,
            d,
            status,
            id,
            now,
            r,
        )
}

/// The sender got a row, if it had none, holding the packet's radio figures.
pub open spec fn sender_ensured(
    old: Map<u32, NodeRecord>,
    new: Map<u32, NodeRecord>,
    p: MeshPacket,
    now: i64,
) -> bool {
    nodes_ensured(old, new, seq![p.from], Some(radio_of(p)), now)
}

/// What follows once the sender has a row (`nodes1`): a novel packet updates
/// the radio figures and has its payload handled; a duplicate changes nothing more.
pub open spec fn packet_effects(
    s0: &Store,
    s1: &Store,
    nodes1: Map<u32, NodeRecord>,
    p: MeshPacket,
    d: Data,
    status: DuplicateStatus,
    id: i64,
    now: i64,
    r: PacketOutcome,
) -> bool {
    if status == DuplicateStatus::Novel {
        let nodes2 = with_radio(nodes1, p.from, radio_of(p), now);
        &&& payload_step(
            s0,
            nodes2,
            s1,
            d.portnum,
            d.payload@,
            p.from,
            p.to,
            nanos(p.rx_time),
            id,
            now,
        )
        &&& r.payload == Some(payload_outcome(d.portnum, d.payload@))
    } else {
        &&& untouched(s0, nodes1, s1)
        &&& r.payload is None
    }
}

/// Whether a packet's payload was decoded does not enter `packet_processed`;
/// the decoded content is passed on its own.
pub proof fn lemma_packet_processed_same_fields(
    s0: &Store,
    s1: &Store,
    gateway_id: String,
    hash: Vec<u8>,
    p: MeshPacket,
    q: MeshPacket,
    d: Data,
    now: i64,
    r: PacketOutcome,
)
    requires
        q == (MeshPacket { decoded: q.decoded, ..p }),
        packet_processed(s0, s1, gateway_id, hash, p, d, now, r),
    ensures
        packet_processed(s0, s1, gateway_id, hash, q, d, now, r),
        s1.mesh_packets@.len() == s0.mesh_packets@.len() + 1,
{
    reveal(packet_processed);
    assert(radio_of(p) == radio_of(q));
    assert(packet_row((s0.mesh_packets@.len() + 1) as i64, gateway_id, hash, p, d, r.status, now)
        == packet_row((s0.mesh_packets@.len() + 1) as i64, gateway_id, hash, q, d, r.status, now));
    let nodes1 = choose|nodes1: Map<u32, NodeRecord>|
        #[trigger] sender_ensured(s0.nodes@, nodes1, p, now) && packet_effects(
            s0,
            s1,
            nodes1,
            p,
            d,
            r.status,
            r.id,
            now,
            r,
        );
    assert(sender_ensured(s0.nodes@, nodes1, q, now));
    assert(packet_effects(s0, s1, nodes1, q, d, r.status, r.id, now, r));
}

proof fn lemma_push_row_wf(s0: &Store, s1: &Store, row: MeshPacketRecord)
    requires
        s0.wf(),
        s1.mesh_packets@ == s0.mesh_packets@.push(row),
        s1.nodes@ == s0.nodes@,
        tables_kept(s0, s1, Table::NoTable),
        row.id == s0.mesh_packets@.len() + 1,
        exact_repeat(s0.mesh_packets@, row.hash@) ==> row.status == DuplicateStatus::ExactRepeat,
    ensures
        s1.wf(),
{
    let rows = s1.mesh_packets@;
    assert forall|i: int, j: int|
        0 <= i < j < rows.len() && (#[trigger] rows[i]).hash@ == (#[trigger] rows[j]).hash@
            && rows[i].unique_id != 0 implies rows[j].status == DuplicateStatus::ExactRepeat by {
        if j < rows.len() - 1 {
            assert(rows[i] == s0.mesh_packets@[i]);
            assert(rows[j] == s0.mesh_packets@[j]);
        } else {
            assert(rows[i] == s0.mesh_packets@[i]);
            assert(exact_repeat(s0.mesh_packets@, row.hash@));
        }
    }
    assert forall|i: int| 0 <= i < rows.len() implies (#[trigger] rows[i]).id == i + 1 by {
        if i < rows.len() - 1 {
            assert(rows[i] == s0.mesh_packets@[i]);
        }
    }
}

proof fn lemma_step_base(
    a: &Store,
    b: &Store,
    nodes0: Map<u32, NodeRecord>,
    s1: &Store,
    port: i32,
    payload: Seq<u8>,
    from: u32,
    to: u32,
    rx_time: i64,
    mesh_packet_id: i64,
    now: i64,
)
    requires
        tables_kept(a, b, Table::NoTable),
        payload_step(b, nodes0, s1, port, payload, from, to, rx_time, mesh_packet_id, now),
    ensures
        payload_step(a, nodes0, s1, port, payload, from, to, rx_time, mesh_packet_id, now),
{
}

impl Store {
    /// Records one packet as one gateway relayed it, under the classification
    /// it was given; nothing else changes.
    pub fn create_packet(
        &mut self,
        gateway_id: String,
        hash: Vec<u8>,
        packet: &MeshPacket,
        data: Data,
        status: DuplicateStatus,
        now: i64,
    ) -> (id: i64)
        requires
            old(self).wf(),
            old(self).mesh_packets@.len() < i64::MAX,
            exact_repeat(old(self).mesh_packets@, hash@) ==> status == DuplicateStatus::ExactRepeat,
        ensures
            final(self).wf(),
            id == old(self).mesh_packets@.len() + 1,
            final(self).mesh_packets@ == old(self).mesh_packets@.push(
                packet_row(id, gateway_id, hash, *packet, data, status, now),
            ),
            final(self).nodes@ == old(self).nodes@,
            tables_kept(old(self), final(self), Table::NoTable),
    {
        let id = self.mesh_packets.len() as i64 + 1;
        let row = MeshPacketRecord {
            id,
            gateway_id,
            from_id: packet.from,
            to_id: packet.to,
            channel: packet.channel,
            unique_id: packet.id,
            portnum: data.portnum,
            payload_data: data.payload,
            rx_time: to_nanos(packet.rx_time),
            rx_snr: packet.rx_snr,
            rx_rssi: packet.rx_rssi,
            hop_start: packet.hop_start,
            hop_limit: packet.hop_limit,
            want_ack: packet.want_ack,
            want_response: data.want_response,
            source: none_if_default(data.source as i64),
            dest: none_if_default(data.dest as i64),
            request_id: none_if_default(data.request_id as i64),
            reply_id: none_if_default(data.reply_id as i64),
            emoji: none_if_default(data.emoji as i64),
            priority: packet.priority,
            hash,
            status,
            created_at: now,
        };
        let ghost s1 = *self;
        proof {
            assert(row == packet_row(id, gateway_id, hash, *packet, data, status, now));
        }
        self.mesh_packets.push(row);
        proof {
            lemma_push_row_wf(&s1, self, row);
        }
        id
    }
}

impl Store {
    /// Processes one decoded packet: classifies it, makes sure its sender has a
    /// node row, records it, and, when it is novel, updates the sender's radio
    /// figures and handles its payload.
    pub fn process_mesh_packet(
        &mut self,
        gateway_id: String,
        hash: Vec<u8>,
        packet: &MeshPacket,
        data: Data,
        now: i64,
    ) -> (r: Result<PacketOutcome, StoreError>)
        requires
            old(self).wf(),
        ensures
            final(self).wf(),
            r is Ok <==> old(self).spec_has_room(),
            r is Err ==> *final(self) == *old(self),
            r matches Ok(o) ==> packet_processed(
                old(self),
                final(self),
                gateway_id,
                hash,
                *packet,
                data,
                now,
                o,
            ),
    {
        if !self.has_room() {
            return Err(StoreError::StoreFull);
        }
        let ghost s0 = *self;
        let ghost d0 = data;
        let status = self.classify_packet(hash.as_slice(), packet.id, data.payload.as_slice(), now);
        let rx_time = to_nanos(packet.rx_time);
        let radio = Latest {
            observed_at: rx_time,
            record_id: None,
            value: RadioStats {
                rx_snr: packet.rx_snr,
                rx_rssi: packet.rx_rssi,
                hop_start: packet.hop_start,
                hop_limit: packet.hop_limit,
            },
        };
        self.ensure_node_exists(packet.from, Some(radio), now);
        let ghost nodes1 = self.nodes@;
        proof {
            assert(sender_ensured(s0.nodes@, nodes1, *packet, now));
        }
        let payload = vstd::slice::slice_to_vec(data.payload.as_slice());
        let portnum = data.portnum;
        let id = self.create_packet(gateway_id, hash, packet, data, status, now);
        match status {
            DuplicateStatus::Novel => {
                self.update_radio(packet.from, radio, now);
                let ghost mid = *self;
                let outcome = self.handle_payload(
                    portnum,
                    payload.as_slice(),
                    packet.from,
                    packet.to,
                    rx_time,
                    id,
                    now,
                );
                proof {
                    lemma_step_base(
                        &s0,
                        &mid,
                        mid.nodes@,
                        self,
                        d0.portnum,
                        d0.payload@,
                        packet.from,
                        packet.to,
                        rx_time,
                        id,
                        now,
                    );
                    reveal(packet_processed);
                    let o = PacketOutcome { id, status, payload: Some(outcome) };
                    assert(packet_effects(&s0, self, nodes1, *packet, d0, status, id, now, o));
                }
                Ok(PacketOutcome { id, status, payload: Some(outcome) })
            },
            _ => {
                proof {
                    reveal(packet_processed);
                    let o = PacketOutcome { id, status, payload: None };
                    assert(packet_effects(&s0, self, nodes1, *packet, d0, status, id, now, o));
                }
                Ok(PacketOutcome { id, status, payload: None })
            },
        }
    }
}

} // verus!
