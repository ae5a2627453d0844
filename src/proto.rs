//! The mesh protocol's messages, decoded from their binary form.
//!
//! Each message has a schema: the encoding that each field number it reads must
//! have. Numbers a message does not read are skipped. Scalars take their last
//! occurrence; an embedded message sent in parts is decoded from its parts
//! joined. `float` fields are kept as their IEEE 754 single-precision bits.
use crate::fields::{
    bytes_or_empty, fields_of, fixed_u32, get_bytes_or_empty, get_bool, get_fixed32, get_fixed_u32,
    get_i32, get_joined, get_oneof, get_opt_i32, get_opt_sfixed32, get_opt_sint32, get_opt_u32,
    get_ranges, get_repeated_fixed32, get_u32, joined_bytes, last_fixed32,
    len_ranges, message_fields, oneof_choice, opt_sfixed32, opt_sint32, opt_varint_i32,
    opt_varint_u32, ranges_within, repeated_fixed32, varint_bool, varint_i32, varint_u32,
    well_formed, KIND_ANY, KIND_FIXED32, KIND_LEN, KIND_PACKED_FIXED32, KIND_VARINT,
};
use crate::wire::Field;
use vstd::prelude::*;
use vstd::utf8::{decode_utf8, valid_utf8};

verus! {

/// Relies on std's `String::from_utf8`: the bytes become a string exactly when
/// they are valid UTF-8, and the string holds the characters they encode.
#[verifier::external_body]
fn utf8_to_string(bytes: Vec<u8>) -> (r: Option<String>)
    ensures
        r is Some <==> valid_utf8(bytes@),
        r matches Some(s) ==> s@ == decode_utf8(bytes@),
{
    String::from_utf8(bytes).ok()
}

/// A `string` field holds valid UTF-8 (an absent one is empty).
pub open spec fn string_ok(buf: Seq<u8>, fs: Seq<Field>, n: u32) -> bool {
    valid_utf8(bytes_or_empty(buf, fs, n))
}

/// The characters of a `string` field.
pub open spec fn string_of(buf: Seq<u8>, fs: Seq<Field>, n: u32) -> Seq<char> {
    decode_utf8(bytes_or_empty(buf, fs, n))
}

fn get_string(buf: &[u8], fs: &Vec<Field>, n: u32) -> (r: Option<String>)
    requires
        ranges_within(fs@, buf@.len() as int),
    ensures
        r is Some <==> string_ok(buf@, fs@, n),
        r matches Some(s) ==> s@ == string_of(buf@, fs@, n),
{
    utf8_to_string(get_bytes_or_empty(buf, fs, n))
}

// ---------------------------------------------------------------- Position

/// A position report. Latitude and longitude are degrees times 10^7.
#[derive(Clone, Copy, PartialEq, Eq, Debug)]
pub struct Position {
    pub latitude_i: Option<i32>,
    pub longitude_i: Option<i32>,
    /// Metres, as sent.
    pub altitude: Option<i32>,
    /// Seconds since the epoch.
    pub time: u32,
    pub location_source: i32,
    pub altitude_source: i32,
    /// Seconds since the epoch at which the fix was taken; 0 when not sent.
    pub timestamp: u32,
    pub timestamp_millis_adjust: i32,
    pub altitude_hae: Option<i32>,
    pub altitude_geoidal_separation: Option<i32>,
    pub pdop: u32,
    pub hdop: u32,
    pub vdop: u32,
    pub gps_accuracy: u32,
    pub ground_speed: Option<u32>,
    pub ground_track: Option<u32>,
    pub fix_quality: u32,
    pub fix_type: u32,
    pub sats_in_view: u32,
    pub sensor_id: u32,
    pub next_update: u32,
    pub seq_number: u32,
    pub precision_bits: u32,
}

pub open spec fn position_schema() -> Seq<u8> {
    seq![
        KIND_ANY, KIND_FIXED32, KIND_FIXED32, KIND_VARINT, KIND_FIXED32, KIND_VARINT,
        KIND_VARINT, KIND_FIXED32, KIND_VARINT, KIND_VARINT, KIND_VARINT, KIND_VARINT,
        KIND_VARINT, KIND_VARINT, KIND_VARINT, KIND_VARINT, KIND_VARINT, KIND_VARINT,
        KIND_VARINT, KIND_VARINT, KIND_VARINT, KIND_VARINT, KIND_VARINT, KIND_VARINT,
    ]
}

pub open spec fn position_of(buf: Seq<u8>) -> Option<Position> {
    if !well_formed(buf, position_schema()) {
        None
    } else {
        let fs = fields_of(buf);
        Some(
            Position {
                latitude_i: opt_sfixed32(fs, 1),
                longitude_i: opt_sfixed32(fs, 2),
                altitude: opt_varint_i32(fs, 3),
                time: fixed_u32(fs, 4),
                location_source: varint_i32(fs, 5),
                altitude_source: varint_i32(fs, 6),
                timestamp: fixed_u32(fs, 7),
                timestamp_millis_adjust: varint_i32(fs, 8),
                altitude_hae: opt_sint32(fs, 9),
                altitude_geoidal_separation: opt_sint32(fs, 10),
                pdop: varint_u32(fs, 11),
                hdop: varint_u32(fs, 12),
                vdop: varint_u32(fs, 13),
                gps_accuracy: varint_u32(fs, 14),
                ground_speed: opt_varint_u32(fs, 15),
                ground_track: opt_varint_u32(fs, 16),
                fix_quality: varint_u32(fs, 17),
                fix_type: varint_u32(fs, 18),
                sats_in_view: varint_u32(fs, 19),
                sensor_id: varint_u32(fs, 20),
                next_update: varint_u32(fs, 21),
                seq_number: varint_u32(fs, 22),
                precision_bits: varint_u32(fs, 23),
            },
        )
    }
}

pub fn decode_position(buf: &[u8]) -> (r: Option<Position>)
    ensures
        r == position_of(buf@),
{
    let schema = vec![
        KIND_ANY, KIND_FIXED32, KIND_FIXED32, KIND_VARINT, KIND_FIXED32, KIND_VARINT,
        KIND_VARINT, KIND_FIXED32, KIND_VARINT, KIND_VARINT, KIND_VARINT, KIND_VARINT,
        KIND_VARINT, KIND_VARINT, KIND_VARINT, KIND_VARINT, KIND_VARINT, KIND_VARINT,
        KIND_VARINT, KIND_VARINT, KIND_VARINT, KIND_VARINT, KIND_VARINT, KIND_VARINT,
    ];
    proof {
        assert(schema@ =~= position_schema());
    }
    let fs = match message_fields(buf, &schema) {
        Some(fs) => fs,
        None => return None,
    };
    Some(
        Position {
            latitude_i: get_opt_sfixed32(&fs, 1),
            longitude_i: get_opt_sfixed32(&fs, 2),
            altitude: get_opt_i32(&fs, 3),
            time: get_fixed_u32(&fs, 4),
            location_source: get_i32(&fs, 5),
            altitude_source: get_i32(&fs, 6),
            timestamp: get_fixed_u32(&fs, 7),
            timestamp_millis_adjust: get_i32(&fs, 8),
            altitude_hae: get_opt_sint32(&fs, 9),
            altitude_geoidal_separation: get_opt_sint32(&fs, 10),
            pdop: get_u32(&fs, 11),
            hdop: get_u32(&fs, 12),
            vdop: get_u32(&fs, 13),
            gps_accuracy: get_u32(&fs, 14),
            ground_speed: get_opt_u32(&fs, 15),
            ground_track: get_opt_u32(&fs, 16),
            fix_quality: get_u32(&fs, 17),
            fix_type: get_u32(&fs, 18),
            sats_in_view: get_u32(&fs, 19),
            sensor_id: get_u32(&fs, 20),
            next_update: get_u32(&fs, 21),
            seq_number: get_u32(&fs, 22),
            precision_bits: get_u32(&fs, 23),
        },
    )
}

// ---------------------------------------------------------------- Telemetry

/// Battery and radio-use figures of a device; `float` values as bits.
#[derive(Clone, Copy, PartialEq, Eq, Debug)]
pub struct DeviceMetrics {
    pub battery_level: Option<u32>,
    pub voltage: Option<u32>,
    pub channel_utilization: Option<u32>,
    pub air_util_tx: Option<u32>,
    pub uptime_seconds: Option<u32>,
}

/// Sensor readings of a device's surroundings; `float` values as bits.
#[derive(Clone, Copy, PartialEq, Eq, Debug)]
pub struct EnvironmentMetrics {
    pub temperature: Option<u32>,
    pub relative_humidity: Option<u32>,
    pub barometric_pressure: Option<u32>,
    pub gas_resistance: Option<u32>,
    pub iaq: Option<u32>,
}

/// Voltage and current of three power channels; `float` values as bits.
#[derive(Clone, Copy, PartialEq, Eq, Debug)]
pub struct PowerMetrics {
    pub ch1_voltage: Option<u32>,
    pub ch1_current: Option<u32>,
    pub ch2_voltage: Option<u32>,
    pub ch2_current: Option<u32>,
    pub ch3_voltage: Option<u32>,
    pub ch3_current: Option<u32>,
}

/// Which kind of telemetry a report carries. `Other` names the field number of
/// a kind this library does not read.
#[derive(Clone, Copy, PartialEq, Eq, Debug)]
pub enum TelemetryVariant {
    DeviceMetrics(DeviceMetrics),
    EnvironmentMetrics(EnvironmentMetrics),
    PowerMetrics(PowerMetrics),
    Other(u32),
}

#[derive(Clone, Copy, PartialEq, Eq, Debug)]
pub struct Telemetry {
    /// Seconds since the epoch; 0 when not sent.
    pub time: u32,
    pub variant: Option<TelemetryVariant>,
}

pub open spec fn device_metrics_schema() -> Seq<u8> {
    seq![KIND_ANY, KIND_VARINT, KIND_FIXED32, KIND_FIXED32, KIND_FIXED32, KIND_VARINT]
}

pub open spec fn device_metrics_of(buf: Seq<u8>) -> Option<DeviceMetrics> {
    if !well_formed(buf, device_metrics_schema()) {
        None
    } else {
        let fs = fields_of(buf);
        Some(
            DeviceMetrics {
                battery_level: opt_varint_u32(fs, 1),
                voltage: last_fixed32(fs, 2),
                channel_utilization: last_fixed32(fs, 3),
                air_util_tx: last_fixed32(fs, 4),
                uptime_seconds: opt_varint_u32(fs, 5),
            },
        )
    }
}

pub fn decode_device_metrics(buf: &[u8]) -> (r: Option<DeviceMetrics>)
    ensures
        r == device_metrics_of(buf@),
{
    let schema = vec![KIND_ANY, KIND_VARINT, KIND_FIXED32, KIND_FIXED32, KIND_FIXED32, KIND_VARINT];
    proof {
        assert(schema@ =~= device_metrics_schema());
    }
    let fs = match message_fields(buf, &schema) {
        Some(fs) => fs,
        None => return None,
    };
    Some(
        DeviceMetrics {
            battery_level: get_opt_u32(&fs, 1),
            voltage: get_fixed32(&fs, 2),
            channel_utilization: get_fixed32(&fs, 3),
            air_util_tx: get_fixed32(&fs, 4),
            uptime_seconds: get_opt_u32(&fs, 5),
        },
    )
}

pub open spec fn environment_metrics_schema() -> Seq<u8> {
    seq![
        KIND_ANY, KIND_FIXED32, KIND_FIXED32, KIND_FIXED32, KIND_FIXED32, KIND_FIXED32,
        KIND_FIXED32, KIND_VARINT,
    ]
}

pub open spec fn environment_metrics_of(buf: Seq<u8>) -> Option<EnvironmentMetrics> {
    if !well_formed(buf, environment_metrics_schema()) {
        None
    } else {
        let fs = fields_of(buf);
        Some(
            EnvironmentMetrics {
                temperature: last_fixed32(fs, 1),
                relative_humidity: last_fixed32(fs, 2),
                barometric_pressure: last_fixed32(fs, 3),
                gas_resistance: last_fixed32(fs, 4),
                iaq: opt_varint_u32(fs, 7),
            },
        )
    }
}

pub fn decode_environment_metrics(buf: &[u8]) -> (r: Option<EnvironmentMetrics>)
    ensures
        r == environment_metrics_of(buf@),
{
    let schema = vec![
        KIND_ANY, KIND_FIXED32, KIND_FIXED32, KIND_FIXED32, KIND_FIXED32, KIND_FIXED32,
        KIND_FIXED32, KIND_VARINT,
    ];
    proof {
        assert(schema@ =~= environment_metrics_schema());
    }
    let fs = match message_fields(buf, &schema) {
        Some(fs) => fs,
        None => return None,
    };
    Some(
        EnvironmentMetrics {
            temperature: get_fixed32(&fs, 1),
            relative_humidity: get_fixed32(&fs, 2),
            barometric_pressure: get_fixed32(&fs, 3),
            gas_resistance: get_fixed32(&fs, 4),
            iaq: get_opt_u32(&fs, 7),
        },
    )
}

pub open spec fn power_metrics_schema() -> Seq<u8> {
    seq![
        KIND_ANY, KIND_FIXED32, KIND_FIXED32, KIND_FIXED32, KIND_FIXED32, KIND_FIXED32,
        KIND_FIXED32,
    ]
}

pub open spec fn power_metrics_of(buf: Seq<u8>) -> Option<PowerMetrics> {
    if !well_formed(buf, power_metrics_schema()) {
        None
    } else {
        let fs = fields_of(buf);
        Some(
            PowerMetrics {
                ch1_voltage: last_fixed32(fs, 1),
                ch1_current: last_fixed32(fs, 2),
                ch2_voltage: last_fixed32(fs, 3),
                ch2_current: last_fixed32(fs, 4),
                ch3_voltage: last_fixed32(fs, 5),
                ch3_current: last_fixed32(fs, 6),
            },
        )
    }
}

pub fn decode_power_metrics(buf: &[u8]) -> (r: Option<PowerMetrics>)
    ensures
        r == power_metrics_of(buf@),
{
    let schema = vec![
        KIND_ANY, KIND_FIXED32, KIND_FIXED32, KIND_FIXED32, KIND_FIXED32, KIND_FIXED32,
        KIND_FIXED32,
    ];
    proof {
        assert(schema@ =~= power_metrics_schema());
    }
    let fs = match message_fields(buf, &schema) {
        Some(fs) => fs,
        None => return None,
    };
    Some(
        PowerMetrics {
            ch1_voltage: get_fixed32(&fs, 1),
            ch1_current: get_fixed32(&fs, 2),
            ch2_voltage: get_fixed32(&fs, 3),
            ch2_current: get_fixed32(&fs, 4),
            ch3_voltage: get_fixed32(&fs, 5),
            ch3_current: get_fixed32(&fs, 6),
        },
    )
}

/// Field numbers of the telemetry kinds: 2 device, 3 environment, 5 power;
/// 4 and 6 to 8 are kinds this library does not read.
pub open spec fn telemetry_schema() -> Seq<u8> {
    seq![KIND_ANY, KIND_FIXED32, KIND_LEN, KIND_LEN, KIND_LEN, KIND_LEN, KIND_LEN, KIND_LEN, KIND_LEN]
}

pub open spec fn telemetry_of(buf: Seq<u8>) -> Option<Telemetry> {
    if !well_formed(buf, telemetry_schema()) {
        None
    } else {
        let fs = fields_of(buf);
        let time = fixed_u32(fs, 1);
        let (m, s) = oneof_choice(fs, 2, 8);
        let part = joined_bytes(buf, fs, m, s);
        if m == 0 {
            Some(Telemetry { time, variant: None })
        } else if m == 2 {
            match device_metrics_of(part) {
                Some(d) => Some(
                    Telemetry { time, variant: Some(TelemetryVariant::DeviceMetrics(d)) },
                ),
                None => None,
            }
        } else if m == 3 {
            match environment_metrics_of(part) {
                Some(e) => Some(
                    Telemetry { time, variant: Some(TelemetryVariant::EnvironmentMetrics(e)) },
                ),
                None => None,
            }
        } else if m == 5 {
            match power_metrics_of(part) {
                Some(p) => Some(Telemetry { time, variant: Some(TelemetryVariant::PowerMetrics(p)) }),
                None => None,
            }
        } else {
            Some(Telemetry { time, variant: Some(TelemetryVariant::Other(m)) })
        }
    }
}

pub fn decode_telemetry(buf: &[u8]) -> (r: Option<Telemetry>)
    ensures
        r == telemetry_of(buf@),
{
    let schema = vec![
        KIND_ANY, KIND_FIXED32, KIND_LEN, KIND_LEN, KIND_LEN, KIND_LEN, KIND_LEN, KIND_LEN, KIND_LEN,
    ];
    proof {
        assert(schema@ =~= telemetry_schema());
    }
    let fs = match message_fields(buf, &schema) {
        Some(fs) => fs,
        None => return None,
    };
    let time = get_fixed_u32(&fs, 1);
    let (m, s) = get_oneof(&fs, 2, 8);
    if m == 0 {
        return Some(Telemetry { time, variant: None });
    }
    let part = get_joined(buf, &fs, m, s);
    if m == 2 {
        match decode_device_metrics(part.as_slice()) {
            Some(d) => Some(Telemetry { time, variant: Some(TelemetryVariant::DeviceMetrics(d)) }),
            None => None,
        }
    } else if m == 3 {
        match decode_environment_metrics(part.as_slice()) {
            Some(e) => Some(
                Telemetry { time, variant: Some(TelemetryVariant::EnvironmentMetrics(e)) },
            ),
            None => None,
        }
    } else if m == 5 {
        match decode_power_metrics(part.as_slice()) {
            Some(p) => Some(Telemetry { time, variant: Some(TelemetryVariant::PowerMetrics(p)) }),
            None => None,
        }
    } else {
        Some(Telemetry { time, variant: Some(TelemetryVariant::Other(m)) })
    }
}

// ---------------------------------------------------------------- Neighbors

/// One neighbour heard by the reporting node; `snr` as `float` bits.
#[derive(Clone, Copy, PartialEq, Eq, Debug)]
pub struct Neighbor {
    pub node_id: u32,
    pub snr: u32,
}

/// The neighbours a node reports hearing.
#[derive(Clone, PartialEq, Eq, Debug)]
pub struct NeighborInfo {
    pub node_id: u32,
    pub neighbors: Vec<Neighbor>,
}

pub open spec fn neighbor_schema() -> Seq<u8> {
    seq![KIND_ANY, KIND_VARINT, KIND_FIXED32, KIND_FIXED32, KIND_VARINT]
}

pub open spec fn neighbor_of(buf: Seq<u8>) -> Option<Neighbor> {
    if !well_formed(buf, neighbor_schema()) {
        None
    } else {
        let fs = fields_of(buf);
        Some(Neighbor { node_id: varint_u32(fs, 1), snr: fixed_u32(fs, 2) })
    }
}

pub fn decode_neighbor(buf: &[u8]) -> (r: Option<Neighbor>)
    ensures
        r == neighbor_of(buf@),
{
    let schema = vec![KIND_ANY, KIND_VARINT, KIND_FIXED32, KIND_FIXED32, KIND_VARINT];
    proof {
        assert(schema@ =~= neighbor_schema());
    }
    let fs = match message_fields(buf, &schema) {
        Some(fs) => fs,
        None => return None,
    };
    Some(Neighbor { node_id: get_u32(&fs, 1), snr: get_fixed_u32(&fs, 2) })
}

pub open spec fn neighbor_info_schema() -> Seq<u8> {
    seq![KIND_ANY, KIND_VARINT, KIND_VARINT, KIND_VARINT, KIND_LEN]
}

/// The bytes of the `i`th neighbour entry.
pub open spec fn neighbor_part(buf: Seq<u8>, i: int) -> Seq<u8> {
    let r = len_ranges(fields_of(buf), 4)[i];
    buf.subrange(r.0 as int, r.1 as int)
}

/// The report parses and so does each of its neighbour entries.
pub open spec fn neighbor_info_ok(buf: Seq<u8>) -> bool {
    &&& well_formed(buf, neighbor_info_schema())
    &&& forall|i: int|
        0 <= i < len_ranges(fields_of(buf), 4).len() ==> #[trigger] neighbor_of(
            neighbor_part(buf, i),
        ) is Some
}

/// What a report that parses holds.
pub open spec fn neighbor_info_matches(buf: Seq<u8>, ni: NeighborInfo) -> bool {
    &&& ni.node_id == varint_u32(fields_of(buf), 1)
    &&& ni.neighbors@.len() == len_ranges(fields_of(buf), 4).len()
    &&& forall|i: int|
        0 <= i < ni.neighbors@.len() ==> neighbor_of(#[trigger] neighbor_part(buf, i)) == Some(
            ni.neighbors@[i],
        )
}

pub fn decode_neighbor_info(buf: &[u8]) -> (r: Option<NeighborInfo>)
    ensures
        r is Some <==> neighbor_info_ok(buf@),
        r matches Some(ni) ==> neighbor_info_matches(buf@, ni),
{
    let schema = vec![KIND_ANY, KIND_VARINT, KIND_VARINT, KIND_VARINT, KIND_LEN];
    proof {
        assert(schema@ =~= neighbor_info_schema());
    }
    let fs = match message_fields(buf, &schema) {
        Some(fs) => fs,
        None => return None,
    };
    let ranges = get_ranges(&fs, 4);
    let mut neighbors: Vec<Neighbor> = Vec::new();
    let mut i: usize = 0;
    while i < ranges.len()
        invariant
            fs@ == fields_of(buf@),
            well_formed(buf@, neighbor_info_schema()),
            ranges_within(fs@, buf@.len() as int),
            ranges@ == len_ranges(fs@, 4),
            i <= ranges@.len(),
            neighbors@.len() == i,
            forall|j: int| 0 <= j < i ==> neighbor_of(#[trigger] neighbor_part(buf@, j)) == Some(
                neighbors@[j],
            ),
        decreases ranges@.len() - i,
    {
        let (a, b) = ranges[i];
        proof {
            lemma_len_ranges_within(fs@, 4, buf@.len() as int, i as int);
        }
        let part = &buf[a..b];
        proof {
            assert(part@ == neighbor_part(buf@, i as int));
        }
        match decode_neighbor(part) {
            Some(n) => {
                neighbors.push(n);
            },
            None => {
                proof {
                    assert(neighbor_of(neighbor_part(buf@, i as int)) is None);
                }
                return None;
            },
        }
        i = i + 1;
    }
    Some(NeighborInfo { node_id: get_u32(&fs, 1), neighbors })
}

proof fn lemma_len_ranges_within(fs: Seq<Field>, n: u32, len: int, i: int)
    requires
        ranges_within(fs, len),
        0 <= i < len_ranges(fs, n).len(),
    ensures
        len_ranges(fs, n)[i].0 <= len_ranges(fs, n)[i].1 <= len,
    decreases fs.len(),
{
    if fs.len() > 0 {
        let prev = len_ranges(fs.drop_last(), n);
        assert(ranges_within(fs.drop_last(), len)) by {
            assert forall|j: int| 0 <= j < fs.drop_last().len() implies (
            #[trigger] fs.drop_last()[j].wire matches crate::wire::Wire::Len(a, b) ==> a <= b
                <= len) by {
                assert(fs.drop_last()[j] == fs[j]);
            }
        }
        if i < prev.len() {
            lemma_len_ranges_within(fs.drop_last(), n, len, i);
        } else {
            assert(fs[fs.len() - 1] == fs.last());
        }
    }
}

// ---------------------------------------------------------------- Routes

/// The nodes a route request or reply passed through.
#[derive(Clone, PartialEq, Eq, Debug)]
pub struct RouteDiscovery {
    pub route: Vec<u32>,
    pub route_back: Vec<u32>,
}

pub open spec fn route_discovery_schema() -> Seq<u8> {
    seq![KIND_ANY, KIND_PACKED_FIXED32, KIND_ANY, KIND_PACKED_FIXED32, KIND_ANY]
}

pub open spec fn route_discovery_ok(buf: Seq<u8>) -> bool {
    &&& well_formed(buf, route_discovery_schema())
    &&& repeated_fixed32(buf, fields_of(buf), 1) is Some
    &&& repeated_fixed32(buf, fields_of(buf), 3) is Some
}

pub open spec fn route_discovery_matches(buf: Seq<u8>, rd: RouteDiscovery) -> bool {
    &&& repeated_fixed32(buf, fields_of(buf), 1) == Some(rd.route@)
    &&& repeated_fixed32(buf, fields_of(buf), 3) == Some(rd.route_back@)
}

pub fn decode_route_discovery(buf: &[u8]) -> (r: Option<RouteDiscovery>)
    ensures
        r is Some <==> route_discovery_ok(buf@),
        r matches Some(rd) ==> route_discovery_matches(buf@, rd),
{
    let schema = vec![KIND_ANY, KIND_PACKED_FIXED32, KIND_ANY, KIND_PACKED_FIXED32, KIND_ANY];
    proof {
        assert(schema@ =~= route_discovery_schema());
    }
    let fs = match message_fields(buf, &schema) {
        Some(fs) => fs,
        None => return None,
    };
    let route = match get_repeated_fixed32(buf, &fs, 1) {
        Some(v) => v,
        None => return None,
    };
    let route_back = match get_repeated_fixed32(buf, &fs, 3) {
        Some(v) => v,
        None => return None,
    };
    Some(RouteDiscovery { route, route_back })
}

/// What a routing message carries.
#[derive(Clone, PartialEq, Eq, Debug)]
pub enum RoutingVariant {
    RouteRequest(RouteDiscovery),
    RouteReply(RouteDiscovery),
    ErrorReason(i32),
}

#[derive(Clone, PartialEq, Eq, Debug)]
pub struct Routing {
    pub variant: Option<RoutingVariant>,
}

pub open spec fn routing_schema() -> Seq<u8> {
    seq![KIND_ANY, KIND_LEN, KIND_LEN, KIND_VARINT]
}

/// The embedded route of a request (1) or reply (2).
pub open spec fn routing_part(buf: Seq<u8>) -> Seq<u8> {
    let (m, s) = oneof_choice(fields_of(buf), 1, 3);
    joined_bytes(buf, fields_of(buf), m, s)
}

pub open spec fn routing_ok(buf: Seq<u8>) -> bool {
    &&& well_formed(buf, routing_schema())
    &&& {
        let m = oneof_choice(fields_of(buf), 1, 3).0;
        (m == 1 || m == 2) ==> route_discovery_ok(routing_part(buf))
    }
}

pub open spec fn routing_matches(buf: Seq<u8>, r: Routing) -> bool {
    let m = oneof_choice(fields_of(buf), 1, 3).0;
    if m == 1 {
        r.variant matches Some(RoutingVariant::RouteRequest(rd)) && route_discovery_matches(
            routing_part(buf),
            rd,
        )
    } else if m == 2 {
        r.variant matches Some(RoutingVariant::RouteReply(rd)) && route_discovery_matches(
            routing_part(buf),
            rd,
        )
    } else if m == 3 {
        r.variant == Some(RoutingVariant::ErrorReason(varint_i32(fields_of(buf), 3)))
    } else {
        r.variant is None
    }
}

pub fn decode_routing(buf: &[u8]) -> (r: Option<Routing>)
    ensures
        r is Some <==> routing_ok(buf@),
        r matches Some(x) ==> routing_matches(buf@, x),
{
    let schema = vec![KIND_ANY, KIND_LEN, KIND_LEN, KIND_VARINT];
    proof {
        assert(schema@ =~= routing_schema());
    }
    let fs = match message_fields(buf, &schema) {
        Some(fs) => fs,
        None => return None,
    };
    let (m, s) = get_oneof(&fs, 1, 3);
    if m == 1 || m == 2 {
        let part = get_joined(buf, &fs, m, s);
        match decode_route_discovery(part.as_slice()) {
            Some(rd) => if m == 1 {
                Some(Routing { variant: Some(RoutingVariant::RouteRequest(rd)) })
            } else {
                Some(Routing { variant: Some(RoutingVariant::RouteReply(rd)) })
            },
            None => None,
        }
    } else if m == 3 {
        Some(Routing { variant: Some(RoutingVariant::ErrorReason(get_i32(&fs, 3))) })
    } else {
        Some(Routing { variant: None })
    }
}

// ---------------------------------------------------------------- Node identity

/// A node's identity as it announces it.
#[derive(Clone, PartialEq, Eq, Debug)]
pub struct User {
    pub id: String,
    pub long_name: String,
    pub short_name: String,
    pub hw_model: i32,
    pub is_licensed: bool,
    pub role: i32,
}

pub open spec fn user_schema() -> Seq<u8> {
    seq![KIND_ANY, KIND_LEN, KIND_LEN, KIND_LEN, KIND_LEN, KIND_VARINT, KIND_VARINT, KIND_VARINT, KIND_LEN]
}

pub open spec fn user_ok(buf: Seq<u8>) -> bool {
    &&& well_formed(buf, user_schema())
    &&& string_ok(buf, fields_of(buf), 1)
    &&& string_ok(buf, fields_of(buf), 2)
    &&& string_ok(buf, fields_of(buf), 3)
}

pub open spec fn user_matches(buf: Seq<u8>, u: User) -> bool {
    let fs = fields_of(buf);
    &&& u.id@ == string_of(buf, fs, 1)
    &&& u.long_name@ == string_of(buf, fs, 2)
    &&& u.short_name@ == string_of(buf, fs, 3)
    &&& u.hw_model == varint_i32(fs, 5)
    &&& u.is_licensed == varint_bool(fs, 6)
    &&& u.role == varint_i32(fs, 7)
}

pub fn decode_user(buf: &[u8]) -> (r: Option<User>)
    ensures
        r is Some <==> user_ok(buf@),
        r matches Some(u) ==> user_matches(buf@, u),
{
    let schema = vec![
        KIND_ANY, KIND_LEN, KIND_LEN, KIND_LEN, KIND_LEN, KIND_VARINT, KIND_VARINT, KIND_VARINT,
        KIND_LEN,
    ];
    proof {
        assert(schema@ =~= user_schema());
    }
    let fs = match message_fields(buf, &schema) {
        Some(fs) => fs,
        None => return None,
    };
    let id = match get_string(buf, &fs, 1) {
        Some(x) => x,
        None => return None,
    };
    let long_name = match get_string(buf, &fs, 2) {
        Some(x) => x,
        None => return None,
    };
    let short_name = match get_string(buf, &fs, 3) {
        Some(x) => x,
        None => return None,
    };
    Some(
        User {
            id,
            long_name,
            short_name,
            hw_model: get_i32(&fs, 5),
            is_licensed: get_bool(&fs, 6),
            role: get_i32(&fs, 7),
        },
    )
}

// ---------------------------------------------------------------- Waypoints

/// A named point shared on the mesh.
#[derive(Clone, PartialEq, Eq, Debug)]
pub struct Waypoint {
    pub id: u32,
    pub latitude_i: Option<i32>,
    pub longitude_i: Option<i32>,
    /// Seconds since the epoch; 0 when it does not expire.
    pub expire: u32,
    /// The node allowed to change it; 0 for anyone.
    pub locked_to: u32,
    pub name: String,
    pub description: String,
    /// A Unicode code point; 0 for none.
    pub icon: u32,
}

pub open spec fn waypoint_schema() -> Seq<u8> {
    seq![
        KIND_ANY, KIND_VARINT, KIND_FIXED32, KIND_FIXED32, KIND_VARINT, KIND_VARINT, KIND_LEN,
        KIND_LEN, KIND_FIXED32,
    ]
}

pub open spec fn waypoint_ok(buf: Seq<u8>) -> bool {
    &&& well_formed(buf, waypoint_schema())
    &&& string_ok(buf, fields_of(buf), 6)
    &&& string_ok(buf, fields_of(buf), 7)
}

pub open spec fn waypoint_matches(buf: Seq<u8>, w: Waypoint) -> bool {
    let fs = fields_of(buf);
    &&& w.id == varint_u32(fs, 1)
    &&& w.latitude_i == opt_sfixed32(fs, 2)
    &&& w.longitude_i == opt_sfixed32(fs, 3)
    &&& w.expire == varint_u32(fs, 4)
    &&& w.locked_to == varint_u32(fs, 5)
    &&& w.name@ == string_of(buf, fs, 6)
    &&& w.description@ == string_of(buf, fs, 7)
    &&& w.icon == fixed_u32(fs, 8)
}

pub fn decode_waypoint(buf: &[u8]) -> (r: Option<Waypoint>)
    ensures
        r is Some <==> waypoint_ok(buf@),
        r matches Some(w) ==> waypoint_matches(buf@, w),
{
    let schema = vec![
        KIND_ANY, KIND_VARINT, KIND_FIXED32, KIND_FIXED32, KIND_VARINT, KIND_VARINT, KIND_LEN,
        KIND_LEN, KIND_FIXED32,
    ];
    proof {
        assert(schema@ =~= waypoint_schema());
    }
    let fs = match message_fields(buf, &schema) {
        Some(fs) => fs,
        None => return None,
    };
    let name = match get_string(buf, &fs, 6) {
        Some(x) => x,
        None => return None,
    };
    let description = match get_string(buf, &fs, 7) {
        Some(x) => x,
        None => return None,
    };
    Some(
        Waypoint {
            id: get_u32(&fs, 1),
            latitude_i: get_opt_sfixed32(&fs, 2),
            longitude_i: get_opt_sfixed32(&fs, 3),
            expire: get_u32(&fs, 4),
            locked_to: get_u32(&fs, 5),
            name,
            description,
            icon: get_fixed_u32(&fs, 8),
        },
    )
}

// ---------------------------------------------------------------- Packets

/// The decoded content of a mesh packet: a port number that tags the payload's
/// kind, and the payload bytes.
#[derive(Clone, PartialEq, Eq, Debug)]
pub struct Data {
    pub portnum: i32,
    pub payload: Vec<u8>,
    pub want_response: bool,
    pub dest: u32,
    pub source: u32,
    pub request_id: u32,
    pub reply_id: u32,
    pub emoji: u32,
}

pub open spec fn data_schema() -> Seq<u8> {
    seq![
        KIND_ANY, KIND_VARINT, KIND_LEN, KIND_VARINT, KIND_FIXED32, KIND_FIXED32, KIND_FIXED32,
        KIND_FIXED32, KIND_FIXED32, KIND_VARINT,
    ]
}

pub open spec fn data_matches(buf: Seq<u8>, d: Data) -> bool {
    let fs = fields_of(buf);
    &&& d.portnum == varint_i32(fs, 1)
    &&& d.payload@ == bytes_or_empty(buf, fs, 2)
    &&& d.want_response == varint_bool(fs, 3)
    &&& d.dest == fixed_u32(fs, 4)
    &&& d.source == fixed_u32(fs, 5)
    &&& d.request_id == fixed_u32(fs, 6)
    &&& d.reply_id == fixed_u32(fs, 7)
    &&& d.emoji == fixed_u32(fs, 8)
}

pub fn decode_data(buf: &[u8]) -> (r: Option<Data>)
    ensures
        r is Some <==> well_formed(buf@, data_schema()),
        r matches Some(d) ==> data_matches(buf@, d),
{
    let schema = vec![
        KIND_ANY, KIND_VARINT, KIND_LEN, KIND_VARINT, KIND_FIXED32, KIND_FIXED32, KIND_FIXED32,
        KIND_FIXED32, KIND_FIXED32, KIND_VARINT,
    ];
    proof {
        assert(schema@ =~= data_schema());
    }
    let fs = match message_fields(buf, &schema) {
        Some(fs) => fs,
        None => return None,
    };
    Some(
        Data {
            portnum: get_i32(&fs, 1),
            payload: get_bytes_or_empty(buf, &fs, 2),
            want_response: get_bool(&fs, 3),
            dest: get_fixed_u32(&fs, 4),
            source: get_fixed_u32(&fs, 5),
            request_id: get_fixed_u32(&fs, 6),
            reply_id: get_fixed_u32(&fs, 7),
            emoji: get_fixed_u32(&fs, 8),
        },
    )
}

/// One packet as one gateway heard it. Its payload is either decoded (field
/// 4) or encrypted (field 5); only a decoded one is kept.
#[derive(Clone, PartialEq, Eq, Debug)]
pub struct MeshPacket {
    pub from: u32,
    pub to: u32,
    pub channel: u32,
    pub decoded: Option<Data>,
    /// The identifier the sending device gave the packet; 0 for none.
    pub id: u32,
    /// Seconds since the epoch.
    pub rx_time: u32,
    /// `float` bits.
    pub rx_snr: u32,
    pub hop_limit: u32,
    pub want_ack: bool,
    pub priority: i32,
    pub rx_rssi: i32,
    pub hop_start: u32,
}

pub open spec fn mesh_packet_schema() -> Seq<u8> {
    seq![
        KIND_ANY, KIND_FIXED32, KIND_FIXED32, KIND_VARINT, KIND_LEN, KIND_LEN, KIND_FIXED32,
        KIND_FIXED32, KIND_FIXED32, KIND_VARINT, KIND_VARINT, KIND_VARINT, KIND_VARINT,
        KIND_VARINT, KIND_VARINT, KIND_VARINT, KIND_LEN, KIND_VARINT,
    ]
}

/// The bytes of the payload member that is set.
pub open spec fn payload_part(buf: Seq<u8>) -> Seq<u8> {
    let (m, s) = oneof_choice(fields_of(buf), 4, 5);
    joined_bytes(buf, fields_of(buf), m, s)
}

pub open spec fn mesh_packet_ok(buf: Seq<u8>) -> bool {
    &&& well_formed(buf, mesh_packet_schema())
    &&& oneof_choice(fields_of(buf), 4, 5).0 == 4 ==> well_formed(payload_part(buf), data_schema())
}

pub open spec fn mesh_packet_matches(buf: Seq<u8>, p: MeshPacket) -> bool {
    let fs = fields_of(buf);
    &&& p.from == fixed_u32(fs, 1)
    &&& p.to == fixed_u32(fs, 2)
    &&& p.channel == varint_u32(fs, 3)
    &&& if oneof_choice(fs, 4, 5).0 == 4 {
        p.decoded matches Some(d) && data_matches(payload_part(buf), d)
    } else {
        p.decoded is None
    }
    &&& p.id == fixed_u32(fs, 6)
    &&& p.rx_time == fixed_u32(fs, 7)
    &&& p.rx_snr == fixed_u32(fs, 8)
    &&& p.hop_limit == varint_u32(fs, 9)
    &&& p.want_ack == varint_bool(fs, 10)
    &&& p.priority == varint_i32(fs, 11)
    &&& p.rx_rssi == varint_i32(fs, 12)
    &&& p.hop_start == varint_u32(fs, 15)
}

pub fn decode_mesh_packet(buf: &[u8]) -> (r: Option<MeshPacket>)
    ensures
        r is Some <==> mesh_packet_ok(buf@),
        r matches Some(p) ==> mesh_packet_matches(buf@, p),
{
    let schema = vec![
        KIND_ANY, KIND_FIXED32, KIND_FIXED32, KIND_VARINT, KIND_LEN, KIND_LEN, KIND_FIXED32,
        KIND_FIXED32, KIND_FIXED32, KIND_VARINT, KIND_VARINT, KIND_VARINT, KIND_VARINT,
        KIND_VARINT, KIND_VARINT, KIND_VARINT, KIND_LEN, KIND_VARINT,
    ];
    proof {
        assert(schema@ =~= mesh_packet_schema());
    }
    let fs = match message_fields(buf, &schema) {
        Some(fs) => fs,
        None => return None,
    };
    let (m, s) = get_oneof(&fs, 4, 5);
    let decoded = if m == 4 {
        let part = get_joined(buf, &fs, 4, s);
        match decode_data(part.as_slice()) {
            Some(d) => Some(d),
            None => return None,
        }
    } else {
        None
    };
    Some(
        MeshPacket {
            from: get_fixed_u32(&fs, 1),
            to: get_fixed_u32(&fs, 2),
            channel: get_u32(&fs, 3),
            decoded,
            id: get_fixed_u32(&fs, 6),
            rx_time: get_fixed_u32(&fs, 7),
            rx_snr: get_fixed_u32(&fs, 8),
            hop_limit: get_u32(&fs, 9),
            want_ack: get_bool(&fs, 10),
            priority: get_i32(&fs, 11),
            rx_rssi: get_i32(&fs, 12),
            hop_start: get_u32(&fs, 15),
        },
    )
}

/// The outer wrapper a gateway publishes: the packet it heard and its own
/// identifier.
#[derive(Clone, PartialEq, Eq, Debug)]
pub struct ServiceEnvelope {
    pub packet: Option<MeshPacket>,
    pub channel_id: String,
    pub gateway_id: String,
}

pub open spec fn service_envelope_schema() -> Seq<u8> {
    seq![KIND_ANY, KIND_LEN, KIND_LEN, KIND_LEN]
}

/// The packet is present when field 1 occurs; its parts are joined.
pub open spec fn has_packet(buf: Seq<u8>) -> bool {
    len_ranges(fields_of(buf), 1).len() > 0
}

pub open spec fn packet_part(buf: Seq<u8>) -> Seq<u8> {
    joined_bytes(buf, fields_of(buf), 1, 0)
}

pub open spec fn service_envelope_ok(buf: Seq<u8>) -> bool {
    &&& well_formed(buf, service_envelope_schema())
    &&& string_ok(buf, fields_of(buf), 2)
    &&& string_ok(buf, fields_of(buf), 3)
    &&& has_packet(buf) ==> mesh_packet_ok(packet_part(buf))
}

pub open spec fn service_envelope_matches(buf: Seq<u8>, e: ServiceEnvelope) -> bool {
    let fs = fields_of(buf);
    &&& e.channel_id@ == string_of(buf, fs, 2)
    &&& e.gateway_id@ == string_of(buf, fs, 3)
    &&& if has_packet(buf) {
        e.packet matches Some(p) && mesh_packet_matches(packet_part(buf), p)
    } else {
        e.packet is None
    }
}

pub fn decode_service_envelope(buf: &[u8]) -> (r: Option<ServiceEnvelope>)
    ensures
        r is Some <==> service_envelope_ok(buf@),
        r matches Some(e) ==> service_envelope_matches(buf@, e),
{
    let schema = vec![KIND_ANY, KIND_LEN, KIND_LEN, KIND_LEN];
    proof {
        assert(schema@ =~= service_envelope_schema());
    }
    let fs = match message_fields(buf, &schema) {
        Some(fs) => fs,
        None => return None,
    };
    let channel_id = match get_string(buf, &fs, 2) {
        Some(x) => x,
        None => return None,
    };
    let gateway_id = match get_string(buf, &fs, 3) {
        Some(x) => x,
        None => return None,
    };
    let ranges = get_ranges(&fs, 1);
    let packet = if ranges.len() > 0 {
        let part = get_joined(buf, &fs, 1, 0);
        match decode_mesh_packet(part.as_slice()) {
            Some(p) => Some(p),
            None => return None,
        }
    } else {
        None
    };
    Some(ServiceEnvelope { packet, channel_id, gateway_id })
}

} // verus!
