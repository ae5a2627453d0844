use meshstellar::proto::{decode_position, decode_telemetry, decode_user, decode_waypoint, TelemetryVariant};
use meshstellar::wire::{parse_fields, read_varint, Field, Wire};

#[test]
fn varint_examples() {
    assert_eq!(read_varint(&[0x01], 0), Some((1, 1)));
    assert_eq!(read_varint(&[0xAC, 0x02], 0), Some((300, 2)));
    assert_eq!(read_varint(&[0x80], 0), None);
    let max = [0xFF, 0xFF, 0xFF, 0xFF, 0xFF, 0xFF, 0xFF, 0xFF, 0xFF, 0x01];
    assert_eq!(read_varint(&max, 0), Some((u64::MAX, 10)));
    let too_big = [0xFF, 0xFF, 0xFF, 0xFF, 0xFF, 0xFF, 0xFF, 0xFF, 0xFF, 0x02];
    assert_eq!(read_varint(&too_big, 0), None);
    let eleven = [0x80, 0x80, 0x80, 0x80, 0x80, 0x80, 0x80, 0x80, 0x80, 0x80, 0x00];
    assert_eq!(read_varint(&eleven, 0), None);
}

#[test]
fn fields_in_order() {
    let buf = [0x08, 0x96, 0x01, 0x12, 0x02, b'h', b'i', 0x1D, 1, 0, 0, 0];
    let fs = parse_fields(&buf).unwrap();
    assert_eq!(
        fs,
        vec![
            Field { number: 1, wire: Wire::Varint(150) },
            Field { number: 2, wire: Wire::Len(5, 7) },
            Field { number: 3, wire: Wire::Fixed32(1) },
        ]
    );
    assert_eq!(parse_fields(&[0x12, 0x05, 1]), None);
    assert_eq!(parse_fields(&[0x0B]), None);
    assert_eq!(parse_fields(&[0x00, 0x01]), None);
    assert_eq!(parse_fields(&[]), Some(vec![]));
}

#[test]
fn latitude_scaling_round_trip() {
    let mut buf = vec![0x0D];
    buf.extend_from_slice(&71234567u32.to_le_bytes());
    buf.push(0x15);
    buf.extend_from_slice(&(-71234567i32 as u32).to_le_bytes());
    buf.extend_from_slice(&[0x18, 0xE8, 0x07]);
    let p = decode_position(&buf).unwrap();
    assert_eq!(p.latitude_i, Some(71234567));
    assert_eq!(p.longitude_i, Some(-71234567));
    assert_eq!(p.altitude, Some(1000));
    assert_eq!(meshstellar::util::format_mesh_gps(71234567, -71234567), "7.1234567, -7.1234567");
    assert_eq!((p.latitude_i.unwrap() as f64 / 1e7), 7.1234567);
}

#[test]
fn degrees_text_examples() {
    assert_eq!(meshstellar::util::format_mesh_gps(407128000, -740060000), "40.7128000, -74.0060000");
    assert_eq!(meshstellar::util::format_mesh_gps(0, -5), "0.0000000, -0.0000005");
    assert_eq!(meshstellar::util::format_mesh_gps(i32::MIN, i32::MAX), "-214.7483648, 214.7483647");
}

#[test]
fn position_fields_last_occurrence_wins() {
    let buf = [0x18, 0x05, 0x18, 0x07, 0x48, 0x03];
    let p = decode_position(&buf).unwrap();
    assert_eq!(p.altitude, Some(7));
    assert_eq!(p.altitude_hae, Some(-2));
    assert_eq!(p.latitude_i, None);
    assert_eq!(p.time, 0);
    assert_eq!(decode_position(&[0x0A, 0x00]), None);
}

#[test]
fn telemetry_variants() {
    let t = decode_telemetry(&[0x12, 0x02, 0x08, 0x32]).unwrap();
    match t.variant {
        Some(TelemetryVariant::DeviceMetrics(d)) => assert_eq!(d.battery_level, Some(50)),
        other => panic!("{:?}", other),
    }
    let t2 = decode_telemetry(&[0x22, 0x00]).unwrap();
    assert_eq!(t2.variant, Some(TelemetryVariant::Other(4)));
    assert_eq!(decode_telemetry(&[]).unwrap().variant, None);
}

#[test]
fn strings_must_be_utf8() {
    assert!(decode_user(&[0x12, 0x01, 0xFF]).is_none());
    let u = decode_user(&[0x12, 0x02, b'o', b'k']).unwrap();
    assert_eq!(u.long_name, "ok");
    assert_eq!(u.id, "");
    assert!(decode_waypoint(&[0x32, 0x01, 0xC0]).is_none());
}
