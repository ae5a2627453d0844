use meshstellar::config::get_config;
use meshstellar::dto::{GatewayPacketInfo, TracerouteDto};
use meshstellar::util::{demoji, format_node_id, none_if_default, parse_hexadecimal_id, parse_hex, ParseIdError};

#[test]
fn node_ids_render_as_bang_hex() {
    assert_eq!(format_node_id(0x0a2b3c4d), "!0a2b3c4d");
    assert_eq!(format_node_id(0), "!00000000");
    assert_eq!(format_node_id(0xFFFF_FFFF), "!ffffffff");
}

#[test]
fn hexadecimal_ids_parse() {
    assert_eq!(parse_hexadecimal_id("!0a2b3c4d"), Some(0x0a2b3c4d));
    assert_eq!(parse_hexadecimal_id("!FFFFFFFF"), Some(0xFFFF_FFFF));
    assert_eq!(parse_hexadecimal_id("0a2b3c4d"), None);
    assert_eq!(parse_hexadecimal_id("!"), None);
    assert_eq!(parse_hexadecimal_id("!+1f"), Some(0x1f));
    assert_eq!(parse_hexadecimal_id("!100000000"), None);
    assert_eq!(parse_hex(""), Err(ParseIdError::Empty));
    assert_eq!(parse_hex("+"), Err(ParseIdError::InvalidDigit));
    assert_eq!(parse_hex("12g"), Err(ParseIdError::InvalidDigit));
    assert_eq!(parse_hex("fffffffff"), Err(ParseIdError::PosOverflow));
    assert_eq!(parse_hex("fffffffffg"), Err(ParseIdError::PosOverflow));
}

#[test]
fn parse_errors_as_text() {
    assert_eq!(meshstellar::util::stringify(ParseIdError::InvalidDigit), "error: invalid digit found in string");
    assert_eq!(meshstellar::util::stringify(ParseIdError::Empty), "error: cannot parse integer from empty string");
    assert_eq!(meshstellar::util::stringify(ParseIdError::PosOverflow), "error: number too large to fit in target type");
}

#[test]
fn demoji_drops_emoji_only() {
    assert_eq!(demoji("Base \u{1F600} \u{2708}x\u{1F1E9}"), "Base  x");
    assert_eq!(demoji("plain"), "plain");
    assert_eq!(demoji(""), "");
}

#[test]
fn zero_means_absent() {
    assert_eq!(none_if_default(0), None);
    assert_eq!(none_if_default(-3), Some(-3));
}

#[test]
fn gateway_id_without_bang() {
    let g = GatewayPacketInfo { gateway_id: "!0a2b!3c4d".to_string(), num_packets: 3 };
    assert_eq!(g.raw_gateway_id(), "0a2b3c4d");
}

#[test]
fn traceroute_reply_swaps_ends() {
    let payload = [0x0D, 0x01, 0x00, 0x00, 0x00];
    let t = TracerouteDto::from_payload(5, 6, false, &payload).unwrap();
    assert!(t.is_response);
    assert_eq!((t.from_id, t.to_id), (6, 5));
    assert_eq!(t.route, vec![1]);
    let q = TracerouteDto::from_payload(5, 6, true, &payload).unwrap();
    assert_eq!((q.from_id, q.to_id, q.is_response), (5, 6, false));
    assert!(TracerouteDto::from_payload(5, 6, true, &[0x0A, 0x03, 1, 2, 3]).is_none());
}

#[test]
fn default_settings() {
    let c = get_config();
    assert_eq!(c.http_addr, "127.0.0.1:3000");
    assert_eq!(c.mqtt_port, 1883);
    assert_eq!(c.mqtt_topic, "meshtastic/#");
    assert_eq!(c.duplicate_window_secs, 3600);
    assert!(c.mqtt_auth);
}

#[test]
fn chart_labels() {
    let labels = meshstellar::dto::plot_labels();
    assert_eq!(labels.len(), 8);
    assert_eq!(labels[0], ("R".to_string(), "RX RSSI".to_string()));
    assert_eq!(labels[7], ("B".to_string(), "Barometric pressure".to_string()));
}
