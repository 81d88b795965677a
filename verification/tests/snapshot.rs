use status_agent::numeral::Numeral;
use status_agent::snapshot::StatusSnapshot;

fn rendered(value: f64) -> Numeral {
    Numeral::parse(serde_json::to_string(&value).unwrap().as_bytes()).unwrap()
}

fn snapshot_with(load: f64, cpu: f64) -> StatusSnapshot {
    StatusSnapshot {
        uptime: 86400,
        load: rendered(load),
        memory_total: 16_000_000,
        memory_used: 4_000_000,
        swap_total: 16_000_000,
        swap_used: 1_000_000,
        hdd_total: 500_000,
        hdd_used: 120_000,
        cpu: rendered(cpu),
        network_rx: 1024,
        network_tx: 2048,
        network_in: 9_000_000_000,
        network_out: 7_000_000_000,
        online4: true,
        online6: false,
    }
}

fn zero_snapshot() -> StatusSnapshot {
    StatusSnapshot {
        uptime: 0,
        load: rendered(0.0),
        memory_total: 0,
        memory_used: 0,
        swap_total: 0,
        swap_used: 0,
        hdd_total: 0,
        hdd_used: 0,
        cpu: rendered(0.0),
        network_rx: 0,
        network_tx: 0,
        network_in: 0,
        network_out: 0,
        online4: false,
        online6: false,
    }
}

const KEYS: [&str; 15] = [
    "uptime",
    "load",
    "memory_total",
    "memory_used",
    "swap_total",
    "swap_used",
    "hdd_total",
    "hdd_used",
    "cpu",
    "network_rx",
    "network_tx",
    "network_in",
    "network_out",
    "online4",
    "online6",
];

#[test]
fn update_line_is_the_exact_wire_text() {
    let line = snapshot_with(0.52, 12.5).update_line();
    let expected = "update {\"uptime\":86400,\"load\":0.52,\"memory_total\":16000000,\
\"memory_used\":4000000,\"swap_total\":16000000,\"swap_used\":1000000,\
\"hdd_total\":500000,\"hdd_used\":120000,\"cpu\":12.5,\"network_rx\":1024,\
\"network_tx\":2048,\"network_in\":9000000000,\"network_out\":7000000000,\
\"online4\":true,\"online6\":false}\n";
    assert_eq!(String::from_utf8(line).unwrap(), expected);
}

#[test]
fn json_of_the_zero_snapshot() {
    let json = zero_snapshot().to_json();
    let expected = "{\"uptime\":0,\"load\":0.0,\"memory_total\":0,\"memory_used\":0,\
\"swap_total\":0,\"swap_used\":0,\"hdd_total\":0,\"hdd_used\":0,\"cpu\":0.0,\
\"network_rx\":0,\"network_tx\":0,\"network_in\":0,\"network_out\":0,\
\"online4\":false,\"online6\":false}";
    assert_eq!(String::from_utf8(json).unwrap(), expected);
}

#[test]
fn update_line_frames_the_json() {
    let snapshot = snapshot_with(1.25, 99.5);
    let json = snapshot.to_json();
    let line = snapshot.update_line();
    let mut expected = b"update ".to_vec();
    expected.extend_from_slice(&json);
    expected.push(b'\n');
    assert_eq!(line, expected);
}

#[test]
fn update_line_is_one_line() {
    for snapshot in [snapshot_with(0.52, 12.5), zero_snapshot(), snapshot_with(1e-7, 1e21)] {
        let line = snapshot.update_line();
        assert_eq!(line.last(), Some(&b'\n'));
        assert_eq!(line.iter().filter(|byte| **byte == b'\n').count(), 1);
        assert!(line.starts_with(b"update {"));
    }
}

#[test]
fn parsed_line_has_the_fifteen_keys_and_the_values() {
    let snapshot = snapshot_with(0.52, 12.5);
    let line = snapshot.update_line();
    let text = std::str::from_utf8(&line).unwrap();
    let json = text.strip_prefix("update ").unwrap().strip_suffix("\n").unwrap();
    let value: serde_json::Value = serde_json::from_str(json).unwrap();
    let object = value.as_object().unwrap();
    assert_eq!(object.len(), 15);
    for key in KEYS {
        assert!(object.contains_key(key), "{}", key);
    }
    assert_eq!(object["uptime"].as_u64(), Some(86400));
    assert!((object["load"].as_f64().unwrap() - 0.52).abs() < 1e-12);
    assert_eq!(object["memory_total"].as_u64(), Some(16_000_000));
    assert_eq!(object["memory_used"].as_u64(), Some(4_000_000));
    assert_eq!(object["swap_total"].as_u64(), Some(16_000_000));
    assert_eq!(object["swap_used"].as_u64(), Some(1_000_000));
    assert_eq!(object["hdd_total"].as_u64(), Some(500_000));
    assert_eq!(object["hdd_used"].as_u64(), Some(120_000));
    assert!((object["cpu"].as_f64().unwrap() - 12.5).abs() < 1e-12);
    assert_eq!(object["network_rx"].as_u64(), Some(1024));
    assert_eq!(object["network_tx"].as_u64(), Some(2048));
    assert_eq!(object["network_in"].as_u64(), Some(9_000_000_000));
    assert_eq!(object["network_out"].as_u64(), Some(7_000_000_000));
    assert_eq!(object["online4"].as_bool(), Some(true));
    assert_eq!(object["online6"].as_bool(), Some(false));
    assert!(object["load"].is_f64());
    assert!(object["cpu"].is_f64());
    assert!(object["uptime"].is_u64());
}

#[test]
fn parsed_json_equals_the_object_built_member_by_member() {
    let snapshot = snapshot_with(3.75, 42.125);
    let parsed: serde_json::Value = serde_json::from_slice(&snapshot.to_json()).unwrap();
    let mut object = serde_json::Map::new();
    object.insert("uptime".to_string(), serde_json::Value::from(86400u64));
    object.insert("load".to_string(), serde_json::Value::from(3.75f64));
    object.insert("memory_total".to_string(), serde_json::Value::from(16_000_000u64));
    object.insert("memory_used".to_string(), serde_json::Value::from(4_000_000u64));
    object.insert("swap_total".to_string(), serde_json::Value::from(16_000_000u64));
    object.insert("swap_used".to_string(), serde_json::Value::from(1_000_000u64));
    object.insert("hdd_total".to_string(), serde_json::Value::from(500_000u64));
    object.insert("hdd_used".to_string(), serde_json::Value::from(120_000u64));
    object.insert("cpu".to_string(), serde_json::Value::from(42.125f64));
    object.insert("network_rx".to_string(), serde_json::Value::from(1024u64));
    object.insert("network_tx".to_string(), serde_json::Value::from(2048u64));
    object.insert("network_in".to_string(), serde_json::Value::from(9_000_000_000u64));
    object.insert("network_out".to_string(), serde_json::Value::from(7_000_000_000u64));
    object.insert("online4".to_string(), serde_json::Value::from(true));
    object.insert("online6".to_string(), serde_json::Value::from(false));
    assert_eq!(parsed, serde_json::Value::Object(object));
}

#[test]
fn keys_stand_in_the_order_of_the_report() {
    let json = String::from_utf8(snapshot_with(0.52, 12.5).to_json()).unwrap();
    let mut from = 0;
    for key in KEYS {
        let quoted = format!("\"{}\":", key);
        let at = json[from..].find(&quoted);
        assert!(at.is_some(), "{}", key);
        from += at.unwrap() + quoted.len();
    }
}

#[test]
fn largest_counters_survive_the_round_trip() {
    let snapshot = StatusSnapshot {
        uptime: u64::MAX,
        load: rendered(1e21),
        memory_total: u64::MAX,
        memory_used: u64::MAX - 1,
        swap_total: u64::MAX,
        swap_used: 0,
        hdd_total: u64::MAX,
        hdd_used: 1,
        cpu: rendered(100.0),
        network_rx: u64::MAX,
        network_tx: 0,
        network_in: u64::MAX,
        network_out: u64::MAX,
        online4: false,
        online6: true,
    };
    let value: serde_json::Value = serde_json::from_slice(&snapshot.to_json()).unwrap();
    assert_eq!(value["uptime"].as_u64(), Some(u64::MAX));
    assert_eq!(value["memory_used"].as_u64(), Some(u64::MAX - 1));
    assert_eq!(value["network_tx"].as_u64(), Some(0));
    assert_eq!(value["load"].as_f64(), Some(1e21));
    assert_eq!(value["cpu"].as_f64(), Some(100.0));
    assert_eq!(value["online4"].as_bool(), Some(false));
    assert_eq!(value["online6"].as_bool(), Some(true));
}

#[test]
fn snapshots_that_differ_give_lines_that_differ() {
    let base = snapshot_with(0.52, 12.5).update_line();
    let mut other = snapshot_with(0.52, 12.5);
    other.uptime = 86401;
    assert_ne!(other.update_line(), base);
    let mut other = snapshot_with(0.52, 12.5);
    other.online6 = true;
    assert_ne!(other.update_line(), base);
    let mut other = snapshot_with(0.52, 12.5);
    other.network_rx = 10;
    other.network_tx = 242048;
    assert_ne!(other.update_line(), base);
    assert_ne!(snapshot_with(0.52, 12.25).update_line(), base);
    assert_ne!(snapshot_with(0.5, 12.5).update_line(), base);
    assert_eq!(snapshot_with(0.52, 12.5).update_line(), base);
}

#[test]
fn fractional_readings_stand_in_the_line_as_they_were_rendered() {
    let snapshot = StatusSnapshot {
        load: Numeral::parse(b"1.50").unwrap(),
        cpu: Numeral::parse(b"2E+1").unwrap(),
        ..zero_snapshot()
    };
    let json = String::from_utf8(snapshot.to_json()).unwrap();
    assert!(json.contains("\"load\":1.50,"));
    assert!(json.contains("\"cpu\":2E+1,"));
}

#[test]
fn readings_go_where_they_belong() {
    let snapshot = StatusSnapshot::from_readings(
        1,
        rendered(2.5),
        (3, 4, 5, 6),
        (7, 8),
        rendered(9.5),
        (10, 11),
        (12, 13),
        true,
        false,
    );
    let expected = StatusSnapshot {
        uptime: 1,
        load: rendered(2.5),
        memory_total: 3,
        memory_used: 4,
        swap_total: 5,
        swap_used: 6,
        hdd_total: 7,
        hdd_used: 8,
        cpu: rendered(9.5),
        network_rx: 10,
        network_tx: 11,
        network_in: 12,
        network_out: 13,
        online4: true,
        online6: false,
    };
    assert_eq!(snapshot, expected);
    let json = String::from_utf8(snapshot.to_json()).unwrap();
    let wanted = "{\"uptime\":1,\"load\":2.5,\"memory_total\":3,\"memory_used\":4,\
\"swap_total\":5,\"swap_used\":6,\"hdd_total\":7,\"hdd_used\":8,\"cpu\":9.5,\
\"network_rx\":10,\"network_tx\":11,\"network_in\":12,\"network_out\":13,\
\"online4\":true,\"online6\":false}";
    assert_eq!(json, wanted);
}

#[test]
fn readings_keep_the_two_ip_versions_apart() {
    let snapshot = StatusSnapshot::from_readings(
        0,
        rendered(0.0),
        (0, 0, 0, 0),
        (0, 0),
        rendered(0.0),
        (0, 0),
        (0, 0),
        false,
        true,
    );
    assert!(!snapshot.online4);
    assert!(snapshot.online6);
}
