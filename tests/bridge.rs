use enose_bridge::ingress::{ingress_step, IngressAction, IngressEvent};
use enose_bridge::codec::{parse_int_field, parse_sensor_line, parse_sensor_line_at, state_name, int_token};
use enose_bridge::command::{classify, route, Command};
use enose_bridge::hub::Hub;
use enose_bridge::text::{has_at, split_commas};
use enose_bridge::transport::{command_line, DeviceLink, Transport, TransportError};

struct FakeLink {
    sent: Vec<Vec<u8>>,
    ok: bool,
}

impl FakeLink {
    fn new(ok: bool) -> FakeLink {
        FakeLink { sent: Vec::new(), ok }
    }
}

impl DeviceLink for FakeLink {
    fn send(&mut self, bytes: &[u8]) -> bool {
        if self.ok {
            self.sent.push(bytes.to_vec());
        }
        self.ok
    }
}

#[test]
fn parses_full_sensor_line() {
    let r = parse_sensor_line_at("SENSOR:12.3,0.5,1.1,0.2,100,90,80,2,3", 1234).unwrap();
    assert_eq!(r.timestamp, 1234);
    assert_eq!(r.no2, "12.3");
    assert_eq!(r.eth, "0.5");
    assert_eq!(r.voc, "1.1");
    assert_eq!(r.co, "0.2");
    assert_eq!(r.co_mics, "100");
    assert_eq!(r.eth_mics, "90");
    assert_eq!(r.voc_mics, "80");
    assert_eq!(r.state, 2);
    assert_eq!(r.state_name, "RAMP_UP");
    assert_eq!(r.level, 3);
}

#[test]
fn parse_with_clock_stamps_the_reading() {
    let r = parse_sensor_line("SENSOR:1,2,3,4,5,6,7,0,9").unwrap();
    assert!(r.timestamp > 0);
    assert_eq!(r.state_name, "IDLE");
    assert_eq!(r.level, 9);
}

#[test]
fn malformed_fields_degrade_to_zero() {
    let r = parse_sensor_line_at("SENSOR:abc,0.5,1.1,0.2,100,90,80,x,lvl", 7).unwrap();
    assert_eq!(r.no2, "abc");
    assert_eq!(r.eth, "0.5");
    assert_eq!(r.state, 0);
    assert_eq!(r.state_name, "IDLE");
    assert_eq!(r.level, 0);
}

#[test]
fn fields_are_trimmed() {
    let r = parse_sensor_line_at("SENSOR: 12.3 ,0.5,1.1,0.2,100,90,80, 5 ,\t4\r", 0).unwrap();
    assert_eq!(r.no2, "12.3");
    assert_eq!(r.state, 5);
    assert_eq!(r.state_name, "RECOVERY");
    assert_eq!(r.level, 4);
}

#[test]
fn lines_without_tag_are_ignored() {
    assert!(parse_sensor_line_at("DATA:1,2,3,4,5,6,7,2,3", 0).is_none());
    assert!(parse_sensor_line_at(" SENSOR:1,2,3,4,5,6,7,2,3", 0).is_none());
    assert!(parse_sensor_line_at("", 0).is_none());
}

#[test]
fn short_lines_are_ignored() {
    assert!(parse_sensor_line_at("SENSOR:1,2,3,4,5,6,7,2", 0).is_none());
    assert!(parse_sensor_line_at("SENSOR:", 0).is_none());
}

#[test]
fn extra_fields_are_allowed() {
    let r = parse_sensor_line_at("SENSOR:1,2,3,4,5,6,7,6,8,extra", 0).unwrap();
    assert_eq!(r.state_name, "DONE");
    assert_eq!(r.level, 8);
}

#[test]
fn repeated_tag_is_stripped() {
    let r = parse_sensor_line_at("SENSOR:SENSOR:1,2,3,4,5,6,7,3,1", 0).unwrap();
    assert_eq!(r.no2, "1");
    assert_eq!(r.state_name, "HOLD");
}

#[test]
fn out_of_range_state_is_unknown() {
    let r = parse_sensor_line_at("SENSOR:1,2,3,4,5,6,7,9,1", 0).unwrap();
    assert_eq!(r.state, 9);
    assert_eq!(r.state_name, "UNKNOWN");
    let r = parse_sensor_line_at("SENSOR:1,2,3,4,5,6,7,-1,1", 0).unwrap();
    assert_eq!(r.state, -1);
    assert_eq!(r.state_name, "UNKNOWN");
}

#[test]
fn state_table_entries() {
    let names = ["IDLE", "PRE-COND", "RAMP_UP", "HOLD", "PURGE", "RECOVERY", "DONE"];
    for (i, n) in names.iter().enumerate() {
        assert_eq!(state_name(i as i32), *n);
    }
    assert_eq!(state_name(7), "UNKNOWN");
    assert_eq!(state_name(-1), "UNKNOWN");
    assert_eq!(state_name(i32::MIN), "UNKNOWN");
    assert_eq!(state_name(i32::MAX), "UNKNOWN");
}

#[test]
fn integer_fields() {
    assert_eq!(parse_int_field("42"), 42);
    assert_eq!(parse_int_field("-7"), -7);
    assert_eq!(parse_int_field("+5"), 5);
    assert_eq!(parse_int_field("007"), 7);
    assert_eq!(parse_int_field("2147483647"), 2147483647);
    assert_eq!(parse_int_field("-2147483648"), -2147483648);
    assert_eq!(parse_int_field("2147483648"), 0);
    assert_eq!(parse_int_field("-2147483649"), 0);
    assert_eq!(parse_int_field("99999999999999999999"), 0);
    assert_eq!(parse_int_field(""), 0);
    assert_eq!(parse_int_field("-"), 0);
    assert_eq!(parse_int_field("+"), 0);
    assert_eq!(parse_int_field("1x"), 0);
    assert_eq!(parse_int_field("1.5"), 0);
    assert_eq!(parse_int_field(" 1"), 0);
}

#[test]
fn integer_tokens_are_trimmed() {
    assert_eq!(int_token("  12 "), 12);
    assert_eq!(int_token("\t-3\n"), -3);
    assert_eq!(int_token("   "), 0);
}

#[test]
fn comma_split_keeps_empty_pieces() {
    assert_eq!(split_commas("a,,b,"), vec!["a", "", "b", ""]);
    assert_eq!(split_commas(""), vec![""]);
    assert_eq!(split_commas("x"), vec!["x"]);
}

#[test]
fn pattern_occurrence() {
    assert!(has_at("xxSENSOR:", 2, "SENSOR:"));
    assert!(!has_at("xxSENSOR", 2, "SENSOR:"));
    assert!(has_at("abc", 3, ""));
}

#[test]
fn publish_reaches_every_subscriber() {
    let mut hub = Hub::new(8);
    let a = hub.subscribe().unwrap();
    let b = hub.subscribe().unwrap();
    let c = hub.subscribe().unwrap();
    assert_eq!((a, b, c), (0, 1, 2));
    hub.publish(&"one".to_string());
    hub.publish(&"two".to_string());
    assert_eq!(hub.len(), 3);
    for id in [a, b, c] {
        assert_eq!(hub.drain(id).unwrap(), vec!["one".to_string(), "two".to_string()]);
        assert_eq!(hub.drain(id).unwrap(), Vec::<String>::new());
    }
}

#[test]
fn failed_subscriber_is_never_delivered_again() {
    let mut hub = Hub::new(8);
    let a = hub.subscribe().unwrap();
    let b = hub.subscribe().unwrap();
    assert!(hub.close(a));
    assert_eq!(hub.len(), 2);
    hub.publish(&"m".to_string());
    assert_eq!(hub.len(), 1);
    assert!(hub.drain(a).is_none());
    assert!(!hub.close(a));
    let c = hub.subscribe().unwrap();
    assert_eq!(c, 2);
    hub.publish(&"n".to_string());
    assert!(hub.drain(a).is_none());
    assert_eq!(hub.drain(b).unwrap(), vec!["m".to_string(), "n".to_string()]);
    assert_eq!(hub.drain(c).unwrap(), vec!["n".to_string()]);
}

#[test]
fn late_subscriber_gets_no_backlog() {
    let mut hub = Hub::new(4);
    hub.publish(&"early".to_string());
    let a = hub.subscribe().unwrap();
    assert_eq!(hub.drain(a).unwrap(), Vec::<String>::new());
}

#[test]
fn full_queue_drops_the_subscriber() {
    let mut hub = Hub::new(2);
    let slow = hub.subscribe().unwrap();
    let fast = hub.subscribe().unwrap();
    hub.publish(&"1".to_string());
    assert_eq!(hub.drain(fast).unwrap(), vec!["1".to_string()]);
    hub.publish(&"2".to_string());
    assert_eq!(hub.drain(fast).unwrap(), vec!["2".to_string()]);
    hub.publish(&"3".to_string());
    assert!(hub.drain(slow).is_none());
    assert_eq!(hub.drain(fast).unwrap(), vec!["3".to_string()]);
}

#[test]
fn write_unattached_fails() {
    let mut t: Transport<FakeLink> = Transport::new();
    assert!(!t.is_attached());
    assert_eq!(t.write_command("START_SAMPLING"), Err(TransportError::NotAttached));
    assert!(!t.is_attached());
    assert!(t.attached_name().is_none());
}

#[test]
fn reattach_closes_previous_and_targets_new() {
    let mut t: Transport<FakeLink> = Transport::new();
    assert!(t.attach("COM3".to_string(), FakeLink::new(true)).is_none());
    assert_eq!(t.write_command("A"), Ok(()));
    let prev = t.attach("COM7".to_string(), FakeLink::new(true)).unwrap();
    assert_eq!(prev.sent, vec![b"A\n".to_vec()]);
    assert_eq!(t.attached_name(), Some("COM7".to_string()));
    assert_eq!(t.write_command("START_SAMPLING"), Ok(()));
    let cur = t.detach().unwrap();
    assert_eq!(cur.sent, vec![b"START_SAMPLING\n".to_vec()]);
    assert!(!t.is_attached());
}

#[test]
fn write_failure_keeps_attachment() {
    let mut t: Transport<FakeLink> = Transport::new();
    t.attach("COM3".to_string(), FakeLink::new(false));
    assert_eq!(t.write_command("X"), Err(TransportError::WriteFailed));
    assert!(t.is_attached());
    assert_eq!(t.attached_name(), Some("COM3".to_string()));
}

#[test]
fn dropped_connection_releases_only_its_own_attachment() {
    let mut t: Transport<FakeLink> = Transport::new();
    t.attach("COM3".to_string(), FakeLink::new(true));
    let g3 = t.attached_generation().unwrap();
    t.attach("COM7".to_string(), FakeLink::new(true));
    let g7 = t.attached_generation().unwrap();
    assert_ne!(g3, g7);
    assert!(t.release(g3).is_none());
    assert_eq!(t.attached_name(), Some("COM7".to_string()));
    assert!(t.release(g7).is_some());
    assert!(!t.is_attached());
    assert!(t.release(g7).is_none());
    assert!(t.detach().is_none());
}

#[test]
fn command_line_appends_line_end() {
    assert_eq!(command_line("STOP_SAMPLING"), "STOP_SAMPLING\n");
    assert_eq!(command_line(""), "\n");
}

#[test]
fn routes_control_directives() {
    assert!(matches!(route("CONNECT_SERIAL COM7"), Command::Attach(n) if n == "COM7"));
    assert!(matches!(route("  CONNECT_SERIAL   /dev/ttyACM0  extra\r\n"), Command::Attach(n) if n == "/dev/ttyACM0"));
    assert!(matches!(route("CONNECT_SERIAL"), Command::MissingPort));
    assert!(matches!(route("CONNECT_SERIAL   "), Command::MissingPort));
    assert!(matches!(route("DISCONNECT_SERIAL"), Command::Detach));
    assert!(matches!(route(" DISCONNECT_SERIAL\n"), Command::Detach));
}

#[test]
fn routes_other_text_verbatim() {
    assert!(matches!(route("START_SAMPLING\n"), Command::Forward(t) if t == "START_SAMPLING"));
    assert!(matches!(route("DISCONNECT_SERIAL now"), Command::Forward(t) if t == "DISCONNECT_SERIAL now"));
    assert!(matches!(route("connect_serial COM3"), Command::Forward(t) if t == "connect_serial COM3"));
}

#[test]
fn classify_uses_second_word() {
    let c = classify("CONNECT_SERIALX COM9".to_string(), vec!["CONNECT_SERIALX".to_string(), "COM9".to_string()]);
    assert!(matches!(c, Command::Attach(n) if n == "COM9"));
    let c = classify("CONNECT_SERIAL".to_string(), vec!["CONNECT_SERIAL".to_string()]);
    assert!(matches!(c, Command::MissingPort));
}

#[test]
fn ingress_delivers_sensor_lines() {
    let a = ingress_step(IngressEvent::Line("SENSOR:12.3,0.5,1.1,0.2,100,90,80,2,3".to_string()), 55);
    match a {
        IngressAction::Deliver(r) => {
            assert_eq!(r.timestamp, 55);
            assert_eq!(r.no2, "12.3");
            assert_eq!(r.state_name, "RAMP_UP");
            assert_eq!(r.level, 3);
        }
        _ => panic!("expected a reading"),
    }
    assert!(matches!(ingress_step(IngressEvent::Line("hello".to_string()), 1), IngressAction::Ignore));
    assert!(matches!(ingress_step(IngressEvent::Line("SENSOR:1,2".to_string()), 1), IngressAction::Ignore));
}

#[test]
fn ingress_stops_when_stream_ends() {
    let mut t: Transport<FakeLink> = Transport::new();
    t.attach("COM3".to_string(), FakeLink::new(true));
    let owned = t.attached_generation().unwrap();
    assert!(matches!(ingress_step(IngressEvent::Ended, 9), IngressAction::Stop));
    assert!(t.release(owned).is_some());
    assert!(!t.is_attached());
    assert_eq!(t.write_command("X"), Err(TransportError::NotAttached));
}
