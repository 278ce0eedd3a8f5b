use tui_majo::net::discovery::{
    make_entry, mdns_host_name, mdns_instance_name, mdns_properties, DiscoveryRooms, ResolvedService,
};

fn service(fullname: &str, nick: &str, players: Option<&str>) -> ResolvedService {
    ResolvedService {
        fullname: fullname.into(),
        ipv4: Some([192, 168, 1, 20]),
        port: 12345,
        room_id: Some("room-uuid-12345678".into()),
        host_nick: Some(nick.into()),
        players: players.map(|p| p.into()),
        state: Some("lobby".into()),
    }
}

#[test]
fn instance_name_keeps_letters_and_digits_of_the_nick() {
    assert_eq!(mdns_instance_name("Tester", "room-uuid-12345678"), "Tester-room-u");
    assert_eq!(mdns_instance_name("A li_ce!", "ab"), "Alice-ab");
    assert_eq!(mdns_instance_name("abcdefghijklmnopq", "xyz"), "abcdefghijkl-xyz");
}

#[test]
fn instance_name_without_usable_nick_is_host() {
    assert_eq!(mdns_instance_name("雀士", "room-uuid"), "host-room-u");
    assert_eq!(mdns_instance_name("", ""), "host-");
}

#[test]
fn host_name_is_under_local() {
    assert_eq!(mdns_host_name("Tester-room-u"), "Tester-room-u.local.");
}

#[test]
fn properties_carry_the_room() {
    let props = mdns_properties("room-uuid-12345678", "Tester", 1, "lobby");
    assert_eq!(
        props,
        vec![
            ("room_id".to_string(), "room-uuid-12345678".to_string()),
            ("host_nick".to_string(), "Tester".to_string()),
            ("players".to_string(), "1".to_string()),
            ("state".to_string(), "lobby".to_string()),
        ]
    );
    assert_eq!(mdns_properties("r", "n", 255, "in_game")[2].1, "255");
}

#[test]
fn make_entry_reads_the_service() {
    let e = make_entry(service("Tester-room-u._tui-majo._tcp.local.", "Tester", Some("1"))).unwrap();
    assert_eq!(e.fullname, "Tester-room-u._tui-majo._tcp.local.");
    assert_eq!(e.addr, "192.168.1.20:12345");
    assert_eq!(e.room_id, "room-uuid-12345678");
    assert_eq!(e.host_nick, "Tester");
    assert_eq!(e.players, 1);
    assert_eq!(e.state, "lobby");
}

#[test]
fn make_entry_defaults_missing_properties() {
    let s = ResolvedService {
        fullname: "x".into(),
        ipv4: Some([10, 0, 0, 1]),
        port: 0,
        room_id: None,
        host_nick: None,
        players: Some("many".into()),
        state: None,
    };
    let e = make_entry(s).unwrap();
    assert_eq!(e.addr, "10.0.0.1:0");
    assert_eq!(e.room_id, "");
    assert_eq!(e.host_nick, "?");
    assert_eq!(e.players, 0);
    assert_eq!(e.state, "?");
}

#[test]
fn make_entry_needs_an_ipv4_address() {
    let mut s = service("x", "n", Some("2"));
    s.ipv4 = None;
    assert!(make_entry(s).is_none());
}

#[test]
fn discovery_rooms_sorted_and_replaced_by_fullname() {
    let mut t = DiscoveryRooms::new();
    t.resolved(service("c", "Charlie", Some("1")));
    t.resolved(service("a", "Alice", Some("2")));
    t.resolved(service("b", "Bob", Some("3")));
    let rooms = t.rooms();
    let nicks: Vec<&str> = rooms.iter().map(|e| e.host_nick.as_str()).collect();
    assert_eq!(nicks, vec!["Alice", "Bob", "Charlie"]);

    t.resolved(service("a", "Zed", Some("4")));
    let rooms = t.rooms();
    assert_eq!(rooms.len(), 3);
    assert_eq!(rooms[2].host_nick, "Zed");
    assert_eq!(rooms[2].players, 4);

    t.removed("b");
    let nicks: Vec<String> = t.rooms().iter().map(|e| e.host_nick.clone()).collect();
    assert_eq!(nicks, vec!["Charlie".to_string(), "Zed".to_string()]);
    t.removed("nope");
    assert_eq!(t.rooms().len(), 2);
}

#[test]
fn discovery_rooms_ignore_services_without_address() {
    let mut t = DiscoveryRooms::new();
    let mut s = service("a", "Alice", None);
    s.ipv4 = None;
    t.resolved(s);
    assert!(t.rooms().is_empty());
}
