//! Network-side tests: hosting rules, nmcli command construction, output
//! parsing, paths and teardown.

use carpet_core::network::{
    activate_connection_command, gateway_query_command, get_wifi_interfaces, is_hosting,
    join_hotspot, start_hotspot, stop_hotspot, StopPlan,
};
use carpet_core::paths::{common_folder, compose_path, relative_path_bytes};
use carpet_core::{peer_from_str, FilePath, Mode, Peer, PeerResource, Transfer};

fn path(parts: &[&str]) -> FilePath {
    FilePath { components: parts.iter().map(|p| p.as_bytes().to_vec()).collect() }
}

#[test]
fn hosting_rules() {
    let send = Mode::Send(vec![path(&["a.txt"])]);
    let receive = Mode::Receive(path(&["out"]));
    assert!(is_hosting(&Peer::Android, &send));
    assert!(is_hosting(&Peer::IOS, &receive));
    assert!(is_hosting(&Peer::MacOS, &send));
    assert!(!is_hosting(&Peer::Windows, &send));
    assert!(!is_hosting(&Peer::Linux, &send));
    assert!(is_hosting(&Peer::Linux, &receive));
}

#[test]
fn peer_names() {
    assert!(matches!(peer_from_str("android"), Some(Peer::Android)));
    assert!(matches!(peer_from_str("ios"), Some(Peer::IOS)));
    assert!(matches!(peer_from_str("linux"), Some(Peer::Linux)));
    assert!(matches!(peer_from_str("mac"), Some(Peer::MacOS)));
    assert!(matches!(peer_from_str("windows"), Some(Peer::Windows)));
    assert!(peer_from_str("amiga").is_none());
}

#[test]
fn start_hotspot_commands() {
    let cmds = start_hotspot("flyingCarpet_1234", "password", "wlan0");
    assert_eq!(cmds.len(), 9);
    assert_eq!(
        cmds[0],
        vec![
            "con",
            "add",
            "type",
            "wifi",
            "ifname",
            "wlan0",
            "con-name",
            "flyingCarpet_1234",
            "autoconnect",
            "yes",
            "ssid",
            "flyingCarpet_1234"
        ]
    );
    assert_eq!(cmds[7], vec!["con", "modify", "flyingCarpet_1234", "wifi-sec.psk", "password"]);
    assert_eq!(cmds[8], vec!["con", "up", "flyingCarpet_1234"]);
}

#[test]
fn join_hotspot_commands() {
    let cmds = join_hotspot("flyingCarpet_20ab", "pw", "wlp3s0");
    assert_eq!(cmds.len(), 3);
    assert_eq!(cmds[1], vec!["con", "modify", "flyingCarpet_20ab", "wifi-sec.key-mgmt", "wpa-psk"]);
    assert_eq!(cmds[2], vec!["con", "modify", "flyingCarpet_20ab", "wifi-sec.psk", "pw"]);
    assert_eq!(activate_connection_command("flyingCarpet_20ab"), vec![
        "con",
        "up",
        "flyingCarpet_20ab"
    ]);
}

#[test]
fn stop_hotspot_plans() {
    assert!(matches!(stop_hotspot(None, b"whatever"), StopPlan::Nothing));
    match stop_hotspot(Some("flyingCarpet_1234"), b"eth0\nflyingCarpet_1234  wifi\n") {
        StopPlan::Delete(cmd) => {
            assert_eq!(cmd, vec!["connection", "delete", "flyingCarpet_1234"]);
        },
        _ => panic!("expected a delete plan"),
    }
    match stop_hotspot(Some("flyingCarpet_1234"), b"eth0\nhome-network\n") {
        StopPlan::NotKnown(msg) => {
            assert_eq!(msg, "SSID flyingCarpet_1234 was not a known network");
        },
        _ => panic!("expected not-known"),
    }
}

#[test]
fn start_and_stop_hotspot() {
    let ssid = "flyingCarpet_1234";
    let password = "password";
    let interfaces = get_wifi_interfaces(b"wlan0:wifi:connected\n");
    let interface = &interfaces.first().expect("no wifi interface present").0;
    let commands = start_hotspot(ssid, password, interface);
    assert_eq!(commands.len(), 9);
    assert_eq!(commands[8], vec!["con", "up", ssid]);
    match stop_hotspot(Some(ssid), b"flyingCarpet_1234  cfcd6f24-...  wifi  wlan0\n") {
        StopPlan::Delete(cmd) => assert_eq!(cmd, vec!["connection", "delete", ssid]),
        _ => panic!("expected a delete plan"),
    }
}

#[test]
fn wifi_interface_listing() {
    let output = b"eth0:ethernet:connected\nwlan0:wifi:disconnected\nlo:loopback:unmanaged\nwlan1:wifi:connected";
    let interfaces = get_wifi_interfaces(output);
    assert_eq!(interfaces.len(), 2);
    assert_eq!(interfaces[0].0, "wlan0");
    assert_eq!(interfaces[0].1, "");
    assert_eq!(interfaces[1].0, "wlan1");
    let none = get_wifi_interfaces(b"eth0:ethernet:connected\n");
    assert_eq!(none.len(), 0);
}

#[test]
fn find_gateway() {
    let interfaces = get_wifi_interfaces(b"wlan0:wifi:connected\n");
    let interface = &interfaces.first().expect("no wifi interface present").0;
    let query = gateway_query_command(interface);
    assert_eq!(query, "route -n | grep wlan0 | grep UG | awk '{print $2}'");
    let gateway = carpet_core::network::find_gateway(b"192.168.4.1\n");
    let gateway = String::from_utf8(gateway).unwrap();
    println!("interface: {}", interface);
    println!("gateway: {}", gateway);
    assert_eq!(gateway, "192.168.4.1");
    assert_eq!(carpet_core::network::find_gateway(b"  \n\t"), Vec::<u8>::new());
}

#[test]
fn common_prefix_keeps_fewest_components() {
    let files = vec![
        path(&["a", "b", "c.txt"]),
        path(&["a", "b", "d.txt"]),
        path(&["a", "e.txt"]),
    ];
    let common = common_folder(&files);
    assert_eq!(common.components, vec![b"a".to_vec()]);
    let rels: Vec<Vec<u8>> = files
        .iter()
        .map(|f| relative_path_bytes(f, &common).expect("common prefix"))
        .collect();
    assert_eq!(rels[0], b"b/c.txt".to_vec());
    assert_eq!(rels[1], b"b/d.txt".to_vec());
    assert_eq!(rels[2], b"e.txt".to_vec());
    let dest = path(&["r"]);
    let out = compose_path(&dest, &rels[0]).expect("safe path");
    assert_eq!(out.components, vec![b"r".to_vec(), b"b".to_vec(), b"c.txt".to_vec()]);
    let out = compose_path(&dest, &rels[2]).expect("safe path");
    assert_eq!(out.components, vec![b"r".to_vec(), b"e.txt".to_vec()]);
}

#[test]
fn ties_keep_the_incumbent_parent() {
    let files = vec![path(&["x", "one.txt"]), path(&["y", "two.txt"])];
    let common = common_folder(&files);
    assert_eq!(common.components, vec![b"x".to_vec()]);
}

#[test]
fn compose_refuses_parent_references() {
    let dest = path(&["r"]);
    assert!(compose_path(&dest, b"../escape").is_none());
    assert!(compose_path(&dest, b"a/../b").is_none());
    assert!(compose_path(&dest, b"").is_none());
    assert!(compose_path(&dest, b"a//b").is_none());
}

#[test]
fn teardown_is_idempotent() {
    let mut t = Transfer::new();
    t.set_ssid("flyingCarpet_1234".to_string());
    t.set_hotspot(PeerResource::LinuxHotspot);
    let (hotspot, ssid) = t.teardown();
    assert!(hotspot.is_some());
    assert_eq!(ssid, Some("flyingCarpet_1234".to_string()));
    let (hotspot2, ssid2) = t.teardown();
    assert!(hotspot2.is_none());
    assert!(ssid2.is_none());
    assert!(t.hotspot.is_none());
    assert!(t.ssid.is_none());
}
