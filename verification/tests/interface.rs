use anytls::interface::{
    append_ipv4, resolve_iface, Address, Change, DnsAction, InterfaceInfo, InterfaceInfoExt,
    InterfaceManager,
};

fn plain(index: u32, name: &str) -> InterfaceInfo {
    InterfaceInfo {
        index,
        name: name.to_string(),
        friendly_name: None,
        up: true,
        loopback: false,
        ipv4: vec![0xc0a80000 + index],
        ipv6: Vec::new(),
        gateway: None,
    }
}

fn selected_index(manager: &InterfaceManager) -> Option<u32> {
    manager.selected_iface().map(|i| i.index)
}

#[test]
fn addresses_in_dotted_decimal() {
    for (address, text) in [(0u32, "0.0.0.0"), (0x7f000001, "127.0.0.1"), (u32::MAX, "255.255.255.255")] {
        let mut out: String = String::from("at ");
        append_ipv4(&mut out, address);
        assert_eq!(out, format!("at {}", text));
    }
}

#[test]
fn usable_interfaces() {
    assert!(plain(1, "eth0").is_usable(false));
    assert!(!InterfaceInfo { up: false, ..plain(1, "eth0") }.is_usable(false));
    assert!(!InterfaceInfo { loopback: true, ..plain(1, "lo") }.is_usable(false));
    assert!(!InterfaceInfo { ipv4: Vec::new(), ..plain(1, "eth0") }.is_usable(false));
    assert!(InterfaceInfo { ipv4: Vec::new(), ipv6: vec![1], ..plain(1, "eth0") }.is_usable(false));
    assert!(!plain(1, "eth0").is_usable(true));
    assert!(InterfaceInfo { gateway: Some(Vec::new()), ..plain(1, "eth0") }.is_usable(true));
}

#[test]
fn interfaces_are_shown() {
    assert_eq!(plain(2, "eth0").display_name(false), " (eth0 2  true)");
    let known = InterfaceInfo {
        friendly_name: Some("Wi-Fi".to_string()),
        gateway: Some(vec![0xc0a80001, 1]),
        up: false,
        ..plain(17, "wlan0")
    };
    assert_eq!(known.display_name(false), "Wi-Fi (wlan0 17 192.168.0.1 false)");
    let empty = InterfaceInfo { gateway: Some(Vec::new()), ..plain(2, "eth0") };
    assert_eq!(empty.display_name(true), " (eth0 2  true)");
}

#[test]
fn name_servers_and_metrics() {
    let info = plain(1, "eth0");
    assert!(matches!(info.set_dns(&[]), DnsAction::Restore));
    let servers: Vec<Address> = vec![Address::V4(1), Address::V6(2)];
    assert!(matches!(info.set_dns(&servers), DnsAction::Use(used) if used == servers));
    assert_eq!(info.set_metric(5, true), Some(5));
    assert_eq!(info.set_metric(5, false), None);
}

#[test]
fn names_that_tunnels_have() {
    for name in ["tun0", "utun3", "TAP-Windows", "ppp0", "wg0", "IPsec1", "awdl0", "llw0", "MyTUN"] {
        assert!(InterfaceManager::is_likely_vpn(name));
    }
    for name in ["", "eth0", "en0", "Wi-Fi", "lo", "tu", "p2p0"] {
        assert!(!InterfaceManager::is_likely_vpn(name));
    }
    assert!(InterfaceManager::is_tunnel_name("tun0"));
    assert!(!InterfaceManager::is_tunnel_name("TUN0"));
}

#[test]
fn lower_case_beyond_ascii() {
    assert!(InterfaceManager::is_likely_vpn("\u{dc}bertun"));
    assert!(InterfaceManager::is_likely_vpn("W\u{47}0"));
    assert!(!InterfaceManager::is_likely_vpn("\u{ff34}\u{ff35}\u{ff2e}"));
}

#[test]
fn the_first_usable_interface_is_selected() {
    let list: Vec<InterfaceInfo> = vec![
        InterfaceInfo { loopback: true, ..plain(1, "lo") },
        plain(2, "utun0"),
        InterfaceInfo { up: false, ..plain(3, "eth0") },
        plain(4, "eth1"),
        plain(5, "eth2"),
    ];
    assert_eq!(InterfaceManager::select_iface(&list, false).unwrap().index, 4);
    assert!(InterfaceManager::select_iface(&list, true).is_none());
    assert!(InterfaceManager::select_iface(&list[..3], false).is_none());
    let flags: Vec<bool> = vec![false, false, false, true, false];
    assert_eq!(InterfaceManager::first_usable(&list, &flags, false), Some(1));
}

#[test]
fn changes_are_announced() {
    let mut manager = InterfaceManager::new();
    assert_eq!(selected_index(&manager), None);
    assert_eq!(manager.subscribe(), None);
    assert_eq!(manager.init(&[plain(4, "eth0")], false, 77), Change::Selected(None));
    assert_eq!(manager.subscribe(), Some(77));
    assert_eq!(manager.notify_change(), Some(77));
    assert_eq!(selected_index(&manager), Some(4));
    assert_eq!(manager.update_iface(&[plain(4, "eth0")], false), Change::Unchanged);
    assert_eq!(manager.update_iface(&[plain(6, "eth2")], false), Change::Selected(Some(77)));
    assert_eq!(selected_index(&manager), Some(6));
    assert_eq!(manager.update_iface(&[], false), Change::Lost(Some(77)));
    assert_eq!(manager.update_iface(&[], false), Change::Unchanged);
    assert_eq!(selected_index(&manager), None);
}

#[test]
fn the_index_tells_interfaces_apart() {
    let mut manager = InterfaceManager::new();
    manager.adopt(Some(plain(4, "eth0")));
    assert_eq!(manager.adopt(Some(plain(4, "renamed"))), Change::Unchanged);
    assert_eq!(manager.selected_iface().unwrap().name, "eth0");
    assert_eq!(manager.adopt(Some(plain(5, "eth0"))), Change::Selected(None));
}

#[test]
fn the_watching_task() {
    let mut manager = InterfaceManager::new();
    assert_eq!(manager.shutdown(), None);
    manager.monitor_started(Some(3));
    manager.monitor_started(None);
    assert_eq!(manager.shutdown(), Some(3));
    assert_eq!(manager.shutdown(), None);
}

#[test]
fn interfaces_by_name_or_address() {
    let list: Vec<InterfaceInfo> = vec![plain(1, "a"), plain(2, "b"), plain(3, "b")];
    assert_eq!(resolve_iface("b", None, &list).unwrap().index, 2);
    assert_eq!(resolve_iface("x", Some(0xc0a80003), &list).unwrap().index, 3);
    assert_eq!(resolve_iface("b", Some(0xc0a80001), &list).unwrap().index, 1);
    assert_eq!(
        resolve_iface("x", Some(0x0a000001), &list).unwrap_err(),
        "TUN interface not found by name=x or ipv4=10.0.0.1"
    );
    assert_eq!(
        resolve_iface("x", None, &list).unwrap_err(),
        "TUN interface not found by name=x or ipv4="
    );
}

#[test]
fn copies_of_an_interface() {
    let info = InterfaceInfo {
        friendly_name: Some("f".to_string()),
        ipv6: vec![9],
        gateway: Some(vec![7]),
        ..plain(1, "a")
    };
    let copy = info.copy();
    assert_eq!(copy.index, 1);
    assert_eq!(copy.name, "a");
    assert_eq!(copy.friendly_name.as_deref(), Some("f"));
    assert_eq!((copy.up, copy.loopback), (true, false));
    assert_eq!(copy.ipv4, vec![0xc0a80001]);
    assert_eq!(copy.ipv6, vec![9]);
    assert_eq!(copy.gateway, Some(vec![7]));
}
