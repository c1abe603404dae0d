//! The endpoint-resolution pipeline on concrete values: the selection
//! protocol, address rendering, socket and URL synthesis, the catalog, and
//! the full builder.

use rustbelt::address::HostSocket;
use rustbelt::address::IpAddress;
use rustbelt::address::IpString;
use rustbelt::address::create_socket;
use rustbelt::address::create_url;
use rustbelt::address::display_string;
use rustbelt::catalog::InterfaceCatalog;
use rustbelt::catalog::InterfaceRecord;
use rustbelt::catalog::NetworkInterfaceExistanceError;
use rustbelt::catalog::from_records;
use rustbelt::catalog::lookup_interface;
use rustbelt::endpoint::ResolveError;
use rustbelt::endpoint::build_endpoint;
use rustbelt::endpoint::sorted_names;
use rustbelt::numerals::dec_string;
use rustbelt::numerals::hex_string;
use rustbelt::parse::parse_choice;
use rustbelt::resolver::choose_ip;
use rustbelt::resolver::resolve_address;
use rustbelt::selection::ChoiceError;
use rustbelt::selection::SelectError;
use rustbelt::selection::prompt_lines;
use rustbelt::selection::select_item;

fn strings(items: &[&str]) -> Vec<String> {
    items.iter().map(|s| String::from(*s)).collect()
}

fn record(name: &str, addrs: Vec<IpAddress>) -> InterfaceRecord {
    InterfaceRecord { name: String::from(name), addrs }
}

#[test]
fn test_select_valid_choice() {
    let candidates = strings(&["eth0", "wlan0"]);
    let result = select_item(String::from("0"), &candidates).unwrap();
    assert_eq!(result.0, 0);
    assert_eq!(result.1, "eth0");
}

#[test]
fn test_select_out_of_bounds() {
    let candidates = strings(&["a", "b", "c"]);
    match select_item(String::from("5"), &candidates) {
        Err(SelectError::Bounds(e)) => {
            assert_eq!(e.low, 0);
            assert_eq!(e.high, 2);
            assert_eq!(e.message(), "Not a valid choice. Must be between 0 and 2");
        }
        other => panic!("expected a bounds error, got {:?}", other),
    }
}

#[test]
fn test_select_boundary_is_out_of_bounds() {
    let candidates = strings(&["a", "b", "c"]);
    match select_item(String::from("3"), &candidates) {
        Err(SelectError::Bounds(e)) => {
            assert_eq!((e.low, e.high), (0, 2));
        }
        other => panic!("expected a bounds error, got {:?}", other),
    }
}

#[test]
fn test_select_parse_error() {
    let candidates = strings(&["a", "b"]);
    assert!(matches!(
        select_item(String::from("abc"), &candidates),
        Err(SelectError::Parse)
    ));
    assert!(matches!(
        select_item(String::from(""), &candidates),
        Err(SelectError::Parse)
    ));
    assert!(matches!(
        select_item(String::from("-1"), &candidates),
        Err(SelectError::Parse)
    ));
    assert!(matches!(
        select_item(String::from("1.5"), &candidates),
        Err(SelectError::Parse)
    ));
}

#[test]
fn test_select_trims_whitespace_and_sign() {
    let candidates = strings(&["a", "b", "c"]);
    let result = select_item(String::from(" 1\n"), &candidates).unwrap();
    assert_eq!(result.1, "b");
    let result = select_item(String::from("+2"), &candidates).unwrap();
    assert_eq!(result.1, "c");
}

#[test]
fn test_select_parse_error_without_candidates() {
    let candidates: Vec<String> = vec![];
    assert!(matches!(
        select_item(String::from("abc"), &candidates),
        Err(SelectError::Parse)
    ));
}

#[test]
fn test_select_overflow_is_parse_error() {
    let candidates = strings(&["a", "b"]);
    assert!(matches!(
        select_item(String::from("99999999999999999999999999"), &candidates),
        Err(SelectError::Parse)
    ));
}

#[test]
fn test_parse_choice_values() {
    assert_eq!(parse_choice("7"), Some(7));
    assert_eq!(parse_choice("+7"), Some(7));
    assert_eq!(parse_choice("  42\r\n"), Some(42));
    assert_eq!(parse_choice("0"), Some(0));
    assert_eq!(parse_choice(""), None);
    assert_eq!(parse_choice("+"), None);
    assert_eq!(parse_choice("4 2"), None);
    assert_eq!(parse_choice("x7"), None);
}

#[test]
fn test_choice_error_message() {
    let e = ChoiceError::new(0, 9);
    assert_eq!(e.message(), "Not a valid choice. Must be between 0 and 9");
}

#[test]
fn test_prompt_lines_rendering() {
    let lines = prompt_lines(&strings(&["eth0", "wlan0"]));
    assert_eq!(lines, vec!["0 - eth0".to_string(), "1 - wlan0".to_string()]);
}

#[test]
fn test_numeral_rendering() {
    assert_eq!(dec_string(0), "0");
    assert_eq!(dec_string(65535), "65535");
    assert_eq!(hex_string(0), "0");
    assert_eq!(hex_string(0xfe80), "fe80");
    assert_eq!(hex_string(0xabcd), "abcd");
}

#[test]
fn test_display_v4() {
    let shown = display_string(&IpAddress::V4(192, 168, 1, 5));
    assert_eq!(shown, "192.168.1.5");
}

#[test]
fn test_display_v6_unpadded_groups() {
    let shown = display_string(&IpAddress::V6(0xfe80, 0, 0, 0, 0xabcd, 1, 2, 3));
    assert_eq!(shown, "fe80:0:0:0:abcd:1:2:3");
    assert_eq!(shown.chars().filter(|c| *c == ':').count(), 7);
    assert_eq!(shown.split(':').count(), 8);
}

#[test]
fn test_url_creation_v4() {
    let url = create_url(IpString::V4(String::from("192.168.1.5")), 8080);
    assert_eq!(url, "http://192.168.1.5:8080");
}

#[test]
fn test_url_creation_v6() {
    let url = create_url(IpString::V6(String::from("fe80:0:0:0:abcd:1:2:3")), 80);
    assert_eq!(url, "http://[fe80:0:0:0:abcd:1:2:3]:80");
}

#[test]
fn test_socket_creation_v4() {
    let socket = create_socket(IpAddress::V4(192, 168, 1, 5), 8080);
    assert_eq!(
        socket,
        HostSocket { ip: IpAddress::V4(192, 168, 1, 5), port: 8080, flowinfo: 0, scope_id: 0 }
    );
}

#[test]
fn test_socket_creation_v6() {
    let socket = create_socket(IpAddress::V6(0xfe80, 0, 0, 0, 0xabcd, 1, 2, 3), 80);
    assert_eq!(socket.ip, IpAddress::V6(0xfe80, 0, 0, 0, 0xabcd, 1, 2, 3));
    assert_eq!(socket.port, 80);
    assert_eq!(socket.flowinfo, 0);
    assert_eq!(socket.scope_id, 0);
}

#[test]
fn test_choose_ip_keeps_family() {
    let choices = vec![
        IpString::V4(String::from("192.168.1.5")),
        IpString::V6(String::from("fe80:0:0:0:abcd:1:2:3")),
    ];
    let (index, chosen) = choose_ip(&choices, String::from("1")).unwrap();
    assert_eq!(index, 1);
    match chosen {
        IpString::V6(s) => assert_eq!(s, "fe80:0:0:0:abcd:1:2:3"),
        IpString::V4(s) => panic!("family lost, got V4({})", s),
    }
}

#[test]
fn test_resolve_address_returns_binary_form() {
    let addrs = vec![IpAddress::V4(10, 0, 0, 1), IpAddress::V6(1, 2, 3, 4, 5, 6, 7, 8)];
    let (index, addr) = resolve_address(&addrs, String::from("0")).unwrap();
    assert_eq!(index, 0);
    assert_eq!(addr, IpAddress::V4(10, 0, 0, 1));
    assert!(matches!(
        resolve_address(&addrs, String::from("2")),
        Err(SelectError::Bounds(_))
    ));
}

#[test]
fn test_catalog_drops_empty_interfaces() {
    let catalog = from_records(vec![
        record("lo", vec![]),
        record("eth0", vec![IpAddress::V4(192, 168, 1, 5)]),
    ]);
    assert_eq!(catalog.records.len(), 1);
    assert_eq!(catalog.records[0].name, "eth0");
    assert!(!catalog.records.iter().any(|r| r.addrs.is_empty()));
}

#[test]
fn test_catalog_last_record_wins() {
    let catalog = from_records(vec![
        record("eth0", vec![IpAddress::V4(10, 0, 0, 1)]),
        record("eth0", vec![IpAddress::V4(10, 0, 0, 2)]),
    ]);
    assert_eq!(catalog.records.len(), 1);
    assert_eq!(catalog.records[0].addrs, vec![IpAddress::V4(10, 0, 0, 2)]);
}

#[test]
fn test_lookup_interface_by_name() {
    let catalog = from_records(vec![
        record("eth0", vec![IpAddress::V4(10, 0, 0, 1)]),
        record("wlan0", vec![IpAddress::V4(10, 0, 0, 2)]),
    ]);
    let rec = lookup_interface(&catalog, &String::from("wlan0")).unwrap();
    assert_eq!(rec.addrs, vec![IpAddress::V4(10, 0, 0, 2)]);
    assert!(lookup_interface(&catalog, &String::from("eth9")).is_none());
}

#[test]
fn test_interface_existance_error_message() {
    let e = NetworkInterfaceExistanceError::new(String::from("doesnotexist"));
    assert_eq!(
        e.message(),
        "The given network interface doesn't exist: doesnotexist"
    );
}

#[test]
fn test_sorted_names_are_lexicographic() {
    let catalog = from_records(vec![
        record("wlan0", vec![IpAddress::V4(10, 0, 0, 2)]),
        record("docker0", vec![IpAddress::V4(172, 17, 0, 1)]),
        record("eth0", vec![IpAddress::V4(10, 0, 0, 1)]),
    ]);
    let names = sorted_names(&catalog);
    assert_eq!(names, vec!["docker0".to_string(), "eth0".to_string(), "wlan0".to_string()]);
}

fn two_interface_catalog() -> InterfaceCatalog {
    from_records(vec![
        record("wlan0", vec![IpAddress::V6(0xfe80, 0, 0, 0, 0xabcd, 1, 2, 3)]),
        record("eth0", vec![IpAddress::V4(192, 168, 1, 5), IpAddress::V4(10, 0, 0, 7)]),
    ])
}

#[test]
fn test_build_endpoint_interactive() {
    let catalog = two_interface_catalog();
    let lines = vec![String::from("0\n"), String::from("0\n")];
    let endpoint = build_endpoint(&catalog, None, 8080, &lines).unwrap();
    assert_eq!(endpoint.url, "http://192.168.1.5:8080");
    assert_eq!(
        endpoint.socket,
        HostSocket { ip: IpAddress::V4(192, 168, 1, 5), port: 8080, flowinfo: 0, scope_id: 0 }
    );
}

#[test]
fn test_build_endpoint_by_name_v6() {
    let catalog = two_interface_catalog();
    let name = String::from("wlan0");
    let lines = vec![String::from("0")];
    let endpoint = build_endpoint(&catalog, Some(&name), 80, &lines).unwrap();
    assert_eq!(endpoint.url, "http://[fe80:0:0:0:abcd:1:2:3]:80");
    assert_eq!(endpoint.socket.ip, IpAddress::V6(0xfe80, 0, 0, 0, 0xabcd, 1, 2, 3));
    assert_eq!(endpoint.socket.port, 80);
}

#[test]
fn test_build_endpoint_missing_interface() {
    let catalog = two_interface_catalog();
    let name = String::from("doesnotexist");
    match build_endpoint(&catalog, Some(&name), 3000, &vec![]) {
        Err(ResolveError::InterfaceNotFound(e)) => {
            assert_eq!(e.interface, "doesnotexist");
            assert_eq!(
                e.message(),
                "The given network interface doesn't exist: doesnotexist"
            );
        }
        other => panic!("expected a missing-interface error, got {:?}", other),
    }
}

#[test]
fn test_build_endpoint_propagates_selection_errors() {
    let catalog = two_interface_catalog();
    assert!(matches!(
        build_endpoint(&catalog, None, 3000, &vec![String::from("nope")]),
        Err(ResolveError::Parse)
    ));
    match build_endpoint(&catalog, None, 3000, &vec![String::from("9")]) {
        Err(ResolveError::Bounds(e)) => assert_eq!((e.low, e.high), (0, 1)),
        other => panic!("expected a bounds error, got {:?}", other),
    }
    // An exhausted input stream reads as an empty line at the address stage.
    assert!(matches!(
        build_endpoint(&catalog, None, 3000, &vec![String::from("0")]),
        Err(ResolveError::Parse)
    ));
}
