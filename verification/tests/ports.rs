use portus::ports::addr::ip_to_text;
use portus::ports::{
    normalize, AddressFamily, BindScope, IpAddress, ListenerProcess, PortListener, PortProbeError,
    Protocol, SocketAddress,
};

fn v4(a: u8, b: u8, c: u8, d: u8) -> IpAddress {
    IpAddress::V4([a, b, c, d])
}

fn v6(s: [u16; 8]) -> IpAddress {
    IpAddress::V6(s)
}

fn listener(ip: IpAddress, port: u16, pid: u32) -> PortListener {
    PortListener {
        protocol: Protocol::Tcp,
        socket: SocketAddress { ip, port },
        process: ListenerProcess {
            pid,
            name: format!("proc-{pid}"),
            path: format!("/bin/proc-{pid}"),
        },
    }
}

#[test]
fn dual_stack_same_pid_collapses_to_one_row() {
    let rows = normalize(vec![
        listener(v4(0, 0, 0, 0), 3000, 42),
        listener(v6([0; 8]), 3000, 42),
    ]);
    assert_eq!(rows.len(), 1);
    assert_eq!(rows[0].port, 3000);
    assert_eq!(rows[0].scope, BindScope::AllInterfaces);
    assert_eq!(rows[0].families, vec![AddressFamily::V4, AddressFamily::V6]);
    assert_eq!(rows[0].owners.len(), 1);
    assert_eq!(rows[0].key, "tcp|*|3000|42");
}

#[test]
fn loopback_v4_and_v6_collapse_to_one_row() {
    let rows = normalize(vec![
        listener(v4(127, 0, 0, 1), 5432, 7),
        listener(v6([0, 0, 0, 0, 0, 0, 0, 1]), 5432, 7),
    ]);
    assert_eq!(rows.len(), 1);
    assert_eq!(rows[0].scope, BindScope::Loopback);
    assert_eq!(rows[0].families, vec![AddressFamily::V4, AddressFamily::V6]);
    assert_eq!(rows[0].key, "tcp|loopback|5432|7");
}

#[test]
fn reuseport_multiple_pids_share_one_row() {
    let rows = normalize(vec![
        listener(v4(0, 0, 0, 0), 8080, 20),
        listener(v4(0, 0, 0, 0), 8080, 10),
    ]);
    assert_eq!(rows.len(), 1);
    let pids: Vec<u32> = rows[0].owners.iter().map(|owner| owner.pid).collect();
    assert_eq!(pids, vec![10, 20]);
    assert_eq!(rows[0].key, "tcp|*|8080|10");
}

#[test]
fn distinct_specific_addresses_stay_separate() {
    let rows = normalize(vec![
        listener(v4(192, 168, 1, 5), 80, 1),
        listener(v4(10, 0, 0, 1), 80, 2),
    ]);
    assert_eq!(rows.len(), 2);
    assert!(rows.iter().all(|row| row.scope == BindScope::Specific));
}

#[test]
fn ordering_is_deterministic_regardless_of_input_order() {
    let forward = normalize(vec![
        listener(v4(127, 0, 0, 1), 3000, 1),
        listener(v4(127, 0, 0, 1), 8080, 2),
        listener(v4(127, 0, 0, 1), 5432, 3),
    ]);
    let shuffled = normalize(vec![
        listener(v4(127, 0, 0, 1), 5432, 3),
        listener(v4(127, 0, 0, 1), 3000, 1),
        listener(v4(127, 0, 0, 1), 8080, 2),
    ]);
    let keys: Vec<&str> = forward.iter().map(|row| row.key.as_str()).collect();
    let shuffled_keys: Vec<&str> = shuffled.iter().map(|row| row.key.as_str()).collect();
    assert_eq!(keys, shuffled_keys);
    let mut sorted = keys.clone();
    sorted.sort_unstable();
    assert_eq!(keys, sorted);
}

#[test]
fn empty_input_yields_no_rows() {
    assert!(normalize(Vec::new()).is_empty());
}

#[test]
fn normalize_collapses_dual_stack_into_one_row() {
    let web = |ip: IpAddress| PortListener {
        protocol: Protocol::Tcp,
        socket: SocketAddress { ip, port: 3000 },
        process: ListenerProcess {
            pid: 1,
            name: "web".to_string(),
            path: "/web".to_string(),
        },
    };

    let rows = normalize(vec![web(v4(0, 0, 0, 0)), web(v6([0; 8]))]);

    assert_eq!(rows.len(), 1);
    assert_eq!(rows[0].scope, BindScope::AllInterfaces);
    assert_eq!(rows[0].families, vec![AddressFamily::V4, AddressFamily::V6]);
}

#[test]
fn specific_row_carries_its_address_text() {
    let rows = normalize(vec![listener(v4(192, 168, 1, 5), 80, 1)]);
    assert_eq!(rows.len(), 1);
    assert_eq!(rows[0].specific_addr.as_deref(), Some("192.168.1.5"));
    assert_eq!(rows[0].key, "tcp|192.168.1.5|80|1");
    assert_eq!(rows[0].owners[0].name, "proc-1");
    assert_eq!(rows[0].owners[0].path, "/bin/proc-1");
}

#[test]
fn rows_are_ordered_by_key_text() {
    let rows = normalize(vec![
        listener(v4(0, 0, 0, 0), 9000, 5),
        listener(v4(127, 0, 0, 1), 80, 6),
        listener(v4(0, 0, 0, 0), 10000, 4),
    ]);
    let keys: Vec<&str> = rows.iter().map(|row| row.key.as_str()).collect();
    assert_eq!(keys, vec!["tcp|*|10000|4", "tcp|*|9000|5", "tcp|loopback|80|6"]);
}

#[test]
fn address_text_matches_the_standard_forms() {
    assert_eq!(ip_to_text(&v4(10, 0, 0, 254)), "10.0.0.254");
    assert_eq!(ip_to_text(&v6([0; 8])), "::");
    assert_eq!(ip_to_text(&v6([0, 0, 0, 0, 0, 0, 0, 1])), "::1");
    assert_eq!(ip_to_text(&v6([0x2001, 0xdb8, 0, 0, 1, 0, 0, 1])), "2001:db8::1:0:0:1");
    assert_eq!(ip_to_text(&v6([0xfe80, 0, 0, 0, 0x1ff, 0xfe23, 0x4567, 0x890a])), "fe80::1ff:fe23:4567:890a");
    assert_eq!(ip_to_text(&v6([0, 0, 0, 0, 0, 0xffff, 0xc000, 0x0280])), "::ffff:192.0.2.128");
    assert_eq!(ip_to_text(&v6([1, 2, 3, 4, 5, 6, 7, 8])), "1:2:3:4:5:6:7:8");
}

#[test]
fn address_text_shortens_only_the_longest_zero_run() {
    assert_eq!(ip_to_text(&v6([0, 0, 1, 0, 0, 0, 0, 0])), "0:0:1::");
    assert_eq!(ip_to_text(&v6([1, 0, 0, 1, 0, 0, 0, 1])), "1:0:0:1::1");
    assert_eq!(ip_to_text(&v6([0xabcd, 0, 0, 0, 0, 0, 0, 0])), "abcd::");
    assert_eq!(ip_to_text(&v6([1, 0, 1, 0, 1, 0, 1, 0])), "1:0:1:0:1:0:1:0");
    assert_eq!(ip_to_text(&v6([0, 0, 0, 0, 0, 0, 0, 0xffff])), "::ffff");
}

#[test]
fn scan_error_message_names_the_scan() {
    let error = PortProbeError::Scan("denied".to_string());
    assert_eq!(error.message(), "failed to scan listening ports: denied");
}
