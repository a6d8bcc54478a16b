use px::netstat::{
    kill_outcome, kill_port, kill_port_in_text, listening_in_text, listening_ports, ports_table, ports_table_of_text,
};

const NETSTAT: &str = "\r\nActive Connections\r\n\r\n  Proto  Local Address          Foreign Address        State           PID\r\n  TCP    0.0.0.0:135            0.0.0.0:0              LISTENING       1104\r\n  TCP    0.0.0.0:445            0.0.0.0:0              LISTENING       4\r\n  TCP    127.0.0.1:5000         127.0.0.1:50123        ESTABLISHED     2222\r\n  TCP    [::]:135               [::]:0                 LISTENING       1104\r\n  UDP    0.0.0.0:5353           *:*                                    3333\r\n  UDP    [::1]:1900             *:*                                    4444\r\n  TCP    0.0.0.0:135            0.0.0.0:0              LISTENING       1104\r\n";

const TASKLIST: &str = "\"System\",\"4\",\"Services\",\"0\",\"1,234 K\"\r\n\"svchost.exe\",\"1104\",\"Services\",\"0\",\"10,000 K\"\r\n\"mDNS.exe\",\"3333\",\"Console\",\"1\",\"5 K\"\r\n\"other.exe\",\"1104\",\"Services\",\"0\",\"1 K\"\r\n";

fn row(port: u16, proto: &str, pid: &str, name: &str) -> String {
    format!("{:<5}  {:<6} {:<8} {}", port, proto, pid, name)
}

#[test]
fn ports_table_sorted_unique_named() {
    let socks = listening_ports(NETSTAT.as_bytes()).unwrap();
    let lines = ports_table(&socks, TASKLIST.as_bytes());
    assert_eq!(lines, vec![
        format!("{:<5}  PROTO  PID      PROCESS", "PORT"),
        row(135, "TCP", "1104", "other.exe"),
        row(445, "TCP", "4", "System"),
        row(1900, "UDP", "4444", "-"),
        row(5353, "UDP", "3333", "mDNS.exe"),
    ]);
    assert_eq!(lines[0], "PORT   PROTO  PID      PROCESS");
}

#[test]
fn ports_without_tasklist() {
    let socks = listening_ports(NETSTAT.as_bytes()).unwrap();
    let lines = ports_table(&socks, b"");
    assert_eq!(lines.len(), 5);
    assert_eq!(lines[1], row(135, "TCP", "1104", "-"));
}

#[test]
fn ports_nothing_listening() {
    let out = "  TCP    127.0.0.1:5000   127.0.0.1:50123   ESTABLISHED   2222\r\n";
    assert_eq!(listening_ports(out.as_bytes()).err(), Some("ports: nothing listening".to_string()));
    assert_eq!(listening_ports(b"").err(), Some("ports: nothing listening".to_string()));
}

#[test]
fn ports_protocol_uppercased_and_tabs_split() {
    let out = "  TCPv6  [::]:80  [::]:0  LISTENING  77\nUDP\t0.0.0.0:67\t*:*\t\t88\nUDP 1.2.3.4:notaport *:* 9\n";
    let socks = listening_ports(out.as_bytes()).unwrap();
    let lines = ports_table(&socks, b"");
    assert_eq!(lines, vec![
        "PORT   PROTO  PID      PROCESS".to_string(),
        row(67, "UDP", "88", "-"),
        row(80, "TCPV6", "77", "-"),
    ]);
}

#[test]
fn ports_invalid_utf8_is_replaced() {
    let mut out: Vec<u8> = b"  UDP    0.0.0.0:53  *:*  ".to_vec();
    out.extend_from_slice(&[0xff, 0xfe]);
    out.extend_from_slice(b"9\r\n");
    let socks = listening_ports(&out).unwrap();
    let lines = ports_table(&socks, b"");
    assert_eq!(lines[1], row(53, "UDP", "\u{fffd}\u{fffd}9", "-"));
}

#[test]
fn ports_same_port_keeps_netstat_order() {
    let out = "UDP 0.0.0.0:9 *:* 2\nTCP 0.0.0.0:8 x LISTENING 1\nUDP 0.0.0.0:8 *:* 3\n";
    let socks = listening_ports(out.as_bytes()).unwrap();
    let lines = ports_table(&socks, b"");
    assert_eq!(lines[1..].to_vec(), vec![row(8, "TCP", "1", "-"), row(8, "UDP", "3", "-"), row(9, "UDP", "2", "-")]);
}

#[test]
fn kill_port_collects_every_matching_pid() {
    assert_eq!(kill_port(135, NETSTAT.as_bytes()).unwrap(), vec!["1104".to_string(), "1104".to_string(), "1104".to_string()]);
    assert_eq!(kill_port(5000, NETSTAT.as_bytes()).unwrap(), vec!["2222".to_string()]);
    assert_eq!(kill_port(1900, NETSTAT.as_bytes()).unwrap(), vec!["4444".to_string()]);
}

#[test]
fn kill_port_nothing_there() {
    assert_eq!(kill_port(9999, NETSTAT.as_bytes()).unwrap_err(), "kill: nothing on port 9999");
    assert_eq!(kill_port(0, b"").unwrap_err(), "kill: nothing on port 0");
}

#[test]
fn kill_outcome_cases() {
    assert_eq!(kill_outcome(80, 0), Err("kill: couldn't kill process on port 80".to_string()));
    assert_eq!(kill_outcome(80, 2), Ok(()));
}

#[test]
fn text_forms_agree_with_byte_forms() {
    let socks = listening_in_text(NETSTAT).unwrap();
    let from_bytes = listening_ports(NETSTAT.as_bytes()).unwrap();
    assert_eq!(socks.len(), from_bytes.len());
    let lines = ports_table_of_text(&socks, TASKLIST);
    assert_eq!(lines, ports_table(&from_bytes, TASKLIST.as_bytes()));
    assert_eq!(lines[2], row(445, "TCP", "4", "System"));
    assert_eq!(kill_port_in_text(135, NETSTAT), Ok(vec!["1104".to_string(), "1104".to_string(), "1104".to_string()]));
    assert_eq!(kill_port_in_text(5353, NETSTAT), kill_port(5353, NETSTAT.as_bytes()));
    assert_eq!(kill_port_in_text(81, NETSTAT), Err("kill: nothing on port 81".to_string()));
    assert_eq!(listening_in_text("").err(), Some("ports: nothing listening".to_string()));
}
