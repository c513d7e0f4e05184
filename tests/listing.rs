use port_manager::netstat::{netstat_record, ports_from_netstat, ProcessNames};
use port_manager::lsof::ports_from_lsof;
use port_manager::outcome::{get_ports_macos, get_ports_windows, kill_result, ToolRun};
use port_manager::{parse_address_port, parse_windows_address, PortInfo};

const HEADER: &str = "COMMAND   PID USER   FD   TYPE DEVICE SIZE/OFF NODE NAME\n";

fn finished(stdout: &str) -> ToolRun {
    ToolRun::Finished { success: true, stdout: stdout.to_string(), stderr: String::new() }
}

fn key(p: &PortInfo) -> (u32, u16, String) {
    (p.pid, p.port, p.protocol.clone())
}

#[test]
fn address_with_port() {
    assert_eq!(parse_address_port("192.168.1.5:8080"), ("192.168.1.5".to_string(), 8080));
    assert_eq!(parse_windows_address("0.0.0.0:135"), ("0.0.0.0".to_string(), 135));
}

#[test]
fn address_splits_at_last_colon() {
    assert_eq!(parse_address_port("[::1]:443"), ("[::1]".to_string(), 443));
    assert_eq!(parse_windows_address("[::]:445"), ("[::]".to_string(), 445));
}

#[test]
fn address_without_colon_or_port() {
    assert_eq!(parse_address_port("localhost"), ("localhost".to_string(), 0));
    assert_eq!(parse_address_port("*:*"), ("*".to_string(), 0));
    assert_eq!(parse_address_port("host:70000"), ("host".to_string(), 0));
    assert_eq!(parse_address_port("host:+80"), ("host".to_string(), 80));
    assert_eq!(parse_address_port("host:-80"), ("host".to_string(), 0));
    assert_eq!(parse_address_port("host:65535"), ("host".to_string(), 65535));
    assert_eq!(parse_address_port(""), ("".to_string(), 0));
}

#[test]
fn lsof_arrow_keeps_local_endpoint() {
    let out = format!(
        "{}curl 300 me 5u IPv4 0x1 0t0 TCP 10.0.0.1:5000->10.0.0.2:80 (ESTABLISHED)\n",
        HEADER
    );
    let r = ports_from_lsof(&out);
    assert_eq!(r.len(), 1);
    assert_eq!(r[0].local_address, "10.0.0.1");
    assert_eq!(r[0].port, 5000);
    assert_eq!(r[0].state, "ESTABLISHED");
    assert_eq!(r[0].process_name, "curl");
    assert_eq!(r[0].protocol, "TCP");
    assert_eq!(r[0].pid, 300);
}

#[test]
fn lsof_scenario_duplicates_collapse() {
    let out = format!(
        "{}sshd 100 root 3u IPv4 0x1 0t0 TCP *:22 (LISTEN)\n\
         sshd 100 root 4u IPv6 0x2 0t0 TCP *:22 (LISTEN)\n\
         nginx 200 root 6u IPv4 0x3 0t0 TCP *:80 (LISTEN)\n\
         sshd 100 root 3u IPv4 0x1 0t0 TCP *:22 (LISTEN)\n",
        HEADER
    );
    let r = ports_from_lsof(&out);
    assert_eq!(r.len(), 2);
    assert_eq!(r[0].port, 22);
    assert_eq!(r[0].pid, 100);
    assert_eq!(r[0].state, "LISTEN");
    assert_eq!(r[0].local_address, "*");
    assert_eq!(r[1].port, 80);
    assert_eq!(r[1].pid, 200);
    assert_eq!(r[1].process_name, "nginx");
}

#[test]
fn lsof_sorted_and_stable() {
    let out = format!(
        "{}b 2 u 1u IPv4 0x1 0t0 TCP *:9000 (LISTEN)\n\
         a 1 u 1u IPv4 0x1 0t0 UDP *:53\n\
         c 3 u 1u IPv4 0x1 0t0 TCP *:53 (LISTEN)\n\
         d 4 u 1u IPv4 0x1 0t0 UDP *:443\n",
        HEADER
    );
    let r = ports_from_lsof(&out);
    let ports: Vec<u16> = r.iter().map(|p| p.port).collect();
    assert_eq!(ports, vec![53, 53, 443, 9000]);
    assert_eq!(r[0].process_name, "a");
    assert_eq!(r[0].state, "");
    assert_eq!(r[1].process_name, "c");
}

#[test]
fn lsof_unique_keys_and_no_zero_port() {
    let out = format!(
        "{}a 1 u 1u IPv4 0x1 0t0 TCP *:80 (LISTEN)\n\
         a 1 u 2u IPv4 0x1 0t0 UDP *:80\n\
         a 1 u 3u IPv4 0x1 0t0 TCP 127.0.0.1:80 (LISTEN)\n\
         b 2 u 1u IPv4 0x1 0t0 TCP *:80 (LISTEN)\n\
         c 3 u 1u IPv4 0x1 0t0 UDP *:*\n",
        HEADER
    );
    let r = ports_from_lsof(&out);
    assert_eq!(r.len(), 3);
    for i in 0..r.len() {
        assert_ne!(r[i].port, 0);
        for j in 0..r.len() {
            if i != j {
                assert_ne!(key(&r[i]), key(&r[j]));
            }
        }
    }
}

#[test]
fn lsof_short_and_bad_lines_skipped() {
    let out = format!(
        "{}short 1 u TCP *:80\n\
         x notapid u 1u IPv4 0x1 0t0 TCP *:81 (LISTEN)\n\
         z 0 u 1u IPv4 0x1 0t0 TCP *:82 (LISTEN)\n\
         ok 7 u 1u IPv4 0x1 0t0 TCP *:83 (LISTEN)\r\n",
        HEADER
    );
    let r = ports_from_lsof(&out);
    assert_eq!(r.len(), 1);
    assert_eq!(r[0].port, 83);
    assert_eq!(r[0].state, "LISTEN");
}

#[test]
fn lsof_header_only_or_empty() {
    assert!(ports_from_lsof("").is_empty());
    assert!(ports_from_lsof(HEADER).is_empty());
    assert!(ports_from_lsof("a 1 u 1u IPv4 0x1 0t0 TCP *:80 (LISTEN)").is_empty());
}

#[test]
fn tasklist_names_and_lookup() {
    let names = ProcessNames::from_tasklist(
        "\"System\",\"4\",\"Services\",\"0\",\"144 K\"\r\n\"svchost.exe\",\"900\",\"Services\",\"0\",\"10 K\"\r\nbroken\r\n\"x.exe\",\"nope\"\r\n\"later.exe\",\"900\"\r\n",
    );
    assert_eq!(names.name_of(4), "System");
    assert_eq!(names.name_of(900), "later.exe");
    assert_eq!(names.name_of(5), "Unknown");
}

#[test]
fn netstat_tcp_and_udp_lines() {
    let names = ProcessNames::from_tasklist("\"svchost.exe\",\"900\"\n\"dns.exe\",\"1200\"\n");
    let out = "\r\nActive Connections\r\n\r\n  Proto  Local Address          Foreign Address        State           PID\r\n  TCP    0.0.0.0:135            0.0.0.0:0              LISTENING       900\r\n  UDP    0.0.0.0:53             *:*                                    1200\r\n  tcp    127.0.0.1:5000         0.0.0.0:0              LISTENING       77\r\n  TCP    0.0.0.0:135            0.0.0.0:0              LISTENING       900\r\n";
    let r = ports_from_netstat(out, &names);
    assert_eq!(r.len(), 3);
    assert_eq!((r[0].port, r[0].protocol.as_str(), r[0].state.as_str()), (53, "UDP", ""));
    assert_eq!(r[0].process_name, "dns.exe");
    assert_eq!(r[1].port, 135);
    assert_eq!(r[1].state, "LISTENING");
    assert_eq!(r[1].process_name, "svchost.exe");
    assert_eq!(r[1].local_address, "0.0.0.0");
    assert_eq!(r[2].port, 5000);
    assert_eq!(r[2].protocol, "TCP");
    assert_eq!(r[2].process_name, "Unknown");
}

#[test]
fn netstat_bad_pid_counts_as_zero() {
    let names = ProcessNames::new();
    let r = netstat_record("TCP 0.0.0.0:8080 0.0.0.0:0 LISTENING abc", "TCP", &names).unwrap();
    assert_eq!(r.pid, 0);
    assert_eq!(r.port, 8080);
    assert!(netstat_record("TCP 0.0.0.0:8080 0.0.0.0:0 LISTENING", "TCP", &names).is_none());
    assert!(netstat_record("ICMP 0.0.0.0:8080 0.0.0.0:0 LISTENING 5", "ICMP", &names).is_none());
    assert!(netstat_record("TCP 0.0.0.0:8080 x", "TCP", &names).is_none());
    let u = netstat_record("UDP [::]:500 *:* 44", "UDP", &names).unwrap();
    assert_eq!((u.pid, u.port, u.local_address.as_str()), (44, 500, "[::]"));
}

#[test]
fn unix_listing_outcomes() {
    let ok = get_ports_macos(finished(&format!("{}a 1 u 1u IPv4 0x1 0t0 TCP *:80 (LISTEN)\n", HEADER)));
    assert_eq!(ok.unwrap().len(), 1);
    let failed = ToolRun::Finished { success: false, stdout: String::new(), stderr: "x".to_string() };
    assert_eq!(get_ports_macos(failed).unwrap_err(), "lsof command failed");
    let missing = ToolRun::NotStarted { reason: "No such file or directory (os error 2)".to_string() };
    assert_eq!(
        get_ports_macos(missing).unwrap_err(),
        "Failed to execute lsof: No such file or directory (os error 2)"
    );
}

#[test]
fn windows_listing_outcomes() {
    let missing = ToolRun::NotStarted { reason: "not found".to_string() };
    assert_eq!(
        get_ports_windows(missing, finished("")).unwrap_err(),
        "Failed to execute netstat: not found"
    );
    let failed = ToolRun::Finished { success: false, stdout: String::new(), stderr: String::new() };
    assert_eq!(get_ports_windows(failed, finished("")).unwrap_err(), "netstat command failed");
    let no_tasklist = ToolRun::NotStarted { reason: "denied".to_string() };
    assert_eq!(
        get_ports_windows(finished(""), no_tasklist).unwrap_err(),
        "Failed to execute tasklist: denied"
    );
    let table_failed = ToolRun::Finished {
        success: false,
        stdout: "\"svchost.exe\",\"900\"\n".to_string(),
        stderr: String::new(),
    };
    let r = get_ports_windows(finished("  TCP 0.0.0.0:135 0.0.0.0:0 LISTENING 900\n"), table_failed)
        .unwrap();
    assert_eq!(r.len(), 1);
    assert_eq!(r[0].process_name, "Unknown");
    let r2 = get_ports_windows(
        finished("  TCP 0.0.0.0:135 0.0.0.0:0 LISTENING 900\n"),
        finished("\"svchost.exe\",\"900\"\n"),
    )
    .unwrap();
    assert_eq!(r2[0].process_name, "svchost.exe");
}

#[test]
fn kill_success_message() {
    assert_eq!(kill_result("kill", 1234, finished("")).unwrap(), "Process 1234 terminated");
    assert_eq!(kill_result("kill", 0, finished("")).unwrap(), "Process 0 terminated");
    assert_eq!(
        kill_result("taskkill", 4294967295, finished("")).unwrap(),
        "Process 4294967295 terminated"
    );
}

#[test]
fn kill_unknown_process_reports_tool_text() {
    let run = ToolRun::Finished {
        success: false,
        stdout: String::new(),
        stderr: "kill: 99999: No such process\n".to_string(),
    };
    let e = kill_result("kill", 99999, run).unwrap_err();
    assert_eq!(e, "Failed to kill process 99999: kill: 99999: No such process\n");
    assert!(e.contains("99999"));
    assert!(!e.contains("terminated"));
}

#[test]
fn tool_missing_gives_execution_error() {
    let run = ToolRun::NotStarted { reason: "No such file or directory (os error 2)".to_string() };
    assert_eq!(
        kill_result("taskkill", 5, run).unwrap_err(),
        "Failed to execute taskkill: No such file or directory (os error 2)"
    );
}

#[test]
fn carriage_return_kept_on_unterminated_last_line() {
    let closed = ProcessNames::from_tasklist("\"a.exe\",\"5\"\r\n");
    assert_eq!(closed.name_of(5), "a.exe");
    let open = ProcessNames::from_tasklist("\"a.exe\",\"5\"\r");
    assert_eq!(open.name_of(5), "Unknown");
}
