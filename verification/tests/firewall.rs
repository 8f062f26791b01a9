use rushtle::firewall::linux::nameservers::read_local_nameservers_v4;
use rushtle::firewall::linux::removal::{RemoveAction, RETRY_MS};
use rushtle::firewall::linux::{
    command_line, iptables_cmd, iptables_cmd_quiet, InstallAction, InstallStep, Installer, RuleCmd,
    Tool,
};
use rushtle::firewall::{linux, macos, stub};
use rushtle::ip::{IpAddr, SocketTarget};

fn strings(v: &[&str]) -> Vec<String> {
    v.iter().map(|s| s.to_string()).collect()
}

fn line(c: &RuleCmd) -> String {
    command_line(c, true).join(" ")
}

fn steps(v: Vec<InstallStep>) -> Vec<String> {
    v.iter()
        .map(|s| match s {
            InstallStep::Create(Tool::V4) => "create 4".to_string(),
            InstallStep::Create(Tool::V6) => "create 6".to_string(),
            InstallStep::Run(c) => {
                assert!(!c.quiet);
                line(c)
            }
        })
        .collect()
}

#[test]
fn commands_wait_for_the_lock() {
    let c = iptables_cmd(Tool::V4, &["-t", "nat"]);
    assert!(!c.quiet);
    assert_eq!(command_line(&c, true), strings(&["iptables", "-w", "5", "-t", "nat"]));
    let c = iptables_cmd_quiet(Tool::V6, &["-L"]);
    assert!(c.quiet);
    assert_eq!(
        command_line(&c, false),
        strings(&["sudo", "-p", "[local sudo] Password: ", "ip6tables", "-w", "5", "-L"])
    );
}

#[test]
fn install_for_both_families() {
    let s = linux::install(
        "CH",
        12300,
        12353,
        &strings(&["10.0.0.0/8", "172.16.0.0/12"]),
        &strings(&["fd00::/8"]),
        true,
        &strings(&["10.96.0.10", "127.0.0.53"]),
    );
    let nat = "-w 5 -t nat";
    assert_eq!(
        steps(s),
        vec![
            "create 4".to_string(),
            format!("iptables {} -F CH", nat),
            format!("iptables {} -A CH -p udp -d 10.96.0.10 --dport 53 -j REDIRECT --to-ports 12353", nat),
            format!("iptables {} -A CH -p udp -d 127.0.0.53 --dport 53 -j REDIRECT --to-ports 12353", nat),
            format!("iptables {} -A CH -p tcp -d 10.0.0.0/8 -j REDIRECT --to-ports 12300", nat),
            format!("iptables {} -A CH -p tcp -d 172.16.0.0/12 -j REDIRECT --to-ports 12300", nat),
            format!("iptables {} -A CH -m addrtype --dst-type LOCAL -j RETURN", nat),
            format!("iptables {} -A OUTPUT -j CH", nat),
            "create 6".to_string(),
            format!("ip6tables {} -F CH", nat),
            format!("ip6tables {} -A CH -d ::1/128 -j RETURN", nat),
            format!("ip6tables {} -A CH -p tcp -d fd00::/8 -j REDIRECT --to-ports 12300", nat),
            format!("ip6tables {} -A OUTPUT -j CH", nat),
        ]
    );
}

#[test]
fn install_without_known_nameservers() {
    let s = linux::install("CH", 1, 2, &[], &[], true, &[]);
    assert_eq!(
        steps(s),
        vec![
            "create 4",
            "iptables -w 5 -t nat -F CH",
            "iptables -w 5 -t nat -A CH -p udp --dport 53 -j REDIRECT --to-ports 2",
            "iptables -w 5 -t nat -A CH -m addrtype --dst-type LOCAL -j RETURN",
            "iptables -w 5 -t nat -A OUTPUT -j CH",
        ]
    );
}

#[test]
fn install_without_dns() {
    let s = linux::install("CH", 1, 2, &[], &[], false, &strings(&["1.1.1.1"]));
    assert_eq!(s.len(), 4);
}

fn run_of(a: InstallAction) -> (String, bool) {
    match a {
        InstallAction::Run(c) => (line(&c), c.quiet),
        other => panic!("{:?}", other),
    }
}

#[test]
fn installing_goes_through_the_steps() {
    let plan = linux::install("CH", 1, 2, &[], &[], false, &[]);
    let (mut i, a) = Installer::new("CH".to_string(), plan);
    assert_eq!(run_of(a), ("iptables -w 5 -t nat -N CH".to_string(), true));
    assert_eq!(run_of(i.next(Ok(()))), ("iptables -w 5 -t nat -F CH".to_string(), false));
    assert!(run_of(i.next(Ok(()))).0.ends_with("RETURN"));
    assert!(run_of(i.next(Ok(()))).0.ends_with("-A OUTPUT -j CH"));
    assert!(matches!(i.next(Ok(())), InstallAction::Done(Ok(()))));
}

#[test]
fn stale_chain_is_used_again() {
    let plan = linux::install("CH", 1, 2, &[], &[], false, &[]);
    let (mut i, _) = Installer::new("CH".to_string(), plan);
    let a = i.next(Err("exists".to_string()));
    assert_eq!(run_of(a), ("iptables -w 5 -t nat -L CH -n".to_string(), true));
    assert_eq!(run_of(i.next(Ok(()))), ("iptables -w 5 -t nat -F CH".to_string(), false));
}

#[test]
fn chain_that_cannot_be_made() {
    let plan = linux::install("CH", 1, 2, &[], &[], false, &[]);
    let (mut i, _) = Installer::new("CH".to_string(), plan);
    i.next(Err("first".to_string()));
    let a = i.next(Err("second".to_string()));
    assert_eq!(run_of(a), ("iptables -w 5 -t nat -N CH".to_string(), false));
    assert!(matches!(i.next(Err("third".to_string())), InstallAction::Done(Err(e)) if e == "third"));
}

#[test]
fn failed_rule_ends_the_install() {
    let plan = linux::install("CH", 1, 2, &[], &[], false, &[]);
    let (mut i, _) = Installer::new("CH".to_string(), plan);
    i.next(Ok(()));
    assert!(matches!(i.next(Err("no".to_string())), InstallAction::Done(Err(e)) if e == "no"));
}

#[test]
fn nameservers_of_both_files_once() {
    let etc = "nameserver 127.0.0.53\nnameserver ::1\n";
    let daemon = "# real ones\nnameserver 10.0.0.2\nnameserver 127.0.0.53\nnameserver 10.0.0.2\n";
    assert_eq!(
        read_local_nameservers_v4(Some(etc), Some(daemon)),
        strings(&["127.0.0.53", "10.0.0.2"])
    );
    assert_eq!(read_local_nameservers_v4(None, Some(daemon)), strings(&["10.0.0.2", "127.0.0.53"]));
    assert_eq!(read_local_nameservers_v4(None, None), Vec::<String>::new());
}

#[test]
fn original_destinations() {
    assert_eq!(
        linux::original_dst(&IpAddr::V4([10, 1, 2, 3]), [0x01, 0xbb]),
        ("10.1.2.3".to_string(), 443)
    );
    assert_eq!(
        linux::original_dst(&IpAddr::V6([0xfd00, 0, 0, 0, 0, 0, 0, 9]), [0, 22]),
        ("fd00::9".to_string(), 22)
    );
}

fn removal_line(a: &RemoveAction) -> (String, bool) {
    match a {
        RemoveAction::Run(c) => (line(c), c.quiet),
        RemoveAction::WaitAndRun(ms, c) => {
            assert_eq!(*ms, RETRY_MS);
            (format!("wait; {}", line(c)), c.quiet)
        }
        RemoveAction::Done => ("done".to_string(), false),
    }
}

#[test]
fn removal_with_one_jump() {
    let (mut r, a) = linux::removal::remove("CH", true);
    assert_eq!(removal_line(&a), ("iptables -w 5 -t nat -D OUTPUT -j CH".to_string(), true));
    assert_eq!(removal_line(&r.next(true)), ("iptables -w 5 -t nat -D OUTPUT -j CH".to_string(), true));
    assert_eq!(removal_line(&r.next(false)), ("iptables -w 5 -t nat -F CH".to_string(), true));
    assert_eq!(removal_line(&r.next(true)), ("iptables -w 5 -t nat -X CH".to_string(), true));
    assert_eq!(removal_line(&r.next(true)), ("ip6tables -w 5 -t nat -D OUTPUT -j CH".to_string(), true));
    assert_eq!(removal_line(&r.next(false)).0, "ip6tables -w 5 -t nat -F CH");
    assert_eq!(removal_line(&r.next(false)).0, "ip6tables -w 5 -t nat -X CH");
    assert_eq!(
        removal_line(&r.next(false)),
        ("wait; ip6tables -w 5 -t nat -X CH".to_string(), false)
    );
    assert_eq!(removal_line(&r.next(false)).0, "done");
    assert_eq!(RETRY_MS, 100);
}

#[test]
fn removal_takes_all_jumps_back() {
    let (mut r, mut a) = linux::removal::remove("CH", false);
    for _ in 0..40 {
        assert_eq!(removal_line(&a), ("iptables -w 5 -t nat -D OUTPUT -j CH".to_string(), true));
        a = r.next(true);
    }
    assert!(removal_line(&a).0.contains("-D"));
    assert_eq!(removal_line(&r.next(false)).0, "iptables -w 5 -t nat -F CH");
    assert_eq!(removal_line(&r.next(true)).0, "iptables -w 5 -t nat -X CH");
    assert!(matches!(r.next(true), RemoveAction::Done));
}

/// The chain of one tool: its rules, if it is there, and the jumps to it.
#[derive(Clone, Debug, Default, PartialEq)]
struct Table {
    rules: Option<Vec<String>>,
    jumps: u32,
}

impl Table {
    fn obey(&mut self, c: &RuleCmd) -> bool {
        let a = c.args.join(" ");
        let there = self.rules.is_some();
        if a == "-t nat -N CH" {
            if !there {
                self.rules = Some(vec![]);
            }
            !there
        } else if a == "-t nat -X CH" {
            let ok = self.jumps == 0 && self.rules.as_ref().map_or(false, |r| r.is_empty());
            if ok {
                self.rules = None;
            }
            ok
        } else if a == "-t nat -D OUTPUT -j CH" {
            let ok = self.jumps > 0;
            if ok {
                self.jumps -= 1;
            }
            ok
        } else if a == "-t nat -F CH" {
            self.rules = if there { Some(vec![]) } else { None };
            there
        } else if a == "-t nat -L CH -n" {
            there
        } else if a == "-t nat -A OUTPUT -j CH" {
            self.jumps += 1;
            there
        } else {
            if let Some(r) = self.rules.as_mut() {
                r.push(a);
            }
            there
        }
    }
}

fn obey(tables: &mut [Table; 2], c: &RuleCmd) -> bool {
    match c.tool {
        Tool::V4 => tables[0].obey(c),
        Tool::V6 => tables[1].obey(c),
    }
}

fn install_on(tables: &mut [Table; 2]) {
    let v4 = strings(&["10.0.0.0/8"]);
    let v6 = strings(&["fd00::/8"]);
    let plan = linux::install("CH", 1, 2, &v4, &v6, true, &[]);
    let (mut i, mut a) = Installer::new("CH".to_string(), plan);
    while let InstallAction::Run(c) = &a {
        let outcome = if obey(tables, c) { Ok(()) } else { Err("refused".to_string()) };
        a = i.next(outcome);
    }
    assert!(matches!(a, InstallAction::Done(Ok(()))));
}

fn remove_from(tables: &mut [Table; 2]) {
    let (mut r, mut a) = linux::removal::remove("CH", true);
    while let RemoveAction::Run(c) = &a {
        let ok = obey(tables, c);
        a = r.next(ok);
    }
    assert!(matches!(a, RemoveAction::Done));
}

#[test]
fn removal_undoes_the_install() {
    let mut tables = [Table::default(), Table::default()];
    install_on(&mut tables);
    assert_eq!((tables[0].jumps, tables[1].jumps), (1, 1));
    remove_from(&mut tables);
    assert_eq!(tables, [Table::default(), Table::default()]);
}

#[test]
fn stale_chain_gets_the_same_rules() {
    let mut tables = [Table::default(), Table::default()];
    install_on(&mut tables);
    let first = tables.clone();
    assert_eq!(first[0].rules.as_ref().map(|r| r.len()), Some(3));
    assert_eq!(first[1].rules.as_ref().map(|r| r.len()), Some(2));
    for _ in 0..24 {
        install_on(&mut tables);
    }
    assert_eq!((&tables[0].rules, &tables[1].rules), (&first[0].rules, &first[1].rules));
    assert_eq!((tables[0].jumps, tables[1].jumps), (25, 25));
    remove_from(&mut tables);
    assert_eq!(tables, [Table::default(), Table::default()]);
}

#[test]
fn pf_rules_for_both_families() {
    let p = macos::install(
        "RUSHTLE_7",
        12300,
        12353,
        &strings(&["10.0.0.0/8"]),
        &strings(&["fd00::/8"]),
        true,
    )
    .unwrap();
    assert_eq!(p.anchor, "com.rushtle/RUSHTLE_7");
    assert_eq!(
        p.rules,
        "rdr pass on lo0 inet proto tcp from any to 10.0.0.0/8 -> 127.0.0.1 port 12300\n\
         pass out route-to lo0 inet proto tcp from any to 10.0.0.0/8 keep state\n\
         rdr pass on lo0 inet proto udp from any to any port 53 -> 127.0.0.1 port 12353\n\
         rdr pass on lo0 inet6 proto tcp from any to fd00::/8 -> ::1 port 12300\n\
         pass out route-to lo0 inet6 proto tcp from any to fd00::/8 keep state\n"
    );
    assert_eq!(macos::load(&p.anchor), strings(&["-a", "com.rushtle/RUSHTLE_7", "-f", "-"]));
}

#[test]
fn pf_has_nothing_to_install() {
    assert!(macos::install("c", 1, 2, &[], &[], false).is_none());
    assert!(macos::install("c", 1, 2, &[], &[], true).is_some());
}

#[test]
fn pf_token_is_kept_and_given_back() {
    let st = macos::enabled("anchor".to_string(), "pf enabled\nToken :  1234 \nToken : 5\n");
    assert_eq!(st.enable_token.as_deref(), Some("1234"));
    let mut state = Some(st);
    assert_eq!(
        macos::remove(&mut state),
        vec![strings(&["-a", "anchor", "-F", "all"]), strings(&["-X", "1234"])]
    );
    assert!(state.is_none());
    assert_eq!(macos::remove(&mut state), Vec::<Vec<String>>::new());
    let st = macos::enabled("anchor".to_string(), "No ALTQ support");
    assert_eq!(st.enable_token, None);
    assert_eq!(macos::remove(&mut Some(st)), vec![strings(&["-a", "anchor", "-F", "all"])]);
    assert_eq!(macos::remove(&mut None), Vec::<Vec<String>>::new());
}

#[test]
fn pf_ports() {
    let mut x = macos::PfStateXport { raw: [9, 9, 8, 7] };
    x.set_port(0x3039);
    assert_eq!(x.raw, [0x30, 0x39, 8, 7]);
    assert_eq!(x.port(), 12345);
}

#[test]
fn pf_requests_for_four() {
    let peer = SocketTarget::V4 { octets: [192, 168, 0, 2], port: 0x1234 };
    let local = SocketTarget::V4 { octets: [127, 0, 0, 1], port: 12300 };
    let b = macos::natlook(&peer, &local, macos::PF_OUT).unwrap();
    assert_eq!(b.len(), macos::NATLOOK_LEN);
    assert_eq!(&b[0..4], &[192, 168, 0, 2]);
    assert_eq!(&b[16..20], &[127, 0, 0, 1]);
    assert_eq!(&b[64..72], &[0x12, 0x34, 0, 0, 0x30, 0x0c, 0, 0]);
    assert_eq!(&b[80..84], &[2, 6, 0, 2]);
    assert!(b[84..].iter().all(|x| *x == 0));
    assert_eq!((macos::DIOCNATLOOK >> 16) & 0x1fff, 96);
}

#[test]
fn pf_requests_for_six() {
    let peer = SocketTarget::V6 { groups: [0xfd00, 0, 0, 0, 0, 0, 0, 2], scope: 0, port: 7 };
    let local = SocketTarget::V6 { groups: [0, 0, 0, 0, 0, 0, 0, 1], scope: 0, port: 12300 };
    let b = macos::natlook(&peer, &local, macos::PF_IN).unwrap();
    assert_eq!(&b[0..2], &[0xfd, 0]);
    assert_eq!(b[15], 2);
    assert_eq!(b[31], 1);
    assert_eq!(&b[80..84], &[30, 6, 0, 1]);
    let v4 = SocketTarget::V4 { octets: [1, 2, 3, 4], port: 1 };
    assert!(macos::natlook(&peer, &v4, macos::PF_IN).is_none());
}

#[test]
fn pf_answers() {
    let mut b = vec![0u8; 96];
    b[48..52].copy_from_slice(&[10, 0, 0, 1]);
    b[76..78].copy_from_slice(&[0x01, 0xbb]);
    b[80] = 2;
    assert_eq!(macos::original_dst(&b), (IpAddr::V4([10, 0, 0, 1]), 443));
    b[80] = 30;
    b[63] = 9;
    assert_eq!(macos::original_dst(&b), (IpAddr::V6([0x0a00, 1, 0, 0, 0, 0, 0, 9]), 443));
}

#[test]
fn pf_is_asked_twice() {
    assert_eq!(macos::direction(0), Some(macos::PF_OUT));
    assert_eq!(macos::direction(1), Some(macos::PF_IN));
    assert_eq!(macos::direction(2), None);
}

#[test]
fn other_platforms() {
    assert_eq!(
        stub::install("c", 1, 2, &[], &[], false),
        Err("rushtle client mode is not supported on this platform".to_string())
    );
    assert_eq!(stub::remove("c", false), Ok(()));
    assert_eq!(
        stub::original_dst(),
        Err("original_dst not available on this platform".to_string())
    );
}
