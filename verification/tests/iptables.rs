use nsproxy::iptables::{Action, IpTablesRule};

fn rule() -> IpTablesRule {
    IpTablesRule {
        table: String::from("nat"),
        chain: String::from("PREROUTING"),
        input_iface: String::from("veth0"),
        protocol: String::from("tcp"),
        target: String::from("REDIRECT"),
        target_args: String::from("--to-ports 1080"),
    }
}

#[test]
fn append_line() {
    assert_eq!(
        rule().to_string(Action::Append),
        "iptables -t nat -A PREROUTING -i veth0 -p tcp -j REDIRECT --to-ports 1080"
    );
}

#[test]
fn delete_line_mirrors_append_line() {
    assert_eq!(
        rule().to_string(Action::Delete),
        "iptables -t nat -D PREROUTING -i veth0 -p tcp -j REDIRECT --to-ports 1080"
    );
}

#[test]
fn insert_line() {
    assert_eq!(
        rule().to_string(Action::Insert),
        "iptables -t nat -I PREROUTING -i veth0 -p tcp -j REDIRECT --to-ports 1080"
    );
}

#[test]
fn empty_fields_leave_their_blanks() {
    let rule = IpTablesRule {
        table: String::new(),
        chain: String::new(),
        input_iface: String::new(),
        protocol: String::new(),
        target: String::new(),
        target_args: String::new(),
    };
    assert_eq!(rule.to_string(Action::Append), "iptables -t  -A  -i  -p  -j  ");
}

#[test]
fn tproxy_rule() {
    let rule = IpTablesRule::tproxy("veth-ns", 12345);
    assert_eq!(rule.table, "mangle");
    assert_eq!(rule.chain, "PREROUTING");
    assert_eq!(rule.input_iface, "veth-ns");
    assert_eq!(rule.protocol, "tcp");
    assert_eq!(rule.target, "TPROXY");
    assert_eq!(rule.target_args, "--on-port 12345 --tproxy-mark 0x1/0x1");
    assert_eq!(
        rule.to_string(Action::Append),
        "iptables -t mangle -A PREROUTING -i veth-ns -p tcp -j TPROXY --on-port 12345 --tproxy-mark 0x1/0x1"
    );
    assert_eq!(
        rule.to_string(Action::Delete),
        "iptables -t mangle -D PREROUTING -i veth-ns -p tcp -j TPROXY --on-port 12345 --tproxy-mark 0x1/0x1"
    );
}

#[test]
fn tproxy_port_bounds() {
    assert_eq!(IpTablesRule::tproxy("lo", 0).target_args, "--on-port 0 --tproxy-mark 0x1/0x1");
    assert_eq!(
        IpTablesRule::tproxy("lo", 65535).target_args,
        "--on-port 65535 --tproxy-mark 0x1/0x1"
    );
}
