use nsproxy::ns::{check_ok_return_code, CommandError, NetworkNamespace};

fn strings(items: &[&str]) -> Vec<String> {
    items.iter().map(|s| String::from(*s)).collect()
}

#[test]
fn create_command_line() {
    let command = NetworkNamespace::create_command("ns1");
    assert_eq!(command.program, "ip");
    assert_eq!(command.args, strings(&["netns", "add", "ns1"]));
}

#[test]
fn new_after_success() {
    let ns = NetworkNamespace::new("ns1", Some(0), b"").unwrap();
    assert_eq!(ns.name(), "ns1");
}

#[test]
fn new_after_non_zero_exit() {
    let err = NetworkNamespace::new("ns1", Some(1), b"Cannot create namespace").unwrap_err();
    match &err {
        CommandError::NonZeroExit { code, stderr } => {
            assert_eq!(*code, 1);
            assert_eq!(stderr, "Cannot create namespace");
        }
        other => panic!("wrong error: {:?}", other),
    }
    assert_eq!(err.message(), "Non-Zero exit code (1), Cannot create namespace");
}

#[test]
fn new_after_signal() {
    let err = NetworkNamespace::new("ns1", None, b"ignored").unwrap_err();
    assert!(matches!(err, CommandError::KilledBySignal));
    assert_eq!(err.message(), "Process was killed by a signal");
}

#[test]
fn exit_code_rule() {
    assert!(check_ok_return_code(Some(0), b"warning on stderr").is_ok());
    let err = check_ok_return_code(Some(-2), b"x").unwrap_err();
    assert_eq!(err.message(), "Non-Zero exit code (-2), x");
    let err = check_ok_return_code(Some(255), b"").unwrap_err();
    assert_eq!(err.message(), "Non-Zero exit code (255), ");
    assert!(matches!(check_ok_return_code(None, b""), Err(CommandError::KilledBySignal)));
}

#[test]
fn stderr_that_is_not_text_counts_as_empty() {
    let err = check_ok_return_code(Some(3), &[0x66, 0xFF, 0x6F]).unwrap_err();
    match &err {
        CommandError::NonZeroExit { code, stderr } => {
            assert_eq!(*code, 3);
            assert_eq!(stderr, "");
        }
        other => panic!("wrong error: {:?}", other),
    }
    assert_eq!(err.message(), "Non-Zero exit code (3), ");
    let err = check_ok_return_code(Some(3), "größe".as_bytes()).unwrap_err();
    assert_eq!(err.message(), "Non-Zero exit code (3), größe");
}

#[test]
fn attach_interface_command_line() {
    let ns = NetworkNamespace::new("ns1", Some(0), b"").unwrap();
    let command = ns.attach_interface("veth1");
    assert_eq!(command.program, "ip");
    assert_eq!(command.args, strings(&["link", "set", "veth1", "netns", "ns1"]));
}

#[test]
fn resolver_configuration() {
    let ns = NetworkNamespace::new("ns1", Some(0), b"").unwrap();
    let conf = ns.configure_dns_servers(&[0x7F00_0001, 0x0808_0808]);
    assert_eq!(conf.root, "/etc/ns");
    assert_eq!(conf.namespace, "ns1");
    assert_eq!(conf.file_name, "resolv.conf");
    assert_eq!(conf.contents, "nameserver 127.0.0.1\nnameserver 8.8.8.8");
}

#[test]
fn resolver_configuration_of_one_and_of_no_server() {
    let ns = NetworkNamespace::new("ns1", Some(0), b"").unwrap();
    assert_eq!(ns.configure_dns_servers(&[0x0A00_0001]).contents, "nameserver 10.0.0.1");
    assert_eq!(ns.configure_dns_servers(&[]).contents, "");
    assert_eq!(
        ns.configure_dns_servers(&[1, 2, 3]).contents,
        "nameserver 0.0.0.1\nnameserver 0.0.0.2\nnameserver 0.0.0.3"
    );
}

#[test]
fn exec_inside_command_line() {
    let ns = NetworkNamespace::new("ns1", Some(0), b"").unwrap();
    let command = ns.exec_inside("curl", &["-s", "http://example.com/"]);
    assert_eq!(command.program, "ip");
    assert_eq!(
        command.args,
        strings(&["netns", "exec", "ns1", "curl", "-s", "http://example.com/"])
    );
    let command = ns.exec_inside("true", &[]);
    assert_eq!(command.args, strings(&["netns", "exec", "ns1", "true"]));
}
