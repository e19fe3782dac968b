use ssh_permit_a38::database::Host;
use ssh_permit_a38::resolver::{resolve, ConnectionTarget};
use ssh_permit_a38::ssh_config::{parse, SSHConfig};

fn host(name: &str, alias: Option<&str>) -> Host {
    Host {
        hostname: name.to_string(),
        alias: alias.map(|a| a.to_string()),
        authorized_users: vec![],
        authorized_user_groups: vec![],
        sync_todo: true,
    }
}

fn direct(address: &str, port: &str) -> ConnectionTarget {
    ConnectionTarget {
        address: address.to_string(),
        port: port.to_string(),
        login_user: None,
        via_config: false,
    }
}

fn configured(address: &str, port: &str, user: &str) -> ConnectionTarget {
    ConnectionTarget {
        address: address.to_string(),
        port: port.to_string(),
        login_user: Some(user.to_string()),
        via_config: true,
    }
}

#[test]
fn hostname_alone_uses_port_22() {
    let config = SSHConfig::new();
    assert_eq!(resolve(&host("example.com", None), &config), direct("example.com", "22"));
}

#[test]
fn hostname_with_port_is_split() {
    let config = SSHConfig::new();
    assert_eq!(resolve(&host("example.com:2222", None), &config), direct("example.com", "2222"));
    assert_eq!(resolve(&host("example.com:+22", None), &config), direct("example.com", "+22"));
}

#[test]
fn malformed_hostname_is_taken_as_it_is() {
    let config = SSHConfig::new();
    assert_eq!(resolve(&host("example.com:ssh", None), &config), direct("example.com:ssh", "22"));
    assert_eq!(resolve(&host("a:1:2", None), &config), direct("a:1:2", "22"));
    assert_eq!(resolve(&host("example.com:", None), &config), direct("example.com:", "22"));
    assert_eq!(resolve(&host("::1", None), &config), direct("::1", "22"));
}

#[test]
fn config_label_matches_hostname() {
    let config = parse("Host web\n  HostName 10.0.0.1\n  User deploy\n  Port 2200\n").unwrap();
    assert_eq!(resolve(&host("web", None), &config), configured("10.0.0.1", "2200", "deploy"));
}

#[test]
fn config_label_matches_alias() {
    let config = parse("Host w\n  HostName 10.0.0.1\n  User deploy\n").unwrap();
    assert_eq!(
        resolve(&host("web.example.com", Some("w")), &config),
        configured("10.0.0.1", "22", "deploy")
    );
}

#[test]
fn config_target_matches_hostname() {
    let config = parse("Host anything\n  HostName web.example.com\n  User deploy\n").unwrap();
    assert_eq!(
        resolve(&host("web.example.com", None), &config),
        configured("web.example.com", "22", "deploy")
    );
}

#[test]
fn first_matching_entry_wins() {
    let config = parse("Host other\n  User x\nHost web\n  User first\nHost w\n  HostName web\n  User second\n").unwrap();
    assert_eq!(resolve(&host("web", Some("w")), &config), configured("", "22", "first"));
}

#[test]
fn no_match_falls_back_to_the_hostname() {
    let config = parse("Host other\n  HostName elsewhere\n  User x\n").unwrap();
    assert_eq!(resolve(&host("web:2022", Some("w")), &config), direct("web", "2022"));
}

#[test]
fn host_without_alias_matches_an_empty_label() {
    let config = parse("Host  odd\n").unwrap();
    assert_eq!(resolve(&host("web", None), &config), configured("", "22", ""));
    assert_eq!(resolve(&host("web", Some("w")), &config), direct("web", "22"));
}
