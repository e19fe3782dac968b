use ssh_permit_a38::ssh_config::{apply_option, parse, ConfigError, SSHConfig, SSHConfigHost};

fn entry(hostname: &str, user: &str, port: &str) -> SSHConfigHost {
    SSHConfigHost { hostname: hostname.to_string(), user: user.to_string(), port: port.to_string() }
}

#[test]
fn default_entry_has_port_22() {
    assert_eq!(SSHConfigHost::default(), entry("", "", "22"));
}

#[test]
fn empty_text_gives_an_empty_table() {
    assert_eq!(parse("").unwrap().entries.len(), 0);
    assert_eq!(parse("\n\n# nothing here\n").unwrap().entries.len(), 0);
}

#[test]
fn sections_are_read_in_order() {
    let text = "Host web\n  HostName web.example.com\n  User deploy\n  Port 2222\n\nHost db\n\tHostName 10.0.0.5\n\tUser root\n";
    let config = parse(text).unwrap();
    assert_eq!(config.entries.len(), 2);
    assert_eq!(config.entries[0].label, "web");
    assert_eq!(config.entries[0].host, entry("web.example.com", "deploy", "2222"));
    assert_eq!(config.entries[1].label, "db");
    assert_eq!(config.entries[1].host, entry("10.0.0.5", "root", "22"));
    assert_eq!(config.get("db"), Some(&entry("10.0.0.5", "root", "22")));
    assert_eq!(config.get("mail"), None);
}

#[test]
fn option_names_are_read_in_any_case() {
    let config = parse("Host a\n  HOSTNAME a.example.com\n  user Alice\n  pOrT 2200\n").unwrap();
    assert_eq!(config.entries[0].host, entry("a.example.com", "Alice", "2200"));
}

#[test]
fn unknown_options_change_nothing() {
    let config = parse("Host a\n  ForwardAgent yes\n  IdentityFile ~/.ssh/id\n").unwrap();
    assert_eq!(config.entries[0].host, entry("", "", "22"));
}

#[test]
fn port_is_written_anew_or_kept() {
    let config = parse("Host a\n  Port +0022\nHost b\n  Port ssh\nHost c\n  Port 70000\nHost d\n  Port 99999999999\n").unwrap();
    assert_eq!(config.get("a").unwrap().port, "22");
    assert_eq!(config.get("b").unwrap().port, "22");
    assert_eq!(config.get("c").unwrap().port, "70000");
    assert_eq!(config.get("d").unwrap().port, "22");
}

#[test]
fn a_line_that_is_not_indented_closes_the_section() {
    let config = parse("Host a\n  User one\n# comment\n  User two\n").unwrap();
    assert_eq!(config.get("a").unwrap().user, "one");
    let config = parse("Host a\n  User one\n\n  User two\n").unwrap();
    assert_eq!(config.get("a").unwrap().user, "one");
    let config = parse("Host a\n  User one\n   \n  User two\n").unwrap();
    assert_eq!(config.get("a").unwrap().user, "one");
}

#[test]
fn options_before_any_section_are_passed_over() {
    let config = parse("  User nobody\nHost a\n").unwrap();
    assert_eq!(config.entries.len(), 1);
    assert_eq!(config.get("a").unwrap().user, "");
}

#[test]
fn a_label_that_comes_again_starts_afresh() {
    let config = parse("Host a\n  User one\nHost b\nHost a\n  Port 23\n").unwrap();
    assert_eq!(config.entries.len(), 2);
    assert_eq!(config.entries[0].label, "a");
    assert_eq!(config.entries[0].host, entry("", "", "23"));
    assert_eq!(config.entries[1].label, "b");
}

#[test]
fn the_label_is_what_follows_the_first_blank() {
    let config = parse("Host a b c\nHostName x\n").unwrap();
    assert_eq!(config.entries.len(), 2);
    assert_eq!(config.entries[0].label, "a");
    assert_eq!(config.entries[1].label, "x");
    let config = parse("Host  spaced\n  User u\n").unwrap();
    assert_eq!(config.entries[0].label, "");
    assert_eq!(config.entries[0].host, entry("", "", "22"));
}

#[test]
fn carriage_returns_before_line_feeds_are_dropped() {
    let config = parse("Host a\r\n  User u\r\n").unwrap();
    assert_eq!(config.entries[0].label, "a");
    assert_eq!(config.get("a").unwrap().user, "u");
}

#[test]
fn values_are_trimmed() {
    let config = parse("Host a\n \t User\t bob\t\n").unwrap();
    assert_eq!(config.get("a").unwrap().user, "bob");
}

#[test]
fn host_line_without_label_is_an_error() {
    assert_eq!(parse("Host\n"), Err(ConfigError::HostWithoutLabel { line: 1 }));
    assert_eq!(parse("Host a\n\nHostName\n"), Err(ConfigError::HostWithoutLabel { line: 3 }));
}

#[test]
fn option_line_without_value_is_an_error() {
    assert_eq!(parse("Host a\n  User\n"), Err(ConfigError::OptionWithoutValue { line: 2 }));
    assert_eq!(
        parse("Host a\n  User u\n\tPort\t22\nHost\n"),
        Err(ConfigError::OptionWithoutValue { line: 3 })
    );
}

#[test]
fn apply_option_sets_one_field() {
    let mut host = SSHConfigHost::default();
    apply_option(&mut host, "hostname", "h.example.com");
    assert_eq!(host, entry("h.example.com", "", "22"));
    apply_option(&mut host, "user", "u");
    assert_eq!(host, entry("h.example.com", "u", "22"));
    apply_option(&mut host, "port", "-7");
    assert_eq!(host, entry("h.example.com", "u", "-7"));
    apply_option(&mut host, "port", "seven");
    assert_eq!(host, entry("h.example.com", "u", "-7"));
    apply_option(&mut host, "Port", "8");
    assert_eq!(host, entry("h.example.com", "u", "-7"));
    apply_option(&mut host, "compression", "yes");
    assert_eq!(host, entry("h.example.com", "u", "-7"));
}

#[test]
fn insert_replaces_in_place() {
    let mut config = SSHConfig::new();
    config.insert("a", entry("1", "", "22"));
    config.insert("b", entry("2", "", "22"));
    config.insert("a", entry("3", "", "22"));
    assert_eq!(config.entries.len(), 2);
    assert_eq!(config.entries[0].label, "a");
    assert_eq!(config.entries[0].host.hostname, "3");
    config.set_option("b", "user", "me");
    assert_eq!(config.get("b").unwrap().user, "me");
    config.set_option("c", "user", "me");
    assert_eq!(config.entries.len(), 2);
}
