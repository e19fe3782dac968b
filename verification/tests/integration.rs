use ssh_permit_a38::database::Database;
use ssh_permit_a38::subcommand_group;
use ssh_permit_a38::subcommand_host;
use ssh_permit_a38::subcommand_user;

/// The model that every command sequence starts from: one host is known.
fn fixture() -> Database {
    let mut db = Database::default();
    subcommand_host::add(&mut db, "existing.example.com").unwrap();
    db
}

#[test]
fn host_add_remove() {
    let mut db = fixture();

    // host 1.example.com add
    assert!(subcommand_host::add(&mut db, "1.example.com").is_ok());

    // host 2.example.com add
    assert!(subcommand_host::add(&mut db, "2.example.com").is_ok());

    // host list (check for existing host in fixture)
    assert!(subcommand_host::list(&db, "", false).contains("existing.example.com"));

    // remove existing host
    assert!(subcommand_host::remove(&mut db, "existing.example.com").is_ok());

    // host list
    assert!(subcommand_host::list(&db, "", false).contains("1.example.com"));

    // host list
    assert!(subcommand_host::list(&db, "", false).contains("2.example.com"));

    // host 1.example.com remove
    assert!(subcommand_host::remove(&mut db, "1.example.com").is_ok());

    // host 2.example.com remove
    assert!(subcommand_host::remove(&mut db, "2.example.com").is_ok());

    // host list
    let listing = subcommand_host::list(&db, "", false);
    assert!(!listing.contains("1.example.com"));
    assert!(!listing.contains("2.example.com"));
}

#[test]
fn host_add_duplicate_deny() {
    let mut db = fixture();

    // host example.com add
    assert!(subcommand_host::add(&mut db, "example.com").is_ok());

    // host example.com add
    assert!(subcommand_host::add(&mut db, "example.com").is_err());

    // host list
    assert!(subcommand_host::list(&db, "", false).contains("example.com"));
}

#[test]
fn host_alias() {
    let mut db = fixture();

    // add two hosts
    assert!(subcommand_host::add(&mut db, "1.example.com").is_ok());
    assert!(subcommand_host::add(&mut db, "2.example.com").is_ok());

    // try to alias unknown host
    assert!(subcommand_host::alias(&mut db, "foo.example.com", Some("1")).is_err());

    // try to alias with an alias where the hostname already exists
    assert!(subcommand_host::alias(&mut db, "foo.example.com", Some("1.example.com")).is_err());

    // check no alias were set
    let raw = subcommand_host::list(&db, "", true);
    assert!(raw.contains("alias: None"));
    assert!(!raw.contains("alias: \""));

    // alias 1.example.com
    assert!(subcommand_host::alias(&mut db, "1.example.com", Some("1")).is_ok());

    // check alias was set
    let raw = subcommand_host::list(&db, "1.example.com", true);
    assert!(raw.contains("alias: Some(\"1\")"));
    assert!(!raw.contains("alias: None"));

    // check lookup by alias works
    let listing = subcommand_host::list(&db, "1", false);
    assert!(listing.contains("1.example.com"));
    assert!(!listing.contains("2.example.com"));

    // overwrite alias
    assert!(subcommand_host::alias(&mut db, "1.example.com", Some("one")).is_ok());

    // check alias was set
    let raw = subcommand_host::list(&db, "1.example.com", true);
    assert!(raw.contains("alias: Some(\"one\")"));
    assert!(!raw.contains("alias: None"));

    // remove alias
    assert!(subcommand_host::alias(&mut db, "1.example.com", None).is_ok());

    // check alias was removed
    let raw = subcommand_host::list(&db, "1.example.com", true);
    assert!(raw.contains("alias: None"));
    assert!(!raw.contains("alias: Some(\"one\")"));

    // try to remove alias again results in error msg
    assert!(subcommand_host::alias(&mut db, "1.example.com", None).is_err());
}

#[test]
fn user_add_remove() {
    let mut db = fixture();

    // user foo1 add
    assert!(subcommand_user::add(&mut db, "foo1", "ssh-123").is_ok());

    // user foo2 add
    assert!(subcommand_user::add(&mut db, "foo2", "ssh-456").is_ok());

    // user foo3 add (missing key)
    assert!(subcommand_user::add(&mut db, "foo3", "").is_err());

    // user list
    assert!(subcommand_user::list(&db, "", false).contains("foo1"));

    // user list
    let listing = subcommand_user::list(&db, "", false);
    assert!(listing.contains("foo1"));
    assert!(listing.contains("foo2"));

    // user list --raw
    let raw = subcommand_user::list(&db, "foo1", true);
    assert!(raw.contains("ssh-123"));
    assert!(!raw.contains("ssh-456"));

    // user foo1 remove
    assert!(subcommand_user::remove(&mut db, "foo1").is_ok());

    // user foo2 remove
    assert!(subcommand_user::remove(&mut db, "foo2").is_ok());

    // user list
    let listing = subcommand_user::list(&db, "", false);
    assert!(!listing.contains("foo1"));
    assert!(!listing.contains("foo2"));
}

#[test]
fn user_add_duplicate_deny() {
    let mut db = fixture();

    // user foo add
    assert!(subcommand_user::add(&mut db, "foo1", "ssh-").is_ok());

    // user foo add
    assert!(subcommand_user::add(&mut db, "foo1", "ssh-").is_err());

    // user list
    assert!(subcommand_user::list(&db, "", false).contains("foo1"));
}

#[test]
fn group_add_remove() {
    let mut db = fixture();

    // group dev-ops add
    assert!(subcommand_group::add(&mut db, "dev-ops").is_ok());

    // group support add
    assert!(subcommand_group::add(&mut db, "support").is_ok());

    // group list
    assert!(subcommand_group::list(&db, "", false).contains("dev-ops"));

    // group list
    assert!(subcommand_group::list(&db, "", false).contains("support"));

    // group dev-ops remove
    assert!(subcommand_group::remove(&mut db, "dev-ops").is_ok());

    // group support remove
    assert!(subcommand_group::remove(&mut db, "support").is_ok());

    // group support remove
    assert!(subcommand_group::remove(&mut db, "support").is_err());

    // group list
    let listing = subcommand_group::list(&db, "", false);
    assert!(!listing.contains("dev-ops"));
    assert!(!listing.contains("support"));
}

#[test]
fn group_add_duplicate_deny() {
    let mut db = fixture();

    // group dev-ops add
    assert!(subcommand_group::add(&mut db, "dev-ops").is_ok());

    // group dev-ops add (duplicate)
    assert!(subcommand_group::add(&mut db, "dev-ops").is_err());

    // group list
    assert!(subcommand_group::list(&db, "", false).contains("dev-ops"));
}

#[test]
fn user_grant_revoke() {
    let mut db = fixture();

    // user foo1 add
    assert!(subcommand_user::add(&mut db, "foo1", "ssh-").is_ok());

    // user foo2 add
    assert!(subcommand_user::add(&mut db, "foo2", "ssh-").is_ok());

    // user foo3 add
    assert!(subcommand_user::add(&mut db, "foo3", "ssh-").is_ok());

    // host 1.example.com add
    assert!(subcommand_host::add(&mut db, "1.example.com").is_ok());

    // host 2.example.com add
    assert!(subcommand_host::add(&mut db, "2.example.com").is_ok());

    // user foo1 grant 1.example.com
    assert!(subcommand_user::grant(&mut db, "foo1", "1.example.com").is_ok());

    // user foo1 grant 1.example.com (fail, second add)
    assert!(subcommand_user::grant(&mut db, "foo1", "1.example.com").is_err());

    // user foo1 grant 2.example.com
    assert!(subcommand_user::grant(&mut db, "foo1", "2.example.com").is_ok());

    // user foo2 grant 1.example.com
    assert!(subcommand_user::grant(&mut db, "foo2", "1.example.com").is_ok());

    // host list
    let listing = subcommand_host::list(&db, "", false);
    assert!(listing.contains("foo1"));
    assert!(listing.contains("foo2"));
    assert!(!listing.contains("foo3"));

    // host 1.example.com list
    let listing = subcommand_host::list(&db, "1.example.com", false);
    assert!(listing.contains("foo1"));
    assert!(listing.contains("foo2"));
    assert!(!listing.contains("foo3"));

    // host 2.example.com list
    let listing = subcommand_host::list(&db, "2.example.com", false);
    assert!(listing.contains("foo1"));
    assert!(!listing.contains("foo2"));
    assert!(!listing.contains("foo3"));

    // user foo1 revoke 2.example.com
    assert!(subcommand_user::revoke(&mut db, "foo1", "2.example.com").is_ok());

    // host list
    let listing = subcommand_host::list(&db, "", false);
    assert!(listing.contains("foo1"));
    assert!(listing.contains("foo2"));

    // host 2.example.com list
    let listing = subcommand_host::list(&db, "2.example.com", false);
    assert!(!listing.contains("foo1"));
    assert!(!listing.contains("foo2"));

    // host 1.example.com list
    assert!(subcommand_host::list(&db, "1.example.com", false).contains("foo1"));

    // user foo1 revoke 1.example.com
    assert!(subcommand_user::revoke(&mut db, "foo1", "1.example.com").is_ok());

    // host list
    let listing = subcommand_host::list(&db, "", false);
    assert!(!listing.contains("foo1"));
    assert!(listing.contains("foo2"));

    // user foo2 revoke 1.example.com
    assert!(subcommand_user::revoke(&mut db, "foo2", "1.example.com").is_ok());

    // host list
    assert!(!subcommand_host::list(&db, "", false).contains("foo2"));
}
