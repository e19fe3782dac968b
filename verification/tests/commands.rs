use ssh_permit_a38::command::CommandError;
use ssh_permit_a38::compiler::compile;
use ssh_permit_a38::database::{Database, Host, User, UserGroup};
use ssh_permit_a38::subcommand_group;
use ssh_permit_a38::subcommand_host;
use ssh_permit_a38::subcommand_user;

fn strings(items: &[&str]) -> Vec<String> {
    items.iter().map(|s| s.to_string()).collect()
}

/// Two hosts, three users and two groups, nothing pending.
fn settled() -> Database {
    let mut db = Database::default();
    subcommand_host::add(&mut db, "web").unwrap();
    subcommand_host::add(&mut db, "db:2222").unwrap();
    subcommand_host::add(&mut db, "mail").unwrap();
    subcommand_user::add(&mut db, "alice", "ssh-rsa A").unwrap();
    subcommand_user::add(&mut db, "bob", "ssh-rsa B").unwrap();
    subcommand_user::add(&mut db, "carol", "ssh-rsa C").unwrap();
    subcommand_group::add(&mut db, "ops").unwrap();
    subcommand_group::add(&mut db, "dev").unwrap();
    subcommand_user::grant(&mut db, "alice", "web").unwrap();
    subcommand_group::grant(&mut db, "ops", "db:2222").unwrap();
    subcommand_group::user_add(&mut db, "ops", "bob").unwrap();
    for host in db.hosts.iter_mut() {
        host.sync_todo = false;
    }
    db
}

fn flags(db: &Database) -> Vec<bool> {
    db.hosts.iter().map(|h| h.sync_todo).collect()
}

fn texts(db: &Database) -> Vec<String> {
    db.hosts.iter().map(|h| compile(h, db)).collect()
}

/// Every host whose text changed between the two models must be pending in
/// the second.
fn assert_changes_are_marked(before: &Database, after: &Database) {
    let old = texts(before);
    let new = texts(after);
    assert_eq!(old.len(), new.len());
    for i in 0..old.len() {
        if old[i] != new[i] {
            assert!(after.hosts[i].sync_todo, "host {} changed without being marked", i);
        }
    }
}

#[test]
fn new_database_is_empty() {
    let db = Database::default();
    assert!(db.hosts.is_empty());
    assert!(db.users.is_empty());
    assert!(db.user_groups.is_empty());
    assert_eq!(db.modified_at, "");
    assert_eq!(db.schema_version, "1.0.0");
}

#[test]
fn new_host_is_pending_and_empty() {
    assert_eq!(
        Host::default(),
        Host {
            hostname: String::new(),
            alias: None,
            authorized_users: vec![],
            authorized_user_groups: vec![],
            sync_todo: true,
        }
    );
    let mut db = Database::default();
    assert_eq!(subcommand_host::add(&mut db, "web:22"), Ok(()));
    assert_eq!(
        db.hosts,
        vec![Host {
            hostname: "web:22".to_string(),
            alias: None,
            authorized_users: vec![],
            authorized_user_groups: vec![],
            sync_todo: true,
        }]
    );
}

#[test]
fn host_add_refuses_bad_names() {
    let mut db = settled();
    subcommand_host::alias(&mut db, "web", Some("w")).unwrap();
    let before = db.clone();
    assert_eq!(subcommand_host::add(&mut db, "web"), Err(CommandError::HostExists));
    assert_eq!(subcommand_host::add(&mut db, "w"), Err(CommandError::HostExists));
    assert_eq!(subcommand_host::add(&mut db, "a:1:2"), Err(CommandError::TooManyColons));
    assert_eq!(subcommand_host::add(&mut db, "a:ssh"), Err(CommandError::PortNotInteger));
    assert_eq!(subcommand_host::add(&mut db, "a:"), Err(CommandError::PortNotInteger));
    assert_eq!(db, before);
    assert_eq!(subcommand_host::add(&mut db, "a:22"), Ok(()));
    assert_eq!(subcommand_host::add(&mut db, ""), Ok(()));
}

#[test]
fn host_remove_refuses_unknown_names() {
    let mut db = settled();
    let before = db.clone();
    assert_eq!(subcommand_host::remove(&mut db, "nowhere"), Err(CommandError::HostUnknown));
    assert_eq!(db, before);
    assert_eq!(subcommand_host::remove(&mut db, "db:2222"), Ok(()));
    let names: Vec<&str> = db.hosts.iter().map(|h| h.hostname.as_str()).collect();
    assert_eq!(names, vec!["web", "mail"]);
    assert_eq!(db.users, before.users);
    assert_eq!(db.user_groups, before.user_groups);
}

#[test]
fn alias_refusals() {
    let mut db = settled();
    assert_eq!(subcommand_host::alias(&mut db, "nowhere", Some("n")), Err(CommandError::HostUnknown));
    assert_eq!(subcommand_host::alias(&mut db, "nowhere", None), Err(CommandError::HostUnknown));
    assert_eq!(subcommand_host::alias(&mut db, "web", Some("mail")), Err(CommandError::AliasIsHostname));
    assert_eq!(subcommand_host::alias(&mut db, "web", Some("web")), Err(CommandError::AliasIsHostname));
    assert_eq!(subcommand_host::alias(&mut db, "web", None), Err(CommandError::NoAlias));
    assert_eq!(subcommand_host::alias(&mut db, "web", Some("w")), Ok(()));
    assert_eq!(subcommand_host::alias(&mut db, "mail", Some("w")), Err(CommandError::AliasExists));
    assert_eq!(subcommand_host::alias(&mut db, "web", Some("w")), Err(CommandError::AliasExists));
    assert_eq!(db.hosts[0].alias, Some("w".to_string()));
    assert_eq!(db.hosts[2].alias, None);
    assert_eq!(flags(&db), vec![false, false, false]);
    assert_eq!(db.host_get_by_alias("w").map(|h| h.hostname.as_str()), Some("web"));
    assert_eq!(db.host_get_by_alias("web"), None);
}

#[test]
fn lookups_find_the_first_match() {
    let mut db = settled();
    assert_eq!(db.host_get("db:2222").map(|h| h.hostname.as_str()), Some("db:2222"));
    assert!(db.host_get("db").is_none());
    assert_eq!(db.user_get("bob").map(|u| u.public_key.as_str()), Some("ssh-rsa B"));
    assert!(db.user_get("dave").is_none());
    assert_eq!(db.group_get("ops").map(|g| g.members.clone()), Some(strings(&["bob"])));
    assert!(db.group_get("qa").is_none());
    db.users.push(User { user_id: "bob".to_string(), public_key: "ssh-rsa LATER".to_string() });
    assert_eq!(db.user_get("bob").unwrap().public_key, "ssh-rsa B");
    db.user_get_mut("bob").unwrap().public_key = "ssh-rsa NEW".to_string();
    assert_eq!(db.users[1].public_key, "ssh-rsa NEW");
    assert_eq!(db.users[3].public_key, "ssh-rsa LATER");
    db.host_get_mut("mail").unwrap().sync_todo = true;
    assert_eq!(flags(&db), vec![false, false, true]);
    db.group_get_mut("dev").unwrap().members.push("carol".to_string());
    assert_eq!(db.user_groups[1].members, strings(&["carol"]));
    assert!(db.host_get_mut("nowhere").is_none());
    assert!(db.user_get_mut("nobody").is_none());
    assert!(db.group_get_mut("none").is_none());
}

#[test]
fn membership_tests() {
    let db = settled();
    let alice = db.user_get("alice").unwrap();
    let bob = db.user_get("bob").unwrap();
    let web = db.host_get("web").unwrap();
    let store = db.host_get("db:2222").unwrap();
    let ops = db.group_get("ops").unwrap();
    let dev = db.group_get("dev").unwrap();
    assert!(db.is_user_granted(alice, web));
    assert!(!db.is_user_granted(bob, web));
    assert!(!db.is_user_granted(alice, store));
    assert!(db.is_group_granted(ops, store));
    assert!(!db.is_group_granted(dev, store));
    assert!(!db.is_group_granted(ops, web));
    assert!(db.is_user_group_member(bob, ops));
    assert!(!db.is_user_group_member(alice, ops));
    assert!(!db.is_user_group_member(bob, dev));
}

#[test]
fn user_add_refusals_and_trimming() {
    let mut db = settled();
    let before = db.clone();
    assert_eq!(subcommand_user::add(&mut db, "alice", "ssh-rsa X"), Err(CommandError::UserExists));
    assert_eq!(subcommand_user::add(&mut db, "dave", "rsa X"), Err(CommandError::InvalidPublicKey));
    assert_eq!(subcommand_user::add(&mut db, "dave", " ssh-rsa X"), Err(CommandError::InvalidPublicKey));
    assert_eq!(subcommand_user::add(&mut db, "dave", ""), Err(CommandError::InvalidPublicKey));
    assert_eq!(db, before);
    assert_eq!(subcommand_user::add(&mut db, "dave", "ssh-ed25519 KEY dave@host \n"), Ok(()));
    assert_eq!(
        db.users[3],
        User { user_id: "dave".to_string(), public_key: "ssh-ed25519 KEY dave@host".to_string() }
    );
    assert_eq!(flags(&db), vec![false, false, false]);
}

#[test]
fn user_grant_and_revoke_mark_the_host() {
    let mut db = settled();
    let before = db.clone();
    assert_eq!(subcommand_user::grant(&mut db, "bob", "nowhere"), Err(CommandError::HostUnknown));
    assert_eq!(subcommand_user::grant(&mut db, "dave", "web"), Err(CommandError::UserUnknown));
    assert_eq!(subcommand_user::grant(&mut db, "dave", "nowhere"), Err(CommandError::HostUnknown));
    assert_eq!(subcommand_user::grant(&mut db, "alice", "web"), Err(CommandError::AlreadyGranted));
    assert_eq!(subcommand_user::revoke(&mut db, "bob", "nowhere"), Err(CommandError::HostUnknown));
    assert_eq!(subcommand_user::revoke(&mut db, "dave", "web"), Err(CommandError::UserUnknown));
    assert_eq!(subcommand_user::revoke(&mut db, "bob", "web"), Err(CommandError::NotGranted));
    assert_eq!(db, before);

    assert_eq!(subcommand_user::grant(&mut db, "bob", "web"), Ok(()));
    assert_eq!(db.hosts[0].authorized_users, strings(&["alice", "bob"]));
    assert_eq!(flags(&db), vec![true, false, false]);
    assert_changes_are_marked(&before, &db);

    let granted = db.clone();
    db.hosts[0].sync_todo = false;
    assert_eq!(subcommand_user::revoke(&mut db, "alice", "web"), Ok(()));
    assert_eq!(db.hosts[0].authorized_users, strings(&["bob"]));
    assert_eq!(flags(&db), vec![true, false, false]);
    assert_changes_are_marked(&granted, &db);
    assert_eq!(db.hosts[1], before.hosts[1]);
    assert_eq!(db.hosts[2], before.hosts[2]);
}

#[test]
fn group_grant_and_revoke_mark_the_host() {
    let mut db = settled();
    let before = db.clone();
    assert_eq!(subcommand_group::grant(&mut db, "ops", "nowhere"), Err(CommandError::HostUnknown));
    assert_eq!(subcommand_group::grant(&mut db, "qa", "web"), Err(CommandError::GroupUnknown));
    assert_eq!(subcommand_group::grant(&mut db, "ops", "db:2222"), Err(CommandError::AlreadyGranted));
    assert_eq!(subcommand_group::revoke(&mut db, "ops", "nowhere"), Err(CommandError::HostUnknown));
    assert_eq!(subcommand_group::revoke(&mut db, "qa", "web"), Err(CommandError::GroupUnknown));
    assert_eq!(subcommand_group::revoke(&mut db, "ops", "web"), Err(CommandError::NotGranted));
    assert_eq!(db, before);

    assert_eq!(subcommand_group::grant(&mut db, "ops", "web"), Ok(()));
    assert_eq!(db.hosts[0].authorized_user_groups, strings(&["ops"]));
    assert_eq!(flags(&db), vec![true, false, false]);
    assert_changes_are_marked(&before, &db);

    let granted = db.clone();
    assert_eq!(subcommand_group::revoke(&mut db, "ops", "db:2222"), Ok(()));
    assert_eq!(db.hosts[1].authorized_user_groups, strings(&[]));
    assert_eq!(flags(&db), vec![true, true, false]);
    assert_changes_are_marked(&granted, &db);
}

#[test]
fn group_add_and_remove() {
    let mut db = settled();
    let before = db.clone();
    assert_eq!(subcommand_group::add(&mut db, "ops"), Err(CommandError::GroupExists));
    assert_eq!(subcommand_group::remove(&mut db, "qa"), Err(CommandError::GroupUnknown));
    assert_eq!(db, before);
    assert_eq!(subcommand_group::add(&mut db, "qa"), Ok(()));
    assert_eq!(
        db.user_groups[2],
        UserGroup { group_id: "qa".to_string(), members: vec![] }
    );
    assert_eq!(flags(&db), vec![false, false, false]);
}

#[test]
fn removing_a_group_marks_the_hosts_that_named_it() {
    let mut db = settled();
    let before = db.clone();
    assert_eq!(subcommand_group::remove(&mut db, "ops"), Ok(()));
    let ids: Vec<&str> = db.user_groups.iter().map(|g| g.group_id.as_str()).collect();
    assert_eq!(ids, vec!["dev"]);
    assert_eq!(db.hosts[1].authorized_user_groups, strings(&[]));
    assert_eq!(flags(&db), vec![false, true, false]);
    assert_eq!(compile(&db.hosts[1], &db), "\n");
    assert_changes_are_marked(&before, &db);
    assert_eq!(db.hosts[0], before.hosts[0]);
    assert_eq!(db.hosts[2], before.hosts[2]);
}

#[test]
fn changing_members_marks_the_hosts_that_name_the_group() {
    let mut db = settled();
    let before = db.clone();
    assert_eq!(subcommand_group::user_add(&mut db, "ops", "dave"), Err(CommandError::UserUnknown));
    assert_eq!(subcommand_group::user_add(&mut db, "qa", "dave"), Err(CommandError::UserUnknown));
    assert_eq!(subcommand_group::user_add(&mut db, "qa", "bob"), Err(CommandError::GroupUnknown));
    assert_eq!(subcommand_group::user_add(&mut db, "ops", "bob"), Err(CommandError::AlreadyMember));
    assert_eq!(subcommand_group::user_remove(&mut db, "ops", "dave"), Err(CommandError::UserUnknown));
    assert_eq!(subcommand_group::user_remove(&mut db, "qa", "bob"), Err(CommandError::GroupUnknown));
    assert_eq!(subcommand_group::user_remove(&mut db, "ops", "alice"), Err(CommandError::NotMember));
    assert_eq!(db, before);

    assert_eq!(subcommand_group::user_add(&mut db, "ops", "carol"), Ok(()));
    assert_eq!(db.user_groups[0].members, strings(&["bob", "carol"]));
    assert_eq!(flags(&db), vec![false, true, false]);
    assert_eq!(compile(&db.hosts[1], &db), "# bob\nssh-rsa B\n\n# carol\nssh-rsa C\n");
    assert_changes_are_marked(&before, &db);

    let added = db.clone();
    db.hosts[1].sync_todo = false;
    assert_eq!(subcommand_group::user_remove(&mut db, "ops", "bob"), Ok(()));
    assert_eq!(db.user_groups[0].members, strings(&["carol"]));
    assert_eq!(flags(&db), vec![false, true, false]);
    assert_changes_are_marked(&added, &db);

    let settled_again = db.clone();
    assert_eq!(subcommand_group::user_add(&mut db, "dev", "alice"), Ok(()));
    assert_eq!(flags(&db), vec![false, true, false]);
    assert_eq!(texts(&db), texts(&settled_again));
}

#[test]
fn removing_a_user_marks_every_host_that_reached_the_user() {
    let mut db = settled();
    subcommand_user::grant(&mut db, "bob", "web").unwrap();
    for host in db.hosts.iter_mut() {
        host.sync_todo = false;
    }
    let before = db.clone();
    assert_eq!(subcommand_user::remove(&mut db, "dave"), Err(CommandError::UserUnknown));
    assert_eq!(db, before);

    assert_eq!(subcommand_user::remove(&mut db, "bob"), Ok(()));
    let ids: Vec<&str> = db.users.iter().map(|u| u.user_id.as_str()).collect();
    assert_eq!(ids, vec!["alice", "carol"]);
    assert_eq!(db.hosts[0].authorized_users, strings(&["alice"]));
    assert_eq!(db.user_groups[0].members, strings(&[]));
    assert_eq!(flags(&db), vec![true, true, false]);
    assert_eq!(texts(&db), vec!["# alice\nssh-rsa A\n", "\n", "\n"]);
    assert_changes_are_marked(&before, &db);
    assert_eq!(db.hosts[2], before.hosts[2]);
}

#[test]
fn removing_an_unreferenced_user_marks_nothing() {
    let mut db = settled();
    let before = db.clone();
    assert_eq!(subcommand_user::remove(&mut db, "carol"), Ok(()));
    assert_eq!(flags(&db), vec![false, false, false]);
    assert_eq!(db.hosts, before.hosts);
    assert_eq!(db.user_groups, before.user_groups);
    assert_eq!(texts(&db), texts(&before));
}
