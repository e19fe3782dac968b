//! Commands on users: adding and removing them, granting and revoking their
//! access to hosts, listing them.

use vstd::prelude::*;
use vstd::string::*;
use crate::command::CommandError;
use crate::compiler::marks_every_change;
use crate::database::{
    find_group, lemma_filter_keeps_keys_unique, lemma_same_keys_well_formed, Database,
    DatabaseView, HostView, User, UserGroupView, UserView,
};
use crate::guarantees::{lemma_grant_marks_host, lemma_user_removal_marks_hosts};
use crate::listing::{push_quoted, push_underline, quoted, underline};
use crate::text::{
    differs_from, has_prefix, lemma_first_index_found, position_of, starts_with, str_eq, trim,
    trimmed, without,
};

verus! {

/// Why a user of that id and key cannot be added, if it cannot.
pub open spec fn add_refusal(db: DatabaseView, user_id: Seq<char>, pkey: Seq<char>) -> Option<
    CommandError,
> {
    if db.has_user(user_id) {
        Some(CommandError::UserExists)
    } else if !has_prefix(pkey, "ssh-"@) {
        Some(CommandError::InvalidPublicKey)
    } else {
        None
    }
}

/// Adds a user. The id must be new, and the public key must start with
/// `ssh-`; whitespace around the key is dropped.
pub fn add(db: &mut Database, user_id: &str, pkey: &str) -> (result: Result<(), CommandError>)
    ensures
        match add_refusal(old(db)@, user_id@, pkey@) {
            Some(e) => result == Err::<(), CommandError>(e) && *final(db) == *old(db),
            None => result is Ok && final(db)@ == (DatabaseView {
                users: old(db)@.users.push(
                    UserView { user_id: user_id@, public_key: trimmed(pkey@) },
                ),
                ..old(db)@
            }),
        },
        old(db)@.well_formed() ==> final(db)@.well_formed(),
{
    if db.user_get(user_id).is_some() {
        return Err(CommandError::UserExists);
    }
    if !starts_with(pkey, "ssh-") {
        return Err(CommandError::InvalidPublicKey);
    }
    let user = User { user_id: user_id.to_owned(), public_key: trim(pkey) };
    db.users.push(user);
    proof {
        let before = old(db)@;
        let after = db@;
        assert(after.users =~= before.users.push(user@));
        if before.well_formed() {
            lemma_first_index_found(before.user_ids(), user_id@);
            assert(after.user_ids() =~= before.user_ids().push(user_id@));
            lemma_same_keys_well_formed(before, after);
        }
    }
    Ok(())
}

/// Why a user cannot be granted access to a host, if it cannot.
pub open spec fn grant_refusal(db: DatabaseView, user_id: Seq<char>, hostname: Seq<char>) -> Option<
    CommandError,
> {
    if !db.has_host(hostname) {
        Some(CommandError::HostUnknown)
    } else if !db.has_user(user_id) {
        Some(CommandError::UserUnknown)
    } else if db.hosts[db.host_index(hostname) as int].authorized_users.contains(user_id) {
        Some(CommandError::AlreadyGranted)
    } else {
        None
    }
}

/// Why a user's access to a host cannot be revoked, if it cannot.
pub open spec fn revoke_refusal(db: DatabaseView, user_id: Seq<char>, hostname: Seq<char>) -> Option<
    CommandError,
> {
    if !db.has_host(hostname) {
        Some(CommandError::HostUnknown)
    } else if !db.has_user(user_id) {
        Some(CommandError::UserUnknown)
    } else if !db.hosts[db.host_index(hostname) as int].authorized_users.contains(user_id) {
        Some(CommandError::NotGranted)
    } else {
        None
    }
}

/// A model that stays as it is changes no desired text.
pub proof fn lemma_unchanged_marks(db: DatabaseView)
    ensures
        marks_every_change(db, db),
{
}

/// The model with one host replaced.
pub open spec fn with_host(db: DatabaseView, index: int, host: HostView) -> DatabaseView {
    DatabaseView { hosts: db.hosts.update(index, host), ..db }
}

/// A model stays well formed when a host is replaced by one of the same
/// hostname and alias.
pub proof fn lemma_with_host_well_formed(db: DatabaseView, index: int, host: HostView)
    requires
        db.well_formed(),
        0 <= index < db.hosts.len(),
        host.hostname == db.hosts[index].hostname,
        host.alias == db.hosts[index].alias,
    ensures
        with_host(db, index, host).well_formed(),
{
    let after = with_host(db, index, host);
    assert(after.hostnames() =~= db.hostnames());
    assert(after.aliases() =~= db.aliases());
    lemma_same_keys_well_formed(db, after);
}

/// Grants a user access to a host, and marks the host as changed.
pub fn grant(db: &mut Database, user_id: &str, hostname: &str) -> (result: Result<
    (),
    CommandError,
>)
    ensures
        match grant_refusal(old(db)@, user_id@, hostname@) {
            Some(e) => result == Err::<(), CommandError>(e) && *final(db) == *old(db),
            None => {
                let i = old(db)@.host_index(hostname@) as int;
                let host = old(db)@.hosts[i];
                result is Ok && final(db)@ == with_host(
                    old(db)@,
                    i,
                    HostView {
                        authorized_users: host.authorized_users.push(user_id@),
                        sync_todo: true,
                        ..host
                    },
                )
            },
        },
        old(db)@.well_formed() ==> final(db)@.well_formed(),
        marks_every_change(old(db)@, final(db)@),
{
    let ghost before = db@;
    let ghost at = before.host_index(hostname@) as int;
    proof {
        lemma_unchanged_marks(before);
    }
    match db.host_get(hostname) {
        None => {
            return Err(CommandError::HostUnknown);
        },
        Some(host) => {
            match db.user_get(user_id) {
                None => {
                    return Err(CommandError::UserUnknown);
                },
                Some(user) => {
                    proof {
                        lemma_first_index_found(before.user_ids(), user_id@);
                    }
                    if db.is_user_granted(user, host) {
                        return Err(CommandError::AlreadyGranted);
                    }
                },
            }
        },
    }
    match db.host_get_mut(hostname) {
        Some(host) => {
            let ghost had = host@;
            host.authorized_users.push(user_id.to_owned());
            host.sync_todo = true;
            assert(host@.authorized_users =~= had.authorized_users.push(user_id@));
        },
        None => {},
    }
    proof {
        let changed = HostView {
            authorized_users: before.hosts[at].authorized_users.push(user_id@),
            sync_todo: true,
            ..before.hosts[at]
        };
        assert(db@.hosts =~= before.hosts.update(at, changed));
        lemma_grant_marks_host(before, at, changed);
        if before.well_formed() {
            lemma_with_host_well_formed(before, at, changed);
        }
    }
    Ok(())
}

/// Revokes a user's access to a host, and marks the host as changed.
pub fn revoke(db: &mut Database, user_id: &str, hostname: &str) -> (result: Result<
    (),
    CommandError,
>)
    ensures
        match revoke_refusal(old(db)@, user_id@, hostname@) {
            Some(e) => result == Err::<(), CommandError>(e) && *final(db) == *old(db),
            None => {
                let i = old(db)@.host_index(hostname@) as int;
                let host = old(db)@.hosts[i];
                result is Ok && final(db)@ == with_host(
                    old(db)@,
                    i,
                    HostView {
                        authorized_users: host.authorized_users.filter(differs_from(user_id@)),
                        sync_todo: true,
                        ..host
                    },
                )
            },
        },
        old(db)@.well_formed() ==> final(db)@.well_formed(),
        marks_every_change(old(db)@, final(db)@),
{
    let ghost before = db@;
    let ghost at = before.host_index(hostname@) as int;
    proof {
        lemma_unchanged_marks(before);
    }
    match db.host_get(hostname) {
        None => {
            return Err(CommandError::HostUnknown);
        },
        Some(host) => {
            match db.user_get(user_id) {
                None => {
                    return Err(CommandError::UserUnknown);
                },
                Some(user) => {
                    proof {
                        lemma_first_index_found(before.user_ids(), user_id@);
                    }
                    if !db.is_user_granted(user, host) {
                        return Err(CommandError::NotGranted);
                    }
                },
            }
        },
    }
    match db.host_get_mut(hostname) {
        Some(host) => {
            host.authorized_users = without(&host.authorized_users, user_id);
            host.sync_todo = true;
        },
        None => {},
    }
    proof {
        let changed = HostView {
            authorized_users: before.hosts[at].authorized_users.filter(differs_from(user_id@)),
            sync_todo: true,
            ..before.hosts[at]
        };
        assert(db@.hosts =~= before.hosts.update(at, changed));
        lemma_grant_marks_host(before, at, changed);
        if before.well_formed() {
            lemma_with_host_well_formed(before, at, changed);
        }
    }
    Ok(())
}

/// Whether the first group of that id names the user as a member.
pub open spec fn group_names(
    groups: Seq<UserGroupView>,
    group_id: Seq<char>,
    user_id: Seq<char>,
) -> bool {
    match find_group(groups, group_id) {
        Some(group) => group.members.contains(user_id),
        None => false,
    }
}

/// Whether a host's grants reach a user: the host names the user, or it names
/// a group that names the user.
pub open spec fn reaches_user(
    host: HostView,
    user_id: Seq<char>,
    groups: Seq<UserGroupView>,
) -> bool {
    host.authorized_users.contains(user_id) || exists|k: int|
        0 <= k < host.authorized_user_groups.len() && #[trigger] group_names(
            groups,
            host.authorized_user_groups[k],
            user_id,
        )
}

/// A host after a user was removed: it names the user no longer, and is
/// marked as changed where its grants reached the user.
pub open spec fn host_without_user(user_id: Seq<char>, groups: Seq<UserGroupView>) -> spec_fn(
    HostView,
) -> HostView {
    |h: HostView|
        HostView {
            authorized_users: h.authorized_users.filter(differs_from(user_id)),
            sync_todo: h.sync_todo || reaches_user(h, user_id, groups),
            ..h
        }
}

/// A group after a user was removed: it names the user no longer.
pub open spec fn group_without_user(user_id: Seq<char>) -> spec_fn(UserGroupView) -> UserGroupView {
    |g: UserGroupView| UserGroupView { members: g.members.filter(differs_from(user_id)), ..g }
}

/// The test that a user has another id.
pub open spec fn other_user(user_id: Seq<char>) -> spec_fn(UserView) -> bool {
    |u: UserView| u.user_id != user_id
}

/// The model after a user was removed: the users of that id are gone, and no
/// host and no group names the id any more.
pub open spec fn without_user(db: DatabaseView, user_id: Seq<char>) -> DatabaseView {
    DatabaseView {
        hosts: db.hosts.map_values(host_without_user(user_id, db.user_groups)),
        users: db.users.filter(other_user(user_id)),
        user_groups: db.user_groups.map_values(group_without_user(user_id)),
        ..db
    }
}

fn host_reaches(db: &Database, index: usize, user_id: &str) -> (reached: bool)
    requires
        index < db.hosts@.len(),
    ensures
        reached == reaches_user(db@.hosts[index as int], user_id@, db@.user_groups),
{
    let host = &db.hosts[index];
    if position_of(&host.authorized_users, user_id) < host.authorized_users.len() {
        return true;
    }
    let mut k: usize = 0;
    while k < host.authorized_user_groups.len()
        invariant
            k <= host.authorized_user_groups@.len(),
            host@ == db@.hosts[index as int],
            forall|j: int|
                0 <= j < k ==> !#[trigger] group_names(
                    db@.user_groups,
                    host@.authorized_user_groups[j],
                    user_id@,
                ),
        decreases host.authorized_user_groups@.len() - k,
    {
        match db.group_get(host.authorized_user_groups[k].as_str()) {
            Some(group) => {
                if position_of(&group.members, user_id) < group.members.len() {
                    assert(group_names(
                        db@.user_groups,
                        host@.authorized_user_groups[k as int],
                        user_id@,
                    ));
                    return true;
                }
            },
            None => {},
        }
        k += 1;
    }
    false
}

/// Removes a user: from the users, from the hosts that name the user, and
/// from the groups that name the user. Each host whose grants reached the
/// user, directly or through a group, is marked as changed.
pub fn remove(db: &mut Database, user_id: &str) -> (result: Result<(), CommandError>)
    ensures
        result is Ok == old(db)@.has_user(user_id@),
        result is Err ==> result == Err::<(), CommandError>(CommandError::UserUnknown)
            && *final(db) == *old(db),
        result is Ok ==> final(db)@ == without_user(old(db)@, user_id@),
        old(db)@.well_formed() ==> final(db)@.well_formed(),
        marks_every_change(old(db)@, final(db)@),
{
    proof {
        lemma_unchanged_marks(db@);
    }
    if db.user_get(user_id).is_none() {
        return Err(CommandError::UserUnknown);
    }
    let ghost before = db@;
    let ghost change = host_without_user(user_id@, before.user_groups);
    let mut i: usize = 0;
    while i < db.hosts.len()
        invariant
            i <= db.hosts@.len(),
            db.hosts@.len() == old(db).hosts@.len(),
            before == old(db)@,
            change == host_without_user(user_id@, before.user_groups),
            db.users == old(db).users,
            db.user_groups == old(db).user_groups,
            db.modified_at == old(db).modified_at,
            db.schema_version == old(db).schema_version,
            forall|k: int| 0 <= k < i ==> #[trigger] db@.hosts[k] == change(before.hosts[k]),
            forall|k: int| i <= k < db.hosts@.len() ==> #[trigger] db.hosts@[k] == old(db).hosts@[k],
        decreases db.hosts@.len() - i,
    {
        let ghost had = db@.hosts;
        let reached = host_reaches(db, i, user_id);
        let kept = without(&db.hosts[i].authorized_users, user_id);
        db.hosts[i].authorized_users = kept;
        if reached {
            db.hosts[i].sync_todo = true;
        }
        proof {
            assert forall|k: int| 0 <= k < i implies #[trigger] db@.hosts[k] == change(
                before.hosts[k],
            ) by {
                assert(db@.hosts[k] == had[k]);
            }
        }
        i += 1;
    }
    let ghost shrink = group_without_user(user_id@);
    let mut j: usize = 0;
    while j < db.user_groups.len()
        invariant
            j <= db.user_groups@.len(),
            db.user_groups@.len() == old(db).user_groups@.len(),
            before == old(db)@,
            shrink == group_without_user(user_id@),
            db@.hosts =~= before.hosts.map_values(change),
            db.users == old(db).users,
            db.modified_at == old(db).modified_at,
            db.schema_version == old(db).schema_version,
            forall|k: int| 0 <= k < j ==> #[trigger] db@.user_groups[k] == shrink(
                before.user_groups[k],
            ),
            forall|k: int|
                j <= k < db.user_groups@.len() ==> #[trigger] db.user_groups@[k] == old(
                    db,
                ).user_groups@[k],
        decreases db.user_groups@.len() - j,
    {
        let ghost had = db@.user_groups;
        let kept = without(&db.user_groups[j].members, user_id);
        db.user_groups[j].members = kept;
        proof {
            assert forall|k: int| 0 <= k < j implies #[trigger] db@.user_groups[k] == shrink(
                before.user_groups[k],
            ) by {
                assert(db@.user_groups[k] == had[k]);
            }
        }
        j += 1;
    }
    assert(db@.user_groups =~= before.user_groups.map_values(shrink));
    let mut users: Vec<User> = Vec::new();
    core::mem::swap(&mut users, &mut db.users);
    let ghost keep = other_user(user_id@);
    let ghost hosts_done = db@.hosts;
    let ghost groups_done = db@.user_groups;
    proof {
        assert(Seq::<UserView>::empty().filter(keep) =~= Seq::<UserView>::empty()) by {
            reveal(Seq::filter);
        }
    }
    for user in it: users
        invariant
            before.users == it.seq().map_values(|u: User| u@),
            keep == other_user(user_id@),
            db@.users == before.users.take(it.index() as int).filter(keep),
            db@.hosts == hosts_done,
            db@.user_groups == groups_done,
            db.modified_at == old(db).modified_at,
            db.schema_version == old(db).schema_version,
    {
        proof {
            let done = before.users.take(it.index() as int);
            assert(before.users.take(it.index() + 1) =~= done.push(user@));
            done.lemma_filter_push(user@, keep);
        }
        if !str_eq(user.user_id.as_str(), user_id) {
            db.users.push(user);
        }
    }
    proof {
        assert(before.users.take(before.users.len() as int) =~= before.users);
        lemma_user_removal_marks_hosts(before, user_id@);
        if before.well_formed() {
            lemma_without_user_well_formed(before, user_id@);
        }
    }
    Ok(())
}

/// Removing a user leaves the keys of a model unique.
pub proof fn lemma_without_user_well_formed(db: DatabaseView, user_id: Seq<char>)
    requires
        db.well_formed(),
    ensures
        without_user(db, user_id).well_formed(),
{
    let after = without_user(db, user_id);
    assert(after.hostnames() =~= db.hostnames());
    assert(after.aliases() =~= db.aliases());
    assert(after.group_ids() =~= db.group_ids());
    lemma_filter_keeps_keys_unique(db.users, other_user(user_id), |u: UserView| u.user_id);
    lemma_same_keys_well_formed(db, after);
}

/// A user as `Debug` writes it, on a line of its own.
pub open spec fn raw_user(user: UserView) -> Seq<char> {
    "User { user_id: "@ + quoted(user.user_id) + ", public_key: "@ + quoted(user.public_key)
        + " }\n"@
}

/// A user as the listing shows it: the underlined id.
pub open spec fn shown_user(user: UserView) -> Seq<char> {
    "\n"@ + user.user_id + "\n"@ + underline(user.user_id) + "\n"@
}

/// What the listing holds of the users, in their order: each user under the
/// filter, where the empty filter admits every user and any other the user of
/// that id.
pub open spec fn listed_users(users: Seq<UserView>, filter: Seq<char>, raw: bool) -> Seq<char>
    decreases users.len(),
{
    if users.len() == 0 {
        Seq::empty()
    } else {
        let before = listed_users(users.drop_last(), filter, raw);
        if filter.len() > 0 && filter != users.last().user_id {
            before
        } else if raw {
            before + raw_user(users.last())
        } else {
            before + shown_user(users.last())
        }
    }
}

/// The listing of users: the users under the filter, and an empty line.
pub open spec fn users_listing(users: Seq<UserView>, filter: Seq<char>, raw: bool) -> Seq<char> {
    listed_users(users, filter, raw) + "\n"@
}

/// The listing of the users, for the program to print. With a filter only
/// the user of that id is listed; `print_raw` asks for the users as `Debug`
/// writes them.
pub fn list(db: &Database, user_id_filter: &str, print_raw: bool) -> (out: String)
    ensures
        out@ == users_listing(db@.users, user_id_filter@, print_raw),
{
    let mut out = String::new();
    let mut i: usize = 0;
    assert(db@.users.take(0) =~= Seq::<UserView>::empty());
    while i < db.users.len()
        invariant
            i <= db.users@.len(),
            out@ == listed_users(db@.users.take(i as int), user_id_filter@, print_raw),
        decreases db.users@.len() - i,
    {
        let user = &db.users[i];
        proof {
            let next = db@.users.take(i + 1);
            assert(next.drop_last() =~= db@.users.take(i as int));
            assert(next.last() == user@);
        }
        if user_id_filter.is_empty() || str_eq(user_id_filter, user.user_id.as_str()) {
            let ghost had = out@;
            if print_raw {
                out.append("User { user_id: ");
                push_quoted(&mut out, user.user_id.as_str());
                out.append(", public_key: ");
                push_quoted(&mut out, user.public_key.as_str());
                out.append(" }\n");
                assert(out@ =~= had + raw_user(user@));
            } else {
                out.append("\n");
                out.append(user.user_id.as_str());
                out.append("\n");
                push_underline(&mut out, user.user_id.as_str());
                out.append("\n");
                assert(out@ =~= had + shown_user(user@));
            }
        }
        i += 1;
    }
    assert(db@.users.take(db.users@.len() as int) =~= db@.users);
    out.append("\n");
    out
}

} // verus!
