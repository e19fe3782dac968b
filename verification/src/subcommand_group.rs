//! Commands on user groups: adding and removing them, granting and revoking
//! their access to hosts, changing their members, listing them.

use vstd::prelude::*;
use vstd::string::*;
use crate::command::CommandError;
use crate::compiler::marks_every_change;
use crate::guarantees::{
    lemma_grant_marks_host, lemma_group_removal_marks_hosts, lemma_members_mark_hosts,
};
use crate::database::{
    lemma_filter_keeps_keys_unique, lemma_same_keys_well_formed, Database, DatabaseView,
    HostView, UserGroup, UserGroupView,
};
use crate::listing::{
    bullets, push_bullets, push_quoted, push_quoted_list, push_underline, quoted, quoted_list,
    underline,
};
use crate::subcommand_user::{lemma_unchanged_marks, lemma_with_host_well_formed, with_host};
use crate::text::{differs_from, lemma_first_index_found, position_of, str_eq, without};

verus! {

/// Adds a group without members. The id must be new.
pub fn add(db: &mut Database, group_id: &str) -> (result: Result<(), CommandError>)
    ensures
        result is Err == old(db)@.has_group(group_id@),
        result is Err ==> result == Err::<(), CommandError>(CommandError::GroupExists)
            && *final(db) == *old(db),
        result is Ok ==> final(db)@ == (DatabaseView {
            user_groups: old(db)@.user_groups.push(
                UserGroupView { group_id: group_id@, members: Seq::empty() },
            ),
            ..old(db)@
        }),
        old(db)@.well_formed() ==> final(db)@.well_formed(),
{
    if db.group_get(group_id).is_some() {
        return Err(CommandError::GroupExists);
    }
    let group = UserGroup { group_id: group_id.to_owned(), members: Vec::new() };
    assert(group@.members =~= Seq::empty());
    db.user_groups.push(group);
    proof {
        let before = old(db)@;
        let after = db@;
        assert(after.user_groups =~= before.user_groups.push(group@));
        if before.well_formed() {
            lemma_first_index_found(before.group_ids(), group_id@);
            assert(after.group_ids() =~= before.group_ids().push(group_id@));
            lemma_same_keys_well_formed(before, after);
        }
    }
    Ok(())
}

/// A host that is marked as changed where it names the group.
pub open spec fn host_marked_for(group_id: Seq<char>) -> spec_fn(HostView) -> HostView {
    |h: HostView|
        HostView { sync_todo: h.sync_todo || h.authorized_user_groups.contains(group_id), ..h }
}

/// A host after a group was removed: it names the group no longer, and is
/// marked as changed where it named it.
pub open spec fn host_without_group(group_id: Seq<char>) -> spec_fn(HostView) -> HostView {
    |h: HostView|
        HostView {
            authorized_user_groups: h.authorized_user_groups.filter(differs_from(group_id)),
            sync_todo: h.sync_todo || h.authorized_user_groups.contains(group_id),
            ..h
        }
}

/// The test that a group has another id.
pub open spec fn other_group(group_id: Seq<char>) -> spec_fn(UserGroupView) -> bool {
    |g: UserGroupView| g.group_id != group_id
}

/// The model after a group was removed: the groups of that id are gone, and
/// no host names the id any more.
pub open spec fn without_group(db: DatabaseView, group_id: Seq<char>) -> DatabaseView {
    DatabaseView {
        hosts: db.hosts.map_values(host_without_group(group_id)),
        user_groups: db.user_groups.filter(other_group(group_id)),
        ..db
    }
}

/// Removes a group, also from the hosts that name it. Each of those hosts is
/// marked as changed.
pub fn remove(db: &mut Database, group_id: &str) -> (result: Result<(), CommandError>)
    ensures
        result is Ok == old(db)@.has_group(group_id@),
        result is Err ==> result == Err::<(), CommandError>(CommandError::GroupUnknown)
            && *final(db) == *old(db),
        result is Ok ==> final(db)@ == without_group(old(db)@, group_id@),
        old(db)@.well_formed() ==> final(db)@.well_formed(),
        marks_every_change(old(db)@, final(db)@),
{
    proof {
        lemma_unchanged_marks(db@);
    }
    if db.group_get(group_id).is_none() {
        return Err(CommandError::GroupUnknown);
    }
    let ghost before = db@;
    let ghost change = host_without_group(group_id@);
    let mut i: usize = 0;
    while i < db.hosts.len()
        invariant
            i <= db.hosts@.len(),
            db.hosts@.len() == old(db).hosts@.len(),
            before == old(db)@,
            change == host_without_group(group_id@),
            db.users == old(db).users,
            db.user_groups == old(db).user_groups,
            db.modified_at == old(db).modified_at,
            db.schema_version == old(db).schema_version,
            forall|k: int| 0 <= k < i ==> #[trigger] db@.hosts[k] == change(before.hosts[k]),
            forall|k: int| i <= k < db.hosts@.len() ==> #[trigger] db.hosts@[k] == old(db).hosts@[k],
        decreases db.hosts@.len() - i,
    {
        let ghost had = db@.hosts;
        let named = position_of(&db.hosts[i].authorized_user_groups, group_id)
            < db.hosts[i].authorized_user_groups.len();
        let kept = without(&db.hosts[i].authorized_user_groups, group_id);
        db.hosts[i].authorized_user_groups = kept;
        if named {
            db.hosts[i].sync_todo = true;
        }
        proof {
            assert forall|k: int| 0 <= k < i implies #[trigger] db@.hosts[k] == change(
                before.hosts[k],
            ) by {
                assert(db@.hosts[k] == had[k]);
            }
        }
        i += 1;
    }
    assert(db@.hosts =~= before.hosts.map_values(change));
    let mut groups: Vec<UserGroup> = Vec::new();
    core::mem::swap(&mut groups, &mut db.user_groups);
    let ghost keep = other_group(group_id@);
    let ghost hosts_done = db@.hosts;
    proof {
        assert(Seq::<UserGroupView>::empty().filter(keep) =~= Seq::<UserGroupView>::empty()) by {
            reveal(Seq::filter);
        }
    }
    for group in it: groups
        invariant
            before.user_groups == it.seq().map_values(|g: UserGroup| g@),
            keep == other_group(group_id@),
            db@.user_groups == before.user_groups.take(it.index() as int).filter(keep),
            db@.hosts == hosts_done,
            db.users == old(db).users,
            db.modified_at == old(db).modified_at,
            db.schema_version == old(db).schema_version,
    {
        proof {
            let done = before.user_groups.take(it.index() as int);
            assert(before.user_groups.take(it.index() + 1) =~= done.push(group@));
            done.lemma_filter_push(group@, keep);
        }
        if !str_eq(group.group_id.as_str(), group_id) {
            db.user_groups.push(group);
        }
    }
    proof {
        assert(before.user_groups.take(before.user_groups.len() as int) =~= before.user_groups);
        lemma_group_removal_marks_hosts(before, group_id@);
        if before.well_formed() {
            let after = without_group(before, group_id@);
            assert(after.hostnames() =~= before.hostnames());
            assert(after.aliases() =~= before.aliases());
            lemma_filter_keeps_keys_unique(
                before.user_groups,
                keep,
                |g: UserGroupView| g.group_id,
            );
            lemma_same_keys_well_formed(before, after);
        }
    }
    Ok(())
}

/// Why a group cannot be granted access to a host, if it cannot.
pub open spec fn grant_refusal(db: DatabaseView, group_id: Seq<char>, hostname: Seq<char>) -> Option<
    CommandError,
> {
    if !db.has_host(hostname) {
        Some(CommandError::HostUnknown)
    } else if !db.has_group(group_id) {
        Some(CommandError::GroupUnknown)
    } else if db.hosts[db.host_index(hostname) as int].authorized_user_groups.contains(group_id) {
        Some(CommandError::AlreadyGranted)
    } else {
        None
    }
}

/// Why a group's access to a host cannot be revoked, if it cannot.
pub open spec fn revoke_refusal(
    db: DatabaseView,
    group_id: Seq<char>,
    hostname: Seq<char>,
) -> Option<CommandError> {
    if !db.has_host(hostname) {
        Some(CommandError::HostUnknown)
    } else if !db.has_group(group_id) {
        Some(CommandError::GroupUnknown)
    } else if !db.hosts[db.host_index(hostname) as int].authorized_user_groups.contains(group_id) {
        Some(CommandError::NotGranted)
    } else {
        None
    }
}

/// Grants a group access to a host, and marks the host as changed.
pub fn grant(db: &mut Database, group_id: &str, hostname: &str) -> (result: Result<
    (),
    CommandError,
>)
    ensures
        match grant_refusal(old(db)@, group_id@, hostname@) {
            Some(e) => result == Err::<(), CommandError>(e) && *final(db) == *old(db),
            None => {
                let i = old(db)@.host_index(hostname@) as int;
                let host = old(db)@.hosts[i];
                result is Ok && final(db)@ == with_host(
                    old(db)@,
                    i,
                    HostView {
                        authorized_user_groups: host.authorized_user_groups.push(group_id@),
                        sync_todo: true,
                        ..host
                    },
                )
            },
        },
        old(db)@.well_formed() ==> final(db)@.well_formed(),
        marks_every_change(old(db)@, final(db)@),
{
    let ghost before = db@;
    let ghost at = before.host_index(hostname@) as int;
    proof {
        lemma_unchanged_marks(before);
    }
    match db.host_get(hostname) {
        None => {
            return Err(CommandError::HostUnknown);
        },
        Some(host) => {
            match db.group_get(group_id) {
                None => {
                    return Err(CommandError::GroupUnknown);
                },
                Some(group) => {
                    proof {
                        lemma_first_index_found(before.group_ids(), group_id@);
                    }
                    if db.is_group_granted(group, host) {
                        return Err(CommandError::AlreadyGranted);
                    }
                },
            }
        },
    }
    match db.host_get_mut(hostname) {
        Some(host) => {
            let ghost had = host@;
            host.authorized_user_groups.push(group_id.to_owned());
            host.sync_todo = true;
            assert(host@.authorized_user_groups =~= had.authorized_user_groups.push(group_id@));
        },
        None => {},
    }
    proof {
        let changed = HostView {
            authorized_user_groups: before.hosts[at].authorized_user_groups.push(group_id@),
            sync_todo: true,
            ..before.hosts[at]
        };
        assert(db@.hosts =~= before.hosts.update(at, changed));
        lemma_grant_marks_host(before, at, changed);
        if before.well_formed() {
            lemma_with_host_well_formed(before, at, changed);
        }
    }
    Ok(())
}

/// Revokes a group's access to a host, and marks the host as changed.
pub fn revoke(db: &mut Database, group_id: &str, hostname: &str) -> (result: Result<
    (),
    CommandError,
>)
    ensures
        match revoke_refusal(old(db)@, group_id@, hostname@) {
            Some(e) => result == Err::<(), CommandError>(e) && *final(db) == *old(db),
            None => {
                let i = old(db)@.host_index(hostname@) as int;
                let host = old(db)@.hosts[i];
                result is Ok && final(db)@ == with_host(
                    old(db)@,
                    i,
                    HostView {
                        authorized_user_groups: host.authorized_user_groups.filter(
                            differs_from(group_id@),
                        ),
                        sync_todo: true,
                        ..host
                    },
                )
            },
        },
        old(db)@.well_formed() ==> final(db)@.well_formed(),
        marks_every_change(old(db)@, final(db)@),
{
    let ghost before = db@;
    let ghost at = before.host_index(hostname@) as int;
    proof {
        lemma_unchanged_marks(before);
    }
    match db.host_get(hostname) {
        None => {
            return Err(CommandError::HostUnknown);
        },
        Some(host) => {
            match db.group_get(group_id) {
                None => {
                    return Err(CommandError::GroupUnknown);
                },
                Some(group) => {
                    proof {
                        lemma_first_index_found(before.group_ids(), group_id@);
                    }
                    if !db.is_group_granted(group, host) {
                        return Err(CommandError::NotGranted);
                    }
                },
            }
        },
    }
    match db.host_get_mut(hostname) {
        Some(host) => {
            host.authorized_user_groups = without(&host.authorized_user_groups, group_id);
            host.sync_todo = true;
        },
        None => {},
    }
    proof {
        let changed = HostView {
            authorized_user_groups: before.hosts[at].authorized_user_groups.filter(
                differs_from(group_id@),
            ),
            sync_todo: true,
            ..before.hosts[at]
        };
        assert(db@.hosts =~= before.hosts.update(at, changed));
        lemma_grant_marks_host(before, at, changed);
        if before.well_formed() {
            lemma_with_host_well_formed(before, at, changed);
        }
    }
    Ok(())
}

/// Why a user cannot be made a member of a group, if it cannot.
pub open spec fn user_add_refusal(
    db: DatabaseView,
    group_id: Seq<char>,
    user_id: Seq<char>,
) -> Option<CommandError> {
    if !db.has_user(user_id) {
        Some(CommandError::UserUnknown)
    } else if !db.has_group(group_id) {
        Some(CommandError::GroupUnknown)
    } else if db.user_groups[db.group_index(group_id) as int].members.contains(user_id) {
        Some(CommandError::AlreadyMember)
    } else {
        None
    }
}

/// Why a user cannot be taken out of a group, if it cannot.
pub open spec fn user_remove_refusal(
    db: DatabaseView,
    group_id: Seq<char>,
    user_id: Seq<char>,
) -> Option<CommandError> {
    if !db.has_user(user_id) {
        Some(CommandError::UserUnknown)
    } else if !db.has_group(group_id) {
        Some(CommandError::GroupUnknown)
    } else if !db.user_groups[db.group_index(group_id) as int].members.contains(user_id) {
        Some(CommandError::NotMember)
    } else {
        None
    }
}

/// The model after the members of a group were changed: the first group of
/// that id has the new members, and every host that names the group is
/// marked as changed.
pub open spec fn with_members(
    db: DatabaseView,
    group_id: Seq<char>,
    members: Seq<Seq<char>>,
) -> DatabaseView {
    let i = db.group_index(group_id) as int;
    DatabaseView {
        hosts: db.hosts.map_values(host_marked_for(group_id)),
        user_groups: db.user_groups.update(
            i,
            UserGroupView { members, ..db.user_groups[i] },
        ),
        ..db
    }
}

/// Changing the members of a group leaves the keys of a model unique.
pub proof fn lemma_with_members_well_formed(
    db: DatabaseView,
    group_id: Seq<char>,
    members: Seq<Seq<char>>,
)
    requires
        db.well_formed(),
        db.has_group(group_id),
    ensures
        with_members(db, group_id, members).well_formed(),
{
    let after = with_members(db, group_id, members);
    assert(after.hostnames() =~= db.hostnames());
    assert(after.aliases() =~= db.aliases());
    assert(after.group_ids() =~= db.group_ids());
    lemma_same_keys_well_formed(db, after);
}

fn mark_hosts(db: &mut Database, group_id: &str)
    ensures
        final(db)@ == (DatabaseView {
            hosts: old(db)@.hosts.map_values(host_marked_for(group_id@)),
            ..old(db)@
        }),
{
    let ghost before = db@;
    let ghost change = host_marked_for(group_id@);
    let mut i: usize = 0;
    while i < db.hosts.len()
        invariant
            i <= db.hosts@.len(),
            db.hosts@.len() == old(db).hosts@.len(),
            before == old(db)@,
            change == host_marked_for(group_id@),
            db.users == old(db).users,
            db.user_groups == old(db).user_groups,
            db.modified_at == old(db).modified_at,
            db.schema_version == old(db).schema_version,
            forall|k: int| 0 <= k < i ==> #[trigger] db@.hosts[k] == change(before.hosts[k]),
            forall|k: int| i <= k < db.hosts@.len() ==> #[trigger] db.hosts@[k] == old(db).hosts@[k],
        decreases db.hosts@.len() - i,
    {
        let ghost had = db@.hosts;
        if position_of(&db.hosts[i].authorized_user_groups, group_id)
            < db.hosts[i].authorized_user_groups.len() {
            db.hosts[i].sync_todo = true;
        }
        proof {
            assert forall|k: int| 0 <= k < i implies #[trigger] db@.hosts[k] == change(
                before.hosts[k],
            ) by {
                assert(db@.hosts[k] == had[k]);
            }
        }
        i += 1;
    }
    assert(db@.hosts =~= before.hosts.map_values(change));
}

/// Makes a user a member of a group, and marks every host that names the
/// group as changed.
pub fn user_add(db: &mut Database, group_id: &str, user_id: &str) -> (result: Result<
    (),
    CommandError,
>)
    ensures
        match user_add_refusal(old(db)@, group_id@, user_id@) {
            Some(e) => result == Err::<(), CommandError>(e) && *final(db) == *old(db),
            None => result is Ok && final(db)@ == with_members(
                old(db)@,
                group_id@,
                old(db)@.user_groups[old(db)@.group_index(group_id@) as int].members.push(
                    user_id@,
                ),
            ),
        },
        old(db)@.well_formed() ==> final(db)@.well_formed(),
        marks_every_change(old(db)@, final(db)@),
{
    let ghost before = db@;
    let ghost at = before.group_index(group_id@) as int;
    proof {
        lemma_unchanged_marks(before);
    }
    match db.user_get(user_id) {
        None => {
            return Err(CommandError::UserUnknown);
        },
        Some(user) => {
            proof {
                lemma_first_index_found(before.user_ids(), user_id@);
            }
            match db.group_get(group_id) {
                None => {
                    return Err(CommandError::GroupUnknown);
                },
                Some(group) => {
                    if db.is_user_group_member(user, group) {
                        return Err(CommandError::AlreadyMember);
                    }
                },
            }
        },
    }
    match db.group_get_mut(group_id) {
        Some(group) => {
            let ghost had = group@;
            group.members.push(user_id.to_owned());
            assert(group@.members =~= had.members.push(user_id@));
        },
        None => {},
    }
    let ghost members = before.user_groups[at].members.push(user_id@);
    assert(db@.user_groups =~= before.user_groups.update(
        at,
        UserGroupView { members, ..before.user_groups[at] },
    ));
    mark_hosts(db, group_id);
    proof {
        lemma_members_mark_hosts(before, group_id@, members);
        if before.well_formed() {
            lemma_with_members_well_formed(before, group_id@, members);
        }
    }
    Ok(())
}

/// Takes a user out of a group, and marks every host that names the group as
/// changed.
pub fn user_remove(db: &mut Database, group_id: &str, user_id: &str) -> (result: Result<
    (),
    CommandError,
>)
    ensures
        match user_remove_refusal(old(db)@, group_id@, user_id@) {
            Some(e) => result == Err::<(), CommandError>(e) && *final(db) == *old(db),
            None => result is Ok && final(db)@ == with_members(
                old(db)@,
                group_id@,
                old(db)@.user_groups[old(db)@.group_index(group_id@) as int].members.filter(
                    differs_from(user_id@),
                ),
            ),
        },
        old(db)@.well_formed() ==> final(db)@.well_formed(),
        marks_every_change(old(db)@, final(db)@),
{
    let ghost before = db@;
    let ghost at = before.group_index(group_id@) as int;
    proof {
        lemma_unchanged_marks(before);
    }
    match db.user_get(user_id) {
        None => {
            return Err(CommandError::UserUnknown);
        },
        Some(user) => {
            proof {
                lemma_first_index_found(before.user_ids(), user_id@);
            }
            match db.group_get(group_id) {
                None => {
                    return Err(CommandError::GroupUnknown);
                },
                Some(group) => {
                    if !db.is_user_group_member(user, group) {
                        return Err(CommandError::NotMember);
                    }
                },
            }
        },
    }
    match db.group_get_mut(group_id) {
        Some(group) => {
            group.members = without(&group.members, user_id);
        },
        None => {},
    }
    let ghost members = before.user_groups[at].members.filter(differs_from(user_id@));
    assert(db@.user_groups =~= before.user_groups.update(
        at,
        UserGroupView { members, ..before.user_groups[at] },
    ));
    mark_hosts(db, group_id);
    proof {
        lemma_members_mark_hosts(before, group_id@, members);
        if before.well_formed() {
            lemma_with_members_well_formed(before, group_id@, members);
        }
    }
    Ok(())
}

/// A group as `Debug` writes it, on a line of its own.
pub open spec fn raw_group(group: UserGroupView) -> Seq<char> {
    "UserGroup { group_id: "@ + quoted(group.group_id) + ", members: "@ + quoted_list(
        group.members,
    ) + " }\n"@
}

/// A group as the listing shows it: the underlined id, then the members.
pub open spec fn shown_group(group: UserGroupView) -> Seq<char> {
    "\n"@ + group.group_id + "\n"@ + underline(group.group_id) + "\n\n## Members\n"@ + bullets(
        group.members,
    )
}

/// What the listing holds of the groups, in their order: each group under
/// the filter, where the empty filter admits every group and any other the
/// group of that id.
pub open spec fn listed_groups(groups: Seq<UserGroupView>, filter: Seq<char>, raw: bool) -> Seq<
    char,
>
    decreases groups.len(),
{
    if groups.len() == 0 {
        Seq::empty()
    } else {
        let before = listed_groups(groups.drop_last(), filter, raw);
        if filter.len() > 0 && filter != groups.last().group_id {
            before
        } else if raw {
            before + raw_group(groups.last())
        } else {
            before + shown_group(groups.last())
        }
    }
}

/// The listing of groups: the groups under the filter, and an empty line.
pub open spec fn groups_listing(groups: Seq<UserGroupView>, filter: Seq<char>, raw: bool) -> Seq<
    char,
> {
    listed_groups(groups, filter, raw) + "\n"@
}

/// The listing of the groups, for the program to print. With a filter only
/// the group of that id is listed; `print_raw` asks for the groups as `Debug`
/// writes them.
pub fn list(db: &Database, group_filter: &str, print_raw: bool) -> (out: String)
    ensures
        out@ == groups_listing(db@.user_groups, group_filter@, print_raw),
{
    let mut out = String::new();
    let mut i: usize = 0;
    assert(db@.user_groups.take(0) =~= Seq::<UserGroupView>::empty());
    while i < db.user_groups.len()
        invariant
            i <= db.user_groups@.len(),
            out@ == listed_groups(db@.user_groups.take(i as int), group_filter@, print_raw),
        decreases db.user_groups@.len() - i,
    {
        let group = &db.user_groups[i];
        proof {
            let next = db@.user_groups.take(i + 1);
            assert(next.drop_last() =~= db@.user_groups.take(i as int));
            assert(next.last() == group@);
        }
        if group_filter.is_empty() || str_eq(group_filter, group.group_id.as_str()) {
            let ghost had = out@;
            if print_raw {
                out.append("UserGroup { group_id: ");
                push_quoted(&mut out, group.group_id.as_str());
                out.append(", members: ");
                push_quoted_list(&mut out, &group.members);
                out.append(" }\n");
                assert(out@ =~= had + raw_group(group@));
            } else {
                out.append("\n");
                out.append(group.group_id.as_str());
                out.append("\n");
                push_underline(&mut out, group.group_id.as_str());
                out.append("\n\n## Members\n");
                push_bullets(&mut out, &group.members);
                assert(out@ =~= had + shown_group(group@));
            }
        }
        i += 1;
    }
    assert(db@.user_groups.take(db.user_groups@.len() as int) =~= db@.user_groups);
    out.append("\n");
    out
}

} // verus!
