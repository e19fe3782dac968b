//! What holds of the crate as a whole: statements that tie several of its
//! functions together, each with its proof.

use vstd::prelude::*;
use vstd::utf8::*;
use crate::cli_flow::yes_no;
use crate::compiler::{
    desired_text, granted_blocks, group_blocks, key_block, marks_every_change, user_blocks,
};
use crate::database::{
    find_group, find_user, group_ids_of, user_ids_of, DatabaseView, HostView, UserGroupView,
    UserView,
};
use crate::ssh_config::SSHConfigEntryView;
use crate::subcommand_group::{other_group, with_members, without_group};
use crate::subcommand_sync::{
    at, fetched_text, file_mode, marks_synced, next, FailureCause, HostSyncView, SkipCause,
    SyncActionView, SyncEventView, SyncOptionsView, SyncStep,
};
use crate::subcommand_user::{group_names, other_user, reaches_user, with_host, without_user};
use crate::text::{
    lemma_first_index_found, lemma_first_index_push, lemma_sorted_unique_by_members,
    lemma_without_absent,
};

verus! {

/// Whether a run holds the text that the model asks for, wherever it holds a
/// text to write: while it waits for the operator's answer, and while the
/// write is under way.
pub open spec fn holds_desired(state: HostSyncView, host: HostView, db: DatabaseView) -> bool {
    (state.step is AwaitingConfirmation || state.step is Applying) ==> state.desired
        == desired_text(host, db)
}

/// A run that starts idle and goes on against the same model always holds the
/// text that the model asks for: a step never loses it.
pub proof fn lemma_step_keeps_desired(
    state: HostSyncView,
    event: SyncEventView,
    host: HostView,
    db: DatabaseView,
    table: Seq<SSHConfigEntryView>,
    options: SyncOptionsView,
)
    requires
        holds_desired(state, host, db),
    ensures
        holds_desired(next(state, event, host, db, table, options).0, host, db),
{
}

/// Nothing is written without the operator's yes. A step asks for a write
/// exactly when the run waits for the operator's answer and the answer is
/// `y`; what it asks to write is the text that the run holds, and for a run
/// against one model that is the text that the model asks for.
pub proof fn lemma_write_needs_yes(
    state: HostSyncView,
    event: SyncEventView,
    host: HostView,
    db: DatabaseView,
    table: Seq<SSHConfigEntryView>,
    options: SyncOptionsView,
)
    requires
        holds_desired(state, host, db),
    ensures
        next(state, event, host, db, table, options).1 is Write <==> (state.step
            is AwaitingConfirmation && event is Line && yes_no(event->Line_0) == Some(true)),
        next(state, event, host, db, table, options).1 matches SyncActionView::Write {
            content,
            path,
            ..
        } ==> content == desired_text(host, db) && path == state.remote_path,
        next(state, event, host, db, table, options).0.step is Applying ==> (state.step
            is Applying || next(state, event, host, db, table, options).1 is Write),
{
}

/// The operator's no ends the run for the host: nothing is written, and the
/// host's changes stay pending.
pub proof fn lemma_decline_skips(
    state: HostSyncView,
    input: Seq<char>,
    host: HostView,
    db: DatabaseView,
    table: Seq<SSHConfigEntryView>,
    options: SyncOptionsView,
)
    requires
        state.step is AwaitingConfirmation,
        yes_no(input) == Some(false),
    ensures
        next(state, SyncEventView::Line(input), host, db, table, options) == (
            at(state, SyncStep::Skipped(SkipCause::OperatorDecline)),
            SyncActionView::Finish,
        ),
        !marks_synced(state.step, SyncEventView::Line(input)),
{
}

/// A host counts as brought in line only through a write that was done: the
/// only step that ends in `Synced` is the one that hears of it, and it is the
/// only one that clears the pending flag. A write that failed ends the run
/// as failed.
pub proof fn lemma_synced_needs_write(
    state: HostSyncView,
    event: SyncEventView,
    host: HostView,
    db: DatabaseView,
    table: Seq<SSHConfigEntryView>,
    options: SyncOptionsView,
)
    ensures
        marks_synced(state.step, event) <==> (!(state.step is Synced) && next(
            state,
            event,
            host,
            db,
            table,
            options,
        ).0.step is Synced),
        marks_synced(state.step, event) ==> state.step is Applying && event is Written,
        state.step is Applying && event is WriteFailed ==> next(
            state,
            event,
            host,
            db,
            table,
            options,
        ).0.step == SyncStep::Failed(FailureCause::TransferError),
{
}

/// What a run writes does not depend on what the remote file held. So a
/// second run against the same model writes the text that the first run
/// wrote, and a file that already holds that text is written back as it is.
pub proof fn lemma_written_text_ignores_remote(
    state: HostSyncView,
    first: SyncEventView,
    second: SyncEventView,
    answer: Seq<char>,
    host: HostView,
    db: DatabaseView,
    table: Seq<SSHConfigEntryView>,
    options: SyncOptionsView,
)
    requires
        state.step is Fetching,
        fetched_text(first) is Some,
        fetched_text(second) is Some,
        yes_no(answer) == Some(true),
    ensures
        ({
            let shown_first = next(state, first, host, db, table, options).0;
            let shown_second = next(state, second, host, db, table, options).0;
            let line = SyncEventView::Line(answer);
            let write = SyncActionView::Write {
                path: state.remote_path,
                mode: file_mode(),
                length: encode_utf8(desired_text(host, db)).len() as usize,
                content: desired_text(host, db),
            };
            shown_first.step is AwaitingConfirmation && shown_second.step
                is AwaitingConfirmation ==> next(shown_first, line, host, db, table, options).1
                == write && next(shown_second, line, host, db, table, options).1 == write
        }),
{
}

/// A file that holds a written text is read back as that text. So what a run
/// has written is what the next run compares with.
pub proof fn lemma_written_text_reads_back(content: Seq<char>)
    ensures
        fetched_text(SyncEventView::RemoteContent(encode_utf8(content))) == Some(content),
{
    encode_utf8_valid_utf8(content);
    encode_utf8_decode_utf8(content);
}

/// Whether an id names a user whose key block is `block`.
pub open spec fn names_block(users: Seq<UserView>, user_id: Seq<char>, block: Seq<char>) -> bool {
    match find_user(users, user_id) {
        Some(user) => key_block(user) == block,
        None => false,
    }
}

/// Whether an id names a group with a member whose key block is `block`.
pub open spec fn group_yields(
    groups: Seq<UserGroupView>,
    users: Seq<UserView>,
    group_id: Seq<char>,
    block: Seq<char>,
) -> bool {
    match find_group(groups, group_id) {
        Some(group) => user_blocks(group.members, users).contains(block),
        None => false,
    }
}

/// The key blocks of a list of user ids are those that some id of the list
/// names.
pub proof fn lemma_user_blocks_members(ids: Seq<Seq<char>>, users: Seq<UserView>, block: Seq<char>)
    ensures
        user_blocks(ids, users).contains(block) <==> exists|k: int|
            0 <= k < ids.len() && names_block(users, #[trigger] ids[k], block),
    decreases ids.len(),
{
    if ids.len() > 0 {
        let front = ids.drop_last();
        lemma_user_blocks_members(front, users, block);
        let before = user_blocks(front, users);
        if user_blocks(ids, users).contains(block) {
            if before.contains(block) {
                let k = choose|k: int| 0 <= k < front.len() && names_block(users, #[trigger] front[k], block);
            }
        }
        if exists|k: int| 0 <= k < ids.len() && names_block(users, #[trigger] ids[k], block) {
            let k = choose|k: int| 0 <= k < ids.len() && names_block(users, #[trigger] ids[k], block);
            if k < front.len() {
                assert(names_block(users, front[k], block));
                let w = choose|w: int| 0 <= w < before.len() && before[w] == block;
                assert(user_blocks(ids, users)[w] == block);
            } else {
                let all = user_blocks(ids, users);
                assert(all[all.len() - 1] == block);
            }
        }
    }
}

/// The key blocks of a list of group ids are those that some id of the list
/// leads to.
pub proof fn lemma_group_blocks_members(
    ids: Seq<Seq<char>>,
    groups: Seq<UserGroupView>,
    users: Seq<UserView>,
    block: Seq<char>,
)
    ensures
        group_blocks(ids, groups, users).contains(block) <==> exists|k: int|
            0 <= k < ids.len() && group_yields(groups, users, #[trigger] ids[k], block),
    decreases ids.len(),
{
    if ids.len() > 0 {
        let front = ids.drop_last();
        lemma_group_blocks_members(front, groups, users, block);
        let before = group_blocks(front, groups, users);
        let all = group_blocks(ids, groups, users);
        if all.contains(block) {
            if before.contains(block) {
                let k = choose|k: int|
                    0 <= k < front.len() && group_yields(groups, users, #[trigger] front[k], block);
            } else {
                let w = choose|w: int| 0 <= w < all.len() && all[w] == block;
                let group = find_group(groups, ids.last())->0;
            }
        }
        if exists|k: int|
            0 <= k < ids.len() && group_yields(groups, users, #[trigger] ids[k], block) {
            let k = choose|k: int|
                0 <= k < ids.len() && group_yields(groups, users, #[trigger] ids[k], block);
            if k < front.len() {
                assert(group_yields(groups, users, front[k], block));
                let w = choose|w: int| 0 <= w < before.len() && before[w] == block;
                assert(all[w] == block);
            } else {
                let group = find_group(groups, ids.last())->0;
                let part = user_blocks(group.members, users);
                let w = choose|w: int| 0 <= w < part.len() && part[w] == block;
                assert(all[before.len() + w] == block);
            }
        }
    }
}

/// The text that a host's file should hold is settled by the key blocks
/// that the host's grants lead to, whatever the order in which users, groups
/// and members are listed and however often one is listed.
pub proof fn lemma_desired_text_by_reach(
    a: HostView,
    model_a: DatabaseView,
    b: HostView,
    model_b: DatabaseView,
)
    requires
        forall|x: Seq<char>| reached_block(a, model_a, x) <==> reached_block(b, model_b, x),
    ensures
        desired_text(a, model_a) == desired_text(b, model_b),
{
    let blocks_a = granted_blocks(a, model_a.users, model_a.user_groups);
    let blocks_b = granted_blocks(b, model_b.users, model_b.user_groups);
    assert forall|x: Seq<char>| blocks_a.to_set().contains(x) <==> blocks_b.to_set().contains(
        x,
    ) by {
        lemma_granted_blocks_members(a, model_a, x);
        lemma_granted_blocks_members(b, model_b, x);
    }
    assert(blocks_a.to_set() =~= blocks_b.to_set());
    lemma_sorted_unique_by_members(blocks_a, blocks_b);
}

/// The text that a host's file should hold does not depend on the order in
/// which the host's grants were made, nor on how often one was made: two
/// hosts that name the same users and the same groups get the same text.
pub proof fn lemma_desired_text_ignores_grant_order(a: HostView, b: HostView, db: DatabaseView)
    requires
        a.authorized_users.to_set() == b.authorized_users.to_set(),
        a.authorized_user_groups.to_set() == b.authorized_user_groups.to_set(),
    ensures
        desired_text(a, db) == desired_text(b, db),
{
    assert forall|x: Seq<char>| reached_block(a, db, x) <==> reached_block(b, db, x) by {
        if reached_block(a, db, x) {
            lemma_reached_by_same_grants(a, b, db, x);
        }
        if reached_block(b, db, x) {
            lemma_reached_by_same_grants(b, a, db, x);
        }
    }
    lemma_desired_text_by_reach(a, db, b, db);
}

/// Whether a host's grants lead to a key block: through a user that the host
/// names, or through a group that it names.
pub open spec fn reached_block(host: HostView, db: DatabaseView, block: Seq<char>) -> bool {
    (exists|k: int|
        0 <= k < host.authorized_users.len() && names_block(
            db.users,
            #[trigger] host.authorized_users[k],
            block,
        )) || (exists|k: int|
        0 <= k < host.authorized_user_groups.len() && group_yields(
            db.user_groups,
            db.users,
            #[trigger] host.authorized_user_groups[k],
            block,
        ))
}

/// The key blocks of a host are those that its grants lead to.
pub proof fn lemma_granted_blocks_members(host: HostView, db: DatabaseView, block: Seq<char>)
    ensures
        granted_blocks(host, db.users, db.user_groups).contains(block) <==> reached_block(
            host,
            db,
            block,
        ),
{
    let direct = user_blocks(host.authorized_users, db.users);
    let through = group_blocks(host.authorized_user_groups, db.user_groups, db.users);
    let all = granted_blocks(host, db.users, db.user_groups);
    lemma_user_blocks_members(host.authorized_users, db.users, block);
    lemma_group_blocks_members(host.authorized_user_groups, db.user_groups, db.users, block);
    if all.contains(block) {
        let w = choose|w: int| 0 <= w < all.len() && all[w] == block;
    }
    if direct.contains(block) {
        let w = choose|w: int| 0 <= w < direct.len() && direct[w] == block;
        assert(all[w] == block);
    }
    if through.contains(block) {
        let w = choose|w: int| 0 <= w < through.len() && through[w] == block;
        assert(all[direct.len() + w] == block);
    }
}

proof fn lemma_reached_by_same_grants(a: HostView, b: HostView, db: DatabaseView, block: Seq<char>)
    requires
        a.authorized_users.to_set() == b.authorized_users.to_set(),
        a.authorized_user_groups.to_set() == b.authorized_user_groups.to_set(),
        reached_block(a, db, block),
    ensures
        reached_block(b, db, block),
{
    if exists|k: int|
        0 <= k < a.authorized_users.len() && names_block(
            db.users,
            #[trigger] a.authorized_users[k],
            block,
        ) {
        let k = choose|k: int|
            0 <= k < a.authorized_users.len() && names_block(
                db.users,
                #[trigger] a.authorized_users[k],
                block,
            );
        assert(a.authorized_users.to_set().contains(a.authorized_users[k]));
        let m = choose|m: int|
            0 <= m < b.authorized_users.len() && b.authorized_users[m] == a.authorized_users[k];
    } else {
        let k = choose|k: int|
            0 <= k < a.authorized_user_groups.len() && group_yields(
                db.user_groups,
                db.users,
                #[trigger] a.authorized_user_groups[k],
                block,
            );
        assert(a.authorized_user_groups.to_set().contains(a.authorized_user_groups[k]));
        let m = choose|m: int|
            0 <= m < b.authorized_user_groups.len() && b.authorized_user_groups[m]
                == a.authorized_user_groups[k];
        assert(group_yields(db.user_groups, db.users, b.authorized_user_groups[m], block));
    }
}

/// Granting and revoking, for users and for groups alike, replace one host
/// by one that is marked as changed. Every other host stays as it is, flag
/// and desired text included.
pub proof fn lemma_grant_marks_host(db: DatabaseView, index: int, host: HostView)
    requires
        0 <= index < db.hosts.len(),
        host.sync_todo,
    ensures
        marks_every_change(db, with_host(db, index, host)),
        forall|k: int|
            0 <= k < db.hosts.len() && k != index ==> #[trigger] with_host(db, index, host).hosts[k]
                == db.hosts[k],
{
}

/// The first user of an id in a list with one more user at its end.
pub proof fn lemma_find_user_push(users: Seq<UserView>, last: UserView, user_id: Seq<char>)
    ensures
        find_user(users.push(last), user_id) == (if find_user(users, user_id) is Some {
            find_user(users, user_id)
        } else if last.user_id == user_id {
            Some(last)
        } else {
            None
        }),
{
    assert(user_ids_of(users.push(last)) =~= user_ids_of(users).push(last.user_id));
    lemma_first_index_push(user_ids_of(users), last.user_id, user_id);
}

/// The first group of an id in a list with one more group at its end.
pub proof fn lemma_find_group_push(
    groups: Seq<UserGroupView>,
    last: UserGroupView,
    group_id: Seq<char>,
)
    ensures
        find_group(groups.push(last), group_id) == (if find_group(groups, group_id) is Some {
            find_group(groups, group_id)
        } else if last.group_id == group_id {
            Some(last)
        } else {
            None
        }),
{
    assert(group_ids_of(groups.push(last)) =~= group_ids_of(groups).push(last.group_id));
    lemma_first_index_push(group_ids_of(groups), last.group_id, group_id);
}

/// Removing the users of one id does not change which user another id names.
pub proof fn lemma_find_user_after_removal(
    users: Seq<UserView>,
    removed: Seq<char>,
    user_id: Seq<char>,
)
    requires
        user_id != removed,
    ensures
        find_user(users.filter(other_user(removed)), user_id) == find_user(users, user_id),
    decreases users.len(),
{
    reveal(Seq::filter);
    if users.len() > 0 {
        let front = users.drop_last();
        let last = users.last();
        lemma_find_user_after_removal(front, removed, user_id);
        assert(users =~= front.push(last));
        lemma_find_user_push(front, last, user_id);
        front.lemma_filter_push(last, other_user(removed));
        if last.user_id != removed {
            lemma_find_user_push(front.filter(other_user(removed)), last, user_id);
        }
    }
}

/// Removing the groups of one id does not change which group another id
/// names.
pub proof fn lemma_find_group_after_removal(
    groups: Seq<UserGroupView>,
    removed: Seq<char>,
    group_id: Seq<char>,
)
    requires
        group_id != removed,
    ensures
        find_group(groups.filter(other_group(removed)), group_id) == find_group(groups, group_id),
    decreases groups.len(),
{
    reveal(Seq::filter);
    if groups.len() > 0 {
        let front = groups.drop_last();
        let last = groups.last();
        lemma_find_group_after_removal(front, removed, group_id);
        assert(groups =~= front.push(last));
        lemma_find_group_push(front, last, group_id);
        front.lemma_filter_push(last, other_group(removed));
        if last.group_id != removed {
            lemma_find_group_push(front.filter(other_group(removed)), last, group_id);
        }
    }
}

/// Changing the members of a group marks every host that names the group.
/// Every other host stays as it is, flag and desired text included.
pub proof fn lemma_members_mark_hosts(
    db: DatabaseView,
    group_id: Seq<char>,
    members: Seq<Seq<char>>,
)
    requires
        db.has_group(group_id),
    ensures
        marks_every_change(db, with_members(db, group_id, members)),
        forall|k: int|
            0 <= k < db.hosts.len() && !db.hosts[k].authorized_user_groups.contains(group_id)
                ==> #[trigger] with_members(db, group_id, members).hosts[k] == db.hosts[k],
{
    let after = with_members(db, group_id, members);
    lemma_first_index_found(db.group_ids(), group_id);
    assert(group_ids_of(after.user_groups) =~= group_ids_of(db.user_groups));
    assert forall|i: int|
        0 <= i < db.hosts.len() && desired_text(#[trigger] after.hosts[i], after) != desired_text(
            db.hosts[i],
            db,
        ) implies after.hosts[i].sync_todo by {
        let host = db.hosts[i];
        if !host.authorized_user_groups.contains(group_id) {
            assert forall|x: Seq<char>| reached_block(host, after, x) <==> reached_block(
                host,
                db,
                x,
            ) by {
                assert forall|k: int| 0 <= k < host.authorized_user_groups.len() implies find_group(
                    after.user_groups,
                    #[trigger] host.authorized_user_groups[k],
                ) == find_group(db.user_groups, host.authorized_user_groups[k]) by {
                    let id = host.authorized_user_groups[k];
                    lemma_first_index_found(db.group_ids(), id);
                }
            }
            lemma_desired_text_by_reach(host, after, host, db);
        }
    }
}

/// Removing a group marks every host that names the group. Every other host
/// stays as it is, flag and desired text included.
pub proof fn lemma_group_removal_marks_hosts(db: DatabaseView, group_id: Seq<char>)
    ensures
        marks_every_change(db, without_group(db, group_id)),
        forall|k: int|
            0 <= k < db.hosts.len() && !db.hosts[k].authorized_user_groups.contains(group_id)
                ==> #[trigger] without_group(db, group_id).hosts[k] == db.hosts[k],
{
    let after = without_group(db, group_id);
    assert forall|k: int|
        0 <= k < db.hosts.len() && !db.hosts[k].authorized_user_groups.contains(
            group_id,
        ) implies #[trigger] after.hosts[k] == db.hosts[k] by {
        lemma_without_absent(db.hosts[k].authorized_user_groups, group_id);
    }
    assert forall|i: int|
        0 <= i < db.hosts.len() && desired_text(#[trigger] after.hosts[i], after) != desired_text(
            db.hosts[i],
            db,
        ) implies after.hosts[i].sync_todo by {
        let host = db.hosts[i];
        if !host.authorized_user_groups.contains(group_id) {
            assert forall|x: Seq<char>| reached_block(host, after, x) <==> reached_block(
                host,
                db,
                x,
            ) by {
                assert forall|k: int| 0 <= k < host.authorized_user_groups.len() implies find_group(
                    after.user_groups,
                    #[trigger] host.authorized_user_groups[k],
                ) == find_group(db.user_groups, host.authorized_user_groups[k]) by {
                    let id = host.authorized_user_groups[k];
                    lemma_find_group_after_removal(db.user_groups, group_id, id);
                }
            }
            lemma_desired_text_by_reach(host, after, host, db);
        }
    }
}

/// Removing a user marks every host whose grants reached the user, directly
/// or through a group. Every other host stays as it is, flag and desired text
/// included.
pub proof fn lemma_user_removal_marks_hosts(db: DatabaseView, user_id: Seq<char>)
    ensures
        marks_every_change(db, without_user(db, user_id)),
        forall|k: int|
            0 <= k < db.hosts.len() && !reaches_user(db.hosts[k], user_id, db.user_groups)
                ==> #[trigger] without_user(db, user_id).hosts[k] == db.hosts[k],
{
    let after = without_user(db, user_id);
    assert forall|k: int|
        0 <= k < db.hosts.len() && !reaches_user(
            db.hosts[k],
            user_id,
            db.user_groups,
        ) implies #[trigger] after.hosts[k] == db.hosts[k] by {
        lemma_without_absent(db.hosts[k].authorized_users, user_id);
    }
    assert(group_ids_of(after.user_groups) =~= group_ids_of(db.user_groups));
    assert forall|i: int|
        0 <= i < db.hosts.len() && desired_text(#[trigger] after.hosts[i], after) != desired_text(
            db.hosts[i],
            db,
        ) implies after.hosts[i].sync_todo by {
        let host = db.hosts[i];
        if !reaches_user(host, user_id, db.user_groups) {
            assert forall|x: Seq<char>| reached_block(host, after, x) <==> reached_block(
                host,
                db,
                x,
            ) by {
                assert forall|k: int| 0 <= k < host.authorized_users.len() implies names_block(
                    after.users,
                    #[trigger] host.authorized_users[k],
                    x,
                ) == names_block(db.users, host.authorized_users[k], x) by {
                    let id = host.authorized_users[k];
                    lemma_find_user_after_removal(db.users, user_id, id);
                }
                assert forall|k: int| 0 <= k < host.authorized_user_groups.len() implies group_yields(
                    after.user_groups,
                    after.users,
                    #[trigger] host.authorized_user_groups[k],
                    x,
                ) == group_yields(db.user_groups, db.users, host.authorized_user_groups[k], x) by {
                    let id = host.authorized_user_groups[k];
                    assert(!group_names(db.user_groups, id, user_id));
                    if find_group(db.user_groups, id) is Some {
                        let group = find_group(db.user_groups, id)->0;
                        lemma_without_absent(group.members, user_id);
                        lemma_user_blocks_after_removal(group.members, db.users, user_id, x);
                    }
                }
            }
            lemma_desired_text_by_reach(host, after, host, db);
        }
    }
}

/// Removing a user does not change the key blocks of a list that does not
/// name the user.
pub proof fn lemma_user_blocks_after_removal(
    ids: Seq<Seq<char>>,
    users: Seq<UserView>,
    removed: Seq<char>,
    block: Seq<char>,
)
    requires
        !ids.contains(removed),
    ensures
        user_blocks(ids, users.filter(other_user(removed))).contains(block) == user_blocks(
            ids,
            users,
        ).contains(block),
{
    let fewer = users.filter(other_user(removed));
    lemma_user_blocks_members(ids, users, block);
    lemma_user_blocks_members(ids, fewer, block);
    assert forall|k: int| 0 <= k < ids.len() implies names_block(fewer, #[trigger] ids[k], block)
        == names_block(users, ids[k], block) by {
        lemma_find_user_after_removal(users, removed, ids[k]);
    }
}

} // verus!
