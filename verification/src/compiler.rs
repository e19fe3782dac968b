//! The desired state of a host: the text that its `authorized_keys` file
//! should hold, worked out from the grants of the model.

use vstd::prelude::*;
use vstd::string::*;
use crate::database::{
    find_group, find_user, Database, DatabaseView, Host, HostView, UserGroupView, UserView,
};
use crate::text::{join, join_with, sort_unique, sorted_unique, views};

verus! {

/// The two lines that authorize one user: a comment with the user's id, and
/// the user's public key.
pub open spec fn key_block(user: UserView) -> Seq<char> {
    seq!['#', ' '] + user.user_id + seq!['\n'] + user.public_key
}

/// The key blocks of the users that `ids` name, in the order of `ids`. An id
/// that names no user gives no block.
pub open spec fn user_blocks(ids: Seq<Seq<char>>, users: Seq<UserView>) -> Seq<Seq<char>>
    decreases ids.len(),
{
    if ids.len() == 0 {
        Seq::empty()
    } else {
        let before = user_blocks(ids.drop_last(), users);
        match find_user(users, ids.last()) {
            Some(user) => before.push(key_block(user)),
            None => before,
        }
    }
}

/// The key blocks of the members of the groups that `ids` name. An id that
/// names no group gives no block.
pub open spec fn group_blocks(
    ids: Seq<Seq<char>>,
    groups: Seq<UserGroupView>,
    users: Seq<UserView>,
) -> Seq<Seq<char>>
    decreases ids.len(),
{
    if ids.len() == 0 {
        Seq::empty()
    } else {
        let before = group_blocks(ids.drop_last(), groups, users);
        match find_group(groups, ids.last()) {
            Some(group) => before + user_blocks(group.members, users),
            None => before,
        }
    }
}

/// Every key block that the host's grants lead to: first those of its users,
/// then those of its groups. A block may occur more than once.
pub open spec fn granted_blocks(
    host: HostView,
    users: Seq<UserView>,
    groups: Seq<UserGroupView>,
) -> Seq<Seq<char>> {
    user_blocks(host.authorized_users, users) + group_blocks(
        host.authorized_user_groups,
        groups,
        users,
    )
}

/// The key blocks of a host as its file lists them: each once, in
/// lexicographic order.
pub open spec fn desired_blocks(host: HostView, db: DatabaseView) -> Seq<Seq<char>> {
    sorted_unique(granted_blocks(host, db.users, db.user_groups))
}

/// What the host's `authorized_keys` file should hold: the blocks with an
/// empty line between neighbours, and a newline at the end.
pub open spec fn desired_text(host: HostView, db: DatabaseView) -> Seq<char> {
    join(desired_blocks(host, db), seq!['\n', '\n']) + seq!['\n']
}

/// Whether every host whose desired text differs between two models is
/// marked as changed in the second. The hosts of the two models correspond by
/// their places.
pub open spec fn marks_every_change(before: DatabaseView, after: DatabaseView) -> bool {
    &&& after.hosts.len() == before.hosts.len()
    &&& forall|i: int|
        0 <= i < before.hosts.len() && desired_text(#[trigger] after.hosts[i], after)
            != desired_text(before.hosts[i], before) ==> after.hosts[i].sync_todo
}

fn push_user_blocks(blocks: &mut Vec<String>, ids: &Vec<String>, db: &Database)
    ensures
        views(final(blocks)@) == views(old(blocks)@) + user_blocks(views(ids@), db@.users),
{
    let ghost start = views(blocks@);
    let mut i: usize = 0;
    proof {
        assert(views(ids@).take(0) =~= Seq::<Seq<char>>::empty());
        assert(start + user_blocks(views(ids@).take(0), db@.users) =~= start);
    }
    while i < ids.len()
        invariant
            i <= ids@.len(),
            views(blocks@) == start + user_blocks(views(ids@).take(i as int), db@.users),
        decreases ids@.len() - i,
    {
        let ghost done = views(ids@).take(i as int);
        let ghost next = views(ids@).take(i + 1);
        let ghost had = views(blocks@);
        proof {
            assert(next.drop_last() =~= done);
            assert(next.last() == ids@[i as int]@);
        }
        match db.user_get(ids[i].as_str()) {
            Some(user) => {
                let mut block = String::from_str("# ");
                block.append(user.user_id.as_str());
                block.append("\n");
                block.append(user.public_key.as_str());
                proof {
                    reveal_strlit("# ");
                    reveal_strlit("\n");
                    assert("# "@ =~= seq!['#', ' ']);
                    assert("\n"@ =~= seq!['\n']);
                    assert(user@ == db@.users[db@.user_index(ids@[i as int]@) as int]);
                    assert(block@ =~= key_block(user@));
                    assert(views(blocks@.push(block)) =~= had.push(block@));
                    assert(had.push(block@) =~= start + user_blocks(next, db@.users));
                }
                blocks.push(block);
            },
            None => {},
        }
        i += 1;
    }
    assert(views(ids@).take(ids@.len() as int) =~= views(ids@));
}

/// The key blocks that a host's file should hold: one for each user that the
/// host's grants reach, directly or through a group, each once and in
/// lexicographic order.
pub fn compile_blocks(host: &Host, db: &Database) -> (blocks: Vec<String>)
    ensures
        views(blocks@) == desired_blocks(host@, db@),
{
    let mut collected: Vec<String> = Vec::new();
    assert(views(collected@) =~= Seq::<Seq<char>>::empty());
    push_user_blocks(&mut collected, &host.authorized_users, db);
    assert(views(collected@) =~= user_blocks(host@.authorized_users, db@.users));
    let ghost direct = views(collected@);
    let ghost groups = host@.authorized_user_groups;
    let mut i: usize = 0;
    proof {
        assert(groups.take(0) =~= Seq::<Seq<char>>::empty());
        assert(direct + group_blocks(groups.take(0), db@.user_groups, db@.users) =~= direct);
    }
    while i < host.authorized_user_groups.len()
        invariant
            i <= groups.len(),
            groups == views(host.authorized_user_groups@),
            views(collected@) == direct + group_blocks(
                groups.take(i as int),
                db@.user_groups,
                db@.users,
            ),
        decreases groups.len() - i,
    {
        let ghost done = groups.take(i as int);
        let ghost next = groups.take(i + 1);
        proof {
            assert(next.drop_last() =~= done);
            assert(next.last() == host.authorized_user_groups@[i as int]@);
        }
        match db.group_get(host.authorized_user_groups[i].as_str()) {
            Some(group) => {
                push_user_blocks(&mut collected, &group.members, db);
                proof {
                    let members = db@.user_groups[db@.group_index(next.last()) as int].members;
                    assert(group@.members == members);
                    assert(views(collected@) =~= direct + group_blocks(
                        next,
                        db@.user_groups,
                        db@.users,
                    ));
                }
            },
            None => {},
        }
        i += 1;
    }
    assert(groups.take(groups.len() as int) =~= groups);
    sort_unique(&collected)
}

/// The text that a host's `authorized_keys` file should hold.
pub fn compile(host: &Host, db: &Database) -> (text: String)
    ensures
        text@ == desired_text(host@, db@),
{
    let blocks = compile_blocks(host, db);
    let mut text = join_with(&blocks, "\n\n");
    text.append("\n");
    proof {
        reveal_strlit("\n\n");
        reveal_strlit("\n");
        assert("\n\n"@ =~= seq!['\n', '\n']);
        assert("\n"@ =~= seq!['\n']);
    }
    text
}

} // verus!
