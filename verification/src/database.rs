//! The authorization model: hosts, users, user groups and the grants that
//! connect them.

use vstd::prelude::*;
use crate::text::{
    first_index, lemma_first_index, lemma_origin, lemma_origin_grows, origin, position_of, str_eq,
    views,
};

verus! {

/// A host whose `authorized_keys` file is managed.
#[derive(Debug, Clone, PartialEq, Eq)]
pub struct Host {
    /// The key of the host; it may carry a port, as in `host:port`.
    pub hostname: String,
    /// A second name for the host.
    pub alias: Option<String>,
    /// The users granted access to the host.
    pub authorized_users: Vec<String>,
    /// The user groups granted access to the host.
    pub authorized_user_groups: Vec<String>,
    /// True while the remote file may differ from what the model asks for.
    pub sync_todo: bool,
}

/// A user and the public key that stands for them.
#[derive(Debug, Clone, PartialEq, Eq)]
pub struct User {
    pub user_id: String,
    pub public_key: String,
}

/// A named set of users.
#[derive(Debug, Clone, PartialEq, Eq)]
pub struct UserGroup {
    pub group_id: String,
    pub members: Vec<String>,
}

/// The whole model.
#[derive(Debug, Clone, PartialEq, Eq)]
pub struct Database {
    pub hosts: Vec<Host>,
    pub users: Vec<User>,
    pub user_groups: Vec<UserGroup>,
    pub modified_at: String,
    pub schema_version: String,
}

/// What a `Host` holds, as plain values.
pub struct HostView {
    pub hostname: Seq<char>,
    pub alias: Option<Seq<char>>,
    pub authorized_users: Seq<Seq<char>>,
    pub authorized_user_groups: Seq<Seq<char>>,
    pub sync_todo: bool,
}

/// What a `User` holds, as plain values.
pub struct UserView {
    pub user_id: Seq<char>,
    pub public_key: Seq<char>,
}

/// What a `UserGroup` holds, as plain values.
pub struct UserGroupView {
    pub group_id: Seq<char>,
    pub members: Seq<Seq<char>>,
}

/// What a `Database` holds, as plain values.
pub struct DatabaseView {
    pub hosts: Seq<HostView>,
    pub users: Seq<UserView>,
    pub user_groups: Seq<UserGroupView>,
    pub modified_at: Seq<char>,
    pub schema_version: Seq<char>,
}

/// The view of an optional string.
pub open spec fn option_view(s: Option<String>) -> Option<Seq<char>> {
    match s {
        Some(t) => Some(t@),
        None => None,
    }
}

impl View for Host {
    type V = HostView;

    open spec fn view(&self) -> HostView {
        HostView {
            hostname: self.hostname@,
            alias: option_view(self.alias),
            authorized_users: views(self.authorized_users@),
            authorized_user_groups: views(self.authorized_user_groups@),
            sync_todo: self.sync_todo,
        }
    }
}

impl View for User {
    type V = UserView;

    open spec fn view(&self) -> UserView {
        UserView { user_id: self.user_id@, public_key: self.public_key@ }
    }
}

impl View for UserGroup {
    type V = UserGroupView;

    open spec fn view(&self) -> UserGroupView {
        UserGroupView { group_id: self.group_id@, members: views(self.members@) }
    }
}

impl View for Database {
    type V = DatabaseView;

    open spec fn view(&self) -> DatabaseView {
        DatabaseView {
            hosts: self.hosts@.map_values(|h: Host| h@),
            users: self.users@.map_values(|u: User| u@),
            user_groups: self.user_groups@.map_values(|g: UserGroup| g@),
            modified_at: self.modified_at@,
            schema_version: self.schema_version@,
        }
    }
}

/// The hostnames, in the order of the hosts.
pub open spec fn hostnames_of(hosts: Seq<HostView>) -> Seq<Seq<char>> {
    hosts.map_values(|h: HostView| h.hostname)
}

/// The aliases, in the order of the hosts.
pub open spec fn aliases_of(hosts: Seq<HostView>) -> Seq<Option<Seq<char>>> {
    hosts.map_values(|h: HostView| h.alias)
}

/// The user ids, in the order of the users.
pub open spec fn user_ids_of(users: Seq<UserView>) -> Seq<Seq<char>> {
    users.map_values(|u: UserView| u.user_id)
}

/// The group ids, in the order of the groups.
pub open spec fn group_ids_of(groups: Seq<UserGroupView>) -> Seq<Seq<char>> {
    groups.map_values(|g: UserGroupView| g.group_id)
}

/// The first user of that id, if there is one.
pub open spec fn find_user(users: Seq<UserView>, user_id: Seq<char>) -> Option<UserView> {
    let i = first_index(user_ids_of(users), user_id) as int;
    if i < users.len() {
        Some(users[i])
    } else {
        None
    }
}

/// The first group of that id, if there is one.
pub open spec fn find_group(groups: Seq<UserGroupView>, group_id: Seq<char>) -> Option<
    UserGroupView,
> {
    let i = first_index(group_ids_of(groups), group_id) as int;
    if i < groups.len() {
        Some(groups[i])
    } else {
        None
    }
}

impl DatabaseView {
    /// The hostnames, in the order of the hosts.
    pub open spec fn hostnames(self) -> Seq<Seq<char>> {
        hostnames_of(self.hosts)
    }

    /// The aliases, in the order of the hosts.
    pub open spec fn aliases(self) -> Seq<Option<Seq<char>>> {
        aliases_of(self.hosts)
    }

    /// The user ids, in the order of the users.
    pub open spec fn user_ids(self) -> Seq<Seq<char>> {
        user_ids_of(self.users)
    }

    /// The group ids, in the order of the groups.
    pub open spec fn group_ids(self) -> Seq<Seq<char>> {
        group_ids_of(self.user_groups)
    }

    /// Where the first host of that hostname stands; the number of hosts
    /// where there is none.
    pub open spec fn host_index(self, hostname: Seq<char>) -> nat {
        first_index(self.hostnames(), hostname)
    }

    /// Where the first host of that alias stands; the number of hosts where
    /// there is none.
    pub open spec fn alias_index(self, alias: Seq<char>) -> nat {
        first_index(self.aliases(), Some(alias))
    }

    /// Where the first user of that id stands; the number of users where
    /// there is none.
    pub open spec fn user_index(self, user_id: Seq<char>) -> nat {
        first_index(self.user_ids(), user_id)
    }

    /// Where the first group of that id stands; the number of groups where
    /// there is none.
    pub open spec fn group_index(self, group_id: Seq<char>) -> nat {
        first_index(self.group_ids(), group_id)
    }

    /// Whether a host has that hostname.
    pub open spec fn has_host(self, hostname: Seq<char>) -> bool {
        self.host_index(hostname) < self.hosts.len()
    }

    /// Whether a host has that alias.
    pub open spec fn has_alias(self, alias: Seq<char>) -> bool {
        self.alias_index(alias) < self.hosts.len()
    }

    /// Whether a user has that id.
    pub open spec fn has_user(self, user_id: Seq<char>) -> bool {
        self.user_index(user_id) < self.users.len()
    }

    /// Whether a group has that id.
    pub open spec fn has_group(self, group_id: Seq<char>) -> bool {
        self.group_index(group_id) < self.user_groups.len()
    }

    /// No key is used twice: hostnames, aliases, user ids and group ids are
    /// each unique, and no alias is also a hostname.
    pub open spec fn well_formed(self) -> bool {
        &&& self.hostnames().no_duplicates()
        &&& self.user_ids().no_duplicates()
        &&& self.group_ids().no_duplicates()
        &&& forall|i: int, j: int|
            0 <= i < self.hosts.len() && 0 <= j < self.hosts.len() && i != j
                && self.hosts[i].alias is Some ==> #[trigger] self.hosts[i].alias
                != #[trigger] self.hosts[j].alias
        &&& forall|i: int, j: int|
            #![trigger self.hosts[i].alias, self.hosts[j].hostname]
            0 <= i < self.hosts.len() && 0 <= j < self.hosts.len()
                ==> self.hosts[i].alias != Some(self.hosts[j].hostname)
    }
}

impl Database {
    fn host_position(&self, hostname: &str) -> (i: usize)
        ensures
            i == self@.host_index(hostname@),
            i <= self.hosts@.len(),
    {
        let mut i: usize = 0;
        while i < self.hosts.len()
            invariant
                i <= self.hosts@.len(),
                forall|j: int| 0 <= j < i ==> self@.hostnames()[j] != hostname@,
            ensures
                i < self.hosts@.len() ==> self@.hostnames()[i as int] == hostname@,
            decreases self.hosts@.len() - i,
        {
            if str_eq(self.hosts[i].hostname.as_str(), hostname) {
                break;
            }
            i += 1;
        }
        proof {
            lemma_first_index(self@.hostnames(), hostname@, i as int);
        }
        i
    }

    fn alias_position(&self, alias: &str) -> (i: usize)
        ensures
            i == self@.alias_index(alias@),
            i <= self.hosts@.len(),
    {
        let mut i: usize = 0;
        while i < self.hosts.len()
            invariant
                i <= self.hosts@.len(),
                forall|j: int| 0 <= j < i ==> self@.aliases()[j] != Some(alias@),
            ensures
                i < self.hosts@.len() ==> self@.aliases()[i as int] == Some(alias@),
            decreases self.hosts@.len() - i,
        {
            let found = match &self.hosts[i].alias {
                Some(a) => str_eq(a.as_str(), alias),
                None => false,
            };
            if found {
                break;
            }
            i += 1;
        }
        proof {
            lemma_first_index(self@.aliases(), Some(alias@), i as int);
        }
        i
    }

    fn user_position(&self, user_id: &str) -> (i: usize)
        ensures
            i == self@.user_index(user_id@),
            i <= self.users@.len(),
    {
        let mut i: usize = 0;
        while i < self.users.len()
            invariant
                i <= self.users@.len(),
                forall|j: int| 0 <= j < i ==> self@.user_ids()[j] != user_id@,
            ensures
                i < self.users@.len() ==> self@.user_ids()[i as int] == user_id@,
            decreases self.users@.len() - i,
        {
            if str_eq(self.users[i].user_id.as_str(), user_id) {
                break;
            }
            i += 1;
        }
        proof {
            lemma_first_index(self@.user_ids(), user_id@, i as int);
        }
        i
    }

    fn group_position(&self, group_id: &str) -> (i: usize)
        ensures
            i == self@.group_index(group_id@),
            i <= self.user_groups@.len(),
    {
        let mut i: usize = 0;
        while i < self.user_groups.len()
            invariant
                i <= self.user_groups@.len(),
                forall|j: int| 0 <= j < i ==> self@.group_ids()[j] != group_id@,
            ensures
                i < self.user_groups@.len() ==> self@.group_ids()[i as int] == group_id@,
            decreases self.user_groups@.len() - i,
        {
            if str_eq(self.user_groups[i].group_id.as_str(), group_id) {
                break;
            }
            i += 1;
        }
        proof {
            lemma_first_index(self@.group_ids(), group_id@, i as int);
        }
        i
    }

    /// The first host of that hostname.
    pub fn host_get(&self, hostname: &str) -> (found: Option<&Host>)
        ensures
            found is Some == self@.has_host(hostname@),
            found matches Some(h) ==> *h == self.hosts@[self@.host_index(hostname@) as int],
    {
        let i = self.host_position(hostname);
        if i < self.hosts.len() {
            Some(&self.hosts[i])
        } else {
            None
        }
    }

    /// The first host of that alias.
    pub fn host_get_by_alias(&self, alias: &str) -> (found: Option<&Host>)
        ensures
            found is Some == self@.has_alias(alias@),
            found matches Some(h) ==> *h == self.hosts@[self@.alias_index(alias@) as int],
    {
        let i = self.alias_position(alias);
        if i < self.hosts.len() {
            Some(&self.hosts[i])
        } else {
            None
        }
    }

    /// The first host of that hostname, to be changed in place.
    pub fn host_get_mut(&mut self, hostname: &str) -> (found: Option<&mut Host>)
        ensures
            found is Some == old(self)@.has_host(hostname@),
            found is None ==> *final(self) == *old(self),
            found matches Some(h) ==> {
                let i = old(self)@.host_index(hostname@) as int;
                &&& *h == old(self).hosts@[i]
                &&& final(self).hosts@ == old(self).hosts@.update(i, *final(h))
                &&& final(self).users == old(self).users
                &&& final(self).user_groups == old(self).user_groups
                &&& final(self).modified_at == old(self).modified_at
                &&& final(self).schema_version == old(self).schema_version
            },
    {
        let i = self.host_position(hostname);
        if i < self.hosts.len() {
            Some(&mut self.hosts[i])
        } else {
            None
        }
    }

    /// The first user of that id.
    pub fn user_get(&self, user_id: &str) -> (found: Option<&User>)
        ensures
            found is Some == self@.has_user(user_id@),
            found matches Some(u) ==> *u == self.users@[self@.user_index(user_id@) as int],
    {
        let i = self.user_position(user_id);
        if i < self.users.len() {
            Some(&self.users[i])
        } else {
            None
        }
    }

    /// The first user of that id, to be changed in place.
    pub fn user_get_mut(&mut self, user_id: &str) -> (found: Option<&mut User>)
        ensures
            found is Some == old(self)@.has_user(user_id@),
            found is None ==> *final(self) == *old(self),
            found matches Some(u) ==> {
                let i = old(self)@.user_index(user_id@) as int;
                &&& *u == old(self).users@[i]
                &&& final(self).users@ == old(self).users@.update(i, *final(u))
                &&& final(self).hosts == old(self).hosts
                &&& final(self).user_groups == old(self).user_groups
                &&& final(self).modified_at == old(self).modified_at
                &&& final(self).schema_version == old(self).schema_version
            },
    {
        let i = self.user_position(user_id);
        if i < self.users.len() {
            Some(&mut self.users[i])
        } else {
            None
        }
    }

    /// The first group of that id.
    pub fn group_get(&self, group_id: &str) -> (found: Option<&UserGroup>)
        ensures
            found is Some == self@.has_group(group_id@),
            found matches Some(g) ==> *g == self.user_groups@[self@.group_index(group_id@) as int],
    {
        let i = self.group_position(group_id);
        if i < self.user_groups.len() {
            Some(&self.user_groups[i])
        } else {
            None
        }
    }

    /// The first group of that id, to be changed in place.
    pub fn group_get_mut(&mut self, group_id: &str) -> (found: Option<&mut UserGroup>)
        ensures
            found is Some == old(self)@.has_group(group_id@),
            found is None ==> *final(self) == *old(self),
            found matches Some(g) ==> {
                let i = old(self)@.group_index(group_id@) as int;
                &&& *g == old(self).user_groups@[i]
                &&& final(self).user_groups@ == old(self).user_groups@.update(i, *final(g))
                &&& final(self).hosts == old(self).hosts
                &&& final(self).users == old(self).users
                &&& final(self).modified_at == old(self).modified_at
                &&& final(self).schema_version == old(self).schema_version
            },
    {
        let i = self.group_position(group_id);
        if i < self.user_groups.len() {
            Some(&mut self.user_groups[i])
        } else {
            None
        }
    }

    /// Whether the host names the user among its authorized users.
    pub fn is_user_granted(&self, user: &User, host: &Host) -> (granted: bool)
        ensures
            granted == host@.authorized_users.contains(user@.user_id),
    {
        position_of(&host.authorized_users, user.user_id.as_str()) < host.authorized_users.len()
    }

    /// Whether the host names the group among its authorized groups.
    pub fn is_group_granted(&self, user_group: &UserGroup, host: &Host) -> (granted: bool)
        ensures
            granted == host@.authorized_user_groups.contains(user_group@.group_id),
    {
        position_of(&host.authorized_user_groups, user_group.group_id.as_str())
            < host.authorized_user_groups.len()
    }

    /// Whether the group names the user among its members.
    pub fn is_user_group_member(&self, user: &User, user_group: &UserGroup) -> (member: bool)
        ensures
            member == user_group@.members.contains(user@.user_id),
    {
        position_of(&user_group.members, user.user_id.as_str()) < user_group.members.len()
    }
}

impl Default for Host {
    fn default() -> (host: Host)
        ensures
            host@ == (HostView {
                hostname: Seq::empty(),
                alias: None,
                authorized_users: Seq::empty(),
                authorized_user_groups: Seq::empty(),
                sync_todo: true,
            }),
    {
        let host = Host {
            hostname: String::new(),
            alias: None,
            authorized_users: Vec::new(),
            authorized_user_groups: Vec::new(),
            sync_todo: true,
        };
        assert(host@.authorized_users =~= Seq::empty());
        host
    }
}

/// The schema version that a new database carries.
pub open spec fn schema_version() -> Seq<char> {
    "1.0.0"@
}

impl Default for Database {
    fn default() -> (db: Database)
        ensures
            db@ == (DatabaseView {
                hosts: Seq::empty(),
                users: Seq::empty(),
                user_groups: Seq::empty(),
                modified_at: Seq::empty(),
                schema_version: schema_version(),
            }),
            db@.well_formed(),
    {
        let db = Database {
            hosts: Vec::new(),
            users: Vec::new(),
            user_groups: Vec::new(),
            modified_at: String::new(),
            schema_version: "1.0.0".to_owned(),
        };
        assert(db@.hosts =~= Seq::empty());
        assert(db@.users =~= Seq::empty());
        assert(db@.user_groups =~= Seq::empty());
        db
    }
}

/// A model stays well formed while its keys stay the same.
pub proof fn lemma_same_keys_well_formed(before: DatabaseView, after: DatabaseView)
    requires
        before.well_formed(),
        after.hostnames() == before.hostnames(),
        after.aliases() == before.aliases(),
        after.user_ids().no_duplicates(),
        after.group_ids().no_duplicates(),
    ensures
        after.well_formed(),
{
    assert(after.hosts.len() == before.hosts.len()) by {
        assert(after.hostnames().len() == after.hosts.len());
    }
    assert forall|i: int| 0 <= i < after.hosts.len() implies after.hosts[i].alias
        == before.hosts[i].alias && after.hosts[i].hostname == before.hosts[i].hostname by {
        assert(after.aliases()[i] == before.aliases()[i]);
        assert(after.hostnames()[i] == before.hostnames()[i]);
    }
}

/// Where the keys of a sequence are unique, so are the keys of what a filter
/// keeps of it.
pub proof fn lemma_filter_keeps_keys_unique<A>(
    s: Seq<A>,
    keep: spec_fn(A) -> bool,
    key: spec_fn(A) -> Seq<char>,
)
    requires
        s.map_values(key).no_duplicates(),
    ensures
        s.filter(keep).map_values(key).no_duplicates(),
{
    let kept = s.filter(keep);
    let keys = kept.map_values(key);
    assert forall|i: int, j: int|
        0 <= i < kept.len() && 0 <= j < kept.len() && i != j implies keys[i] != keys[j] by {
        lemma_origin(s, keep, i);
        lemma_origin(s, keep, j);
        if i < j {
            lemma_origin_grows(s, keep, i, j);
        } else {
            lemma_origin_grows(s, keep, j, i);
        }
        let a = origin(s, keep, i);
        let b = origin(s, keep, j);
        assert(s.map_values(key)[a] != s.map_values(key)[b]);
    }
}

} // verus!
