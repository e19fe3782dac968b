//! Commands on hosts: adding and removing them, naming them, listing them.

use vstd::prelude::*;
use vstd::string::*;
use crate::command::CommandError;
use crate::database::{option_view, Database, DatabaseView, Host, HostView};
use crate::listing::{
    bullets, push_bullets, push_quoted, push_quoted_list, push_underline, quoted, quoted_list,
    underline,
};
use crate::text::{
    lemma_first_index_found, lemma_origin, lemma_origin_grows, origin, parse_i32, parsed_i32,
    split, split_at_char, str_eq,
};

verus! {

/// Why a host of that hostname cannot be added, if it cannot.
pub open spec fn add_refusal(db: DatabaseView, hostname: Seq<char>) -> Option<CommandError> {
    let pieces = split(hostname, ':');
    if db.has_host(hostname) || db.has_alias(hostname) {
        Some(CommandError::HostExists)
    } else if pieces.len() > 2 {
        Some(CommandError::TooManyColons)
    } else if pieces.len() == 2 && parsed_i32(pieces[1]) is None {
        Some(CommandError::PortNotInteger)
    } else {
        None
    }
}

/// A host as it is added: without alias and grants, and with changes pending.
pub open spec fn new_host(hostname: Seq<char>) -> HostView {
    HostView {
        hostname,
        alias: None,
        authorized_users: Seq::empty(),
        authorized_user_groups: Seq::empty(),
        sync_todo: true,
    }
}

/// Adds a host. The hostname must be new among hostnames and aliases, and
/// may end in `:` and a port.
pub fn add(db: &mut Database, hostname: &str) -> (result: Result<(), CommandError>)
    ensures
        match add_refusal(old(db)@, hostname@) {
            Some(e) => result == Err::<(), CommandError>(e) && *final(db) == *old(db),
            None => result is Ok && final(db)@ == (DatabaseView {
                hosts: old(db)@.hosts.push(new_host(hostname@)),
                ..old(db)@
            }),
        },
        old(db)@.well_formed() ==> final(db)@.well_formed(),
{
    if db.host_get(hostname).is_some() || db.host_get_by_alias(hostname).is_some() {
        return Err(CommandError::HostExists);
    }
    let pieces = split_at_char(hostname, ':');
    if pieces.len() > 2 {
        return Err(CommandError::TooManyColons);
    }
    if pieces.len() == 2 && parse_i32(pieces[1].as_str()).is_none() {
        return Err(CommandError::PortNotInteger);
    }
    let host = Host {
        hostname: hostname.to_owned(),
        alias: None,
        authorized_users: Vec::new(),
        authorized_user_groups: Vec::new(),
        sync_todo: true,
    };
    proof {
        assert(host@.authorized_users =~= Seq::empty());
    }
    db.hosts.push(host);
    proof {
        let before = old(db)@;
        let after = db@;
        assert(after.hosts =~= before.hosts.push(new_host(hostname@)));
        if before.well_formed() {
            lemma_first_index_found(before.hostnames(), hostname@);
            lemma_first_index_found(before.aliases(), Some(hostname@));
            assert(after.hostnames() =~= before.hostnames().push(hostname@));
            assert forall|i: int, j: int|
                #![trigger after.hosts[i].alias, after.hosts[j].hostname]
                0 <= i < after.hosts.len() && 0 <= j < after.hosts.len() implies after.hosts[i].alias
                != Some(after.hosts[j].hostname) by {
                if i < before.hosts.len() && j == before.hosts.len() {
                    assert(before.aliases()[i] == before.hosts[i].alias);
                }
            }
        }
    }
    Ok(())
}

/// The test that a host has another hostname.
pub open spec fn other_hostname(hostname: Seq<char>) -> spec_fn(HostView) -> bool {
    |h: HostView| h.hostname != hostname
}

/// Removes the hosts of that hostname.
pub fn remove(db: &mut Database, hostname: &str) -> (result: Result<(), CommandError>)
    ensures
        result is Ok == old(db)@.has_host(hostname@),
        result is Err ==> result == Err::<(), CommandError>(CommandError::HostUnknown)
            && *final(db) == *old(db),
        result is Ok ==> final(db)@ == (DatabaseView {
            hosts: old(db)@.hosts.filter(other_hostname(hostname@)),
            ..old(db)@
        }),
        old(db)@.well_formed() ==> final(db)@.well_formed(),
{
    if db.host_get(hostname).is_none() {
        return Err(CommandError::HostUnknown);
    }
    let mut hosts: Vec<Host> = Vec::new();
    core::mem::swap(&mut hosts, &mut db.hosts);
    let ghost before = old(db)@.hosts;
    let ghost keep = other_hostname(hostname@);
    proof {
        assert(Seq::<HostView>::empty().filter(keep) =~= Seq::<HostView>::empty()) by {
            reveal(Seq::filter);
        }
    }
    for host in it: hosts
        invariant
            before == it.seq().map_values(|h: Host| h@),
            keep == other_hostname(hostname@),
            db@.hosts == before.take(it.index() as int).filter(keep),
            db.users == old(db).users,
            db.user_groups == old(db).user_groups,
            db.modified_at == old(db).modified_at,
            db.schema_version == old(db).schema_version,
    {
        proof {
            let done = before.take(it.index() as int);
            assert(before.take(it.index() + 1) =~= done.push(host@));
            done.lemma_filter_push(host@, keep);
        }
        if !str_eq(host.hostname.as_str(), hostname) {
            db.hosts.push(host);
        }
    }
    proof {
        assert(before.take(before.len() as int) =~= before);
        if old(db)@.well_formed() {
            lemma_filter_keeps_well_formed(old(db)@, keep);
        }
    }
    Ok(())
}

/// Why a host cannot be given that alias, or cannot lose its alias where
/// none is given.
pub open spec fn alias_refusal(
    db: DatabaseView,
    hostname: Seq<char>,
    alias: Option<Seq<char>>,
) -> Option<CommandError> {
    if !db.has_host(hostname) {
        Some(CommandError::HostUnknown)
    } else {
        match alias {
            Some(a) => if db.has_host(a) {
                Some(CommandError::AliasIsHostname)
            } else if db.has_alias(a) {
                Some(CommandError::AliasExists)
            } else {
                None
            },
            None => if db.hosts[db.host_index(hostname) as int].alias is None {
                Some(CommandError::NoAlias)
            } else {
                None
            },
        }
    }
}

/// The view of an optional string slice.
pub open spec fn str_option_view(s: Option<&str>) -> Option<Seq<char>> {
    match s {
        Some(t) => Some(t@),
        None => None,
    }
}

/// Gives a host an alias, or takes its alias away where none is given. An
/// alias must be new among hostnames and aliases.
pub fn alias(db: &mut Database, hostname: &str, alias_opt: Option<&str>) -> (result: Result<
    (),
    CommandError,
>)
    ensures
        match alias_refusal(old(db)@, hostname@, str_option_view(alias_opt)) {
            Some(e) => result == Err::<(), CommandError>(e) && *final(db) == *old(db),
            None => result is Ok && final(db)@ == (DatabaseView {
                hosts: old(db)@.hosts.update(
                    old(db)@.host_index(hostname@) as int,
                    HostView {
                        alias: str_option_view(alias_opt),
                        ..old(db)@.hosts[old(db)@.host_index(hostname@) as int]
                    },
                ),
                ..old(db)@
            }),
        },
        old(db)@.well_formed() ==> final(db)@.well_formed(),
{
    let ghost before = db@;
    let ghost at = before.host_index(hostname@) as int;
    match db.host_get(hostname) {
        None => {
            return Err(CommandError::HostUnknown);
        },
        Some(host) => {
            if alias_opt.is_none() && host.alias.is_none() {
                return Err(CommandError::NoAlias);
            }
        },
    }
    let new_alias = match alias_opt {
        Some(a) => {
            if db.host_get(a).is_some() {
                return Err(CommandError::AliasIsHostname);
            }
            if db.host_get_by_alias(a).is_some() {
                return Err(CommandError::AliasExists);
            }
            Some(a.to_owned())
        },
        None => None,
    };
    match db.host_get_mut(hostname) {
        Some(host) => {
            host.alias = new_alias;
        },
        None => {},
    }
    proof {
        let after = db@;
        let changed = HostView { alias: str_option_view(alias_opt), ..before.hosts[at] };
        assert(after.hosts =~= before.hosts.update(at, changed));
        if before.well_formed() {
            assert(after.hostnames() =~= before.hostnames());
            if alias_opt is Some {
                let a = alias_opt->0@;
                lemma_first_index_found(before.hostnames(), a);
                lemma_first_index_found(before.aliases(), Some(a));
                assert forall|j: int| 0 <= j < before.hosts.len() implies before.hosts[j].alias
                    != Some(a) && before.hosts[j].hostname != a by {
                    assert(before.aliases()[j] == before.hosts[j].alias);
                    assert(before.hostnames()[j] == before.hosts[j].hostname);
                }
            }
        }
    }
    Ok(())
}

/// Whether a host is listed under a filter: the empty filter lists every
/// host, any other the hosts that have it as hostname or alias.
pub open spec fn listed(host: HostView, filter: Seq<char>) -> bool {
    filter.len() == 0 || filter == host.hostname || host.alias == Some(filter)
}

/// An optional string as `Debug` writes it.
pub open spec fn quoted_option(s: Option<Seq<char>>) -> Seq<char> {
    match s {
        Some(t) => "Some("@ + quoted(t) + ")"@,
        None => "None"@,
    }
}

/// A truth value as `Debug` writes it.
pub open spec fn bool_text(b: bool) -> Seq<char> {
    if b {
        "true"@
    } else {
        "false"@
    }
}

/// A host as `Debug` writes it, on a line of its own.
pub open spec fn raw_host(host: HostView) -> Seq<char> {
    "Host { hostname: "@ + quoted(host.hostname) + ", alias: "@ + quoted_option(host.alias)
        + ", authorized_users: "@ + quoted_list(host.authorized_users)
        + ", authorized_user_groups: "@ + quoted_list(host.authorized_user_groups)
        + ", sync_todo: "@ + bool_text(host.sync_todo) + " }\n"@
}

/// A host as the listing shows it: the underlined hostname, then the users
/// and the groups with access to it.
pub open spec fn shown_host(host: HostView) -> Seq<char> {
    "\n"@ + host.hostname + "\n"@ + underline(host.hostname) + "\n\n## Authorized Users\n"@
        + bullets(host.authorized_users) + "\n## Authorized Groups\n"@ + bullets(
        host.authorized_user_groups,
    ) + "\n"@
}

/// The listing of hosts under a filter, in the order of the hosts.
pub open spec fn hosts_listing(hosts: Seq<HostView>, filter: Seq<char>, raw: bool) -> Seq<char>
    decreases hosts.len(),
{
    if hosts.len() == 0 {
        Seq::empty()
    } else {
        let before = hosts_listing(hosts.drop_last(), filter, raw);
        if !listed(hosts.last(), filter) {
            before
        } else if raw {
            before + raw_host(hosts.last())
        } else {
            before + shown_host(hosts.last())
        }
    }
}

fn push_quoted_option(out: &mut String, s: &Option<String>)
    ensures
        final(out)@ == old(out)@ + quoted_option(option_view(*s)),
{
    match s {
        Some(a) => {
            out.append("Some(");
            push_quoted(out, a.as_str());
            out.append(")");
            assert(out@ =~= old(out)@ + ("Some("@ + quoted(a@) + ")"@));
        },
        None => {
            out.append("None");
        },
    }
}

fn push_bool(out: &mut String, b: bool)
    ensures
        final(out)@ == old(out)@ + bool_text(b),
{
    if b {
        out.append("true");
    } else {
        out.append("false");
    }
}

fn push_raw_host(out: &mut String, host: &Host)
    ensures
        final(out)@ == old(out)@ + raw_host(host@),
{
    out.append("Host { hostname: ");
    push_quoted(out, host.hostname.as_str());
    out.append(", alias: ");
    push_quoted_option(out, &host.alias);
    out.append(", authorized_users: ");
    push_quoted_list(out, &host.authorized_users);
    out.append(", authorized_user_groups: ");
    push_quoted_list(out, &host.authorized_user_groups);
    out.append(", sync_todo: ");
    push_bool(out, host.sync_todo);
    out.append(" }\n");
    assert(out@ =~= old(out)@ + raw_host(host@));
}

fn push_shown_host(out: &mut String, host: &Host)
    ensures
        final(out)@ == old(out)@ + shown_host(host@),
{
    out.append("\n");
    out.append(host.hostname.as_str());
    out.append("\n");
    push_underline(out, host.hostname.as_str());
    out.append("\n\n## Authorized Users\n");
    push_bullets(out, &host.authorized_users);
    out.append("\n## Authorized Groups\n");
    push_bullets(out, &host.authorized_user_groups);
    out.append("\n");
    assert(out@ =~= old(out)@ + shown_host(host@));
}

/// The listing of the hosts, for the program to print. With a filter only
/// the hosts of that hostname or alias are listed; `print_raw` asks for the
/// hosts as `Debug` writes them.
pub fn list(db: &Database, hostname_filter: &str, print_raw: bool) -> (out: String)
    ensures
        out@ == hosts_listing(db@.hosts, hostname_filter@, print_raw),
{
    let mut out = String::new();
    let mut i: usize = 0;
    assert(db@.hosts.take(0) =~= Seq::<HostView>::empty());
    while i < db.hosts.len()
        invariant
            i <= db.hosts@.len(),
            out@ == hosts_listing(db@.hosts.take(i as int), hostname_filter@, print_raw),
        decreases db.hosts@.len() - i,
    {
        let host = &db.hosts[i];
        proof {
            let next = db@.hosts.take(i + 1);
            assert(next.drop_last() =~= db@.hosts.take(i as int));
            assert(next.last() == host@);
        }
        let by_alias = match &host.alias {
            Some(a) => str_eq(a.as_str(), hostname_filter),
            None => false,
        };
        if hostname_filter.is_empty() || str_eq(hostname_filter, host.hostname.as_str())
            || by_alias {
            if print_raw {
                push_raw_host(&mut out, host);
            } else {
                push_shown_host(&mut out, host);
            }
        }
        i += 1;
    }
    assert(db@.hosts.take(db.hosts@.len() as int) =~= db@.hosts);
    out
}

/// Taking hosts out of a model leaves its keys unique.
pub proof fn lemma_filter_keeps_well_formed(db: DatabaseView, keep: spec_fn(HostView) -> bool)
    requires
        db.well_formed(),
    ensures
        (DatabaseView { hosts: db.hosts.filter(keep), ..db }).well_formed(),
{
    let after = DatabaseView { hosts: db.hosts.filter(keep), ..db };
    let kept = db.hosts.filter(keep);
    assert forall|i: int, j: int|
        0 <= i < kept.len() && 0 <= j < kept.len() && i != j implies after.hostnames()[i]
        != after.hostnames()[j] by {
        lemma_origin(db.hosts, keep, i);
        lemma_origin(db.hosts, keep, j);
        if i < j {
            lemma_origin_grows(db.hosts, keep, i, j);
        } else {
            lemma_origin_grows(db.hosts, keep, j, i);
        }
        let a = origin(db.hosts, keep, i);
        let b = origin(db.hosts, keep, j);
        assert(db.hostnames()[a] != db.hostnames()[b]);
    }
    assert forall|i: int, j: int|
        0 <= i < kept.len() && 0 <= j < kept.len() && i != j
            && kept[i].alias is Some implies #[trigger] kept[i].alias
        != #[trigger] kept[j].alias by {
        lemma_origin(db.hosts, keep, i);
        lemma_origin(db.hosts, keep, j);
        if i < j {
            lemma_origin_grows(db.hosts, keep, i, j);
        } else {
            lemma_origin_grows(db.hosts, keep, j, i);
        }
        let a = origin(db.hosts, keep, i);
        let b = origin(db.hosts, keep, j);
    }
    assert forall|i: int, j: int|
        #![trigger kept[i].alias, kept[j].hostname]
        0 <= i < kept.len() && 0 <= j < kept.len() implies kept[i].alias != Some(
            kept[j].hostname,
        ) by {
        lemma_origin(db.hosts, keep, i);
        lemma_origin(db.hosts, keep, j);
        let a = origin(db.hosts, keep, i);
        let b = origin(db.hosts, keep, j);
        assert(db.hosts[a].alias != Some(db.hosts[b].hostname));
    }
}

} // verus!
