//! Where to connect for a host: the address, the port and the user, from
//! the client configuration or from the hostname itself.

use vstd::prelude::*;
use vstd::string::*;
use crate::database::{option_view, Host, HostView};
use crate::ssh_config::{SSHConfig, SSHConfigEntryView};
use crate::text::{
    first_index, lemma_first_index, parse_i32, parsed_i32, split, split_at_char, str_eq,
};

verus! {

/// Where to connect for a host, and as whom.
#[derive(Debug, Clone, PartialEq, Eq)]
pub struct ConnectionTarget {
    pub address: String,
    pub port: String,
    /// The user to log in as, where the client configuration names one.
    pub login_user: Option<String>,
    /// Whether the client configuration gave address, port and user.
    pub via_config: bool,
}

/// What a `ConnectionTarget` holds, as plain values.
pub struct ConnectionTargetView {
    pub address: Seq<char>,
    pub port: Seq<char>,
    pub login_user: Option<Seq<char>>,
    pub via_config: bool,
}

impl View for ConnectionTarget {
    type V = ConnectionTargetView;

    open spec fn view(&self) -> ConnectionTargetView {
        ConnectionTargetView {
            address: self.address@,
            port: self.port@,
            login_user: option_view(self.login_user),
            via_config: self.via_config,
        }
    }
}

/// The port to connect to where nothing names one.
pub open spec fn default_port() -> Seq<char> {
    "22"@
}

/// Whether an entry of the client configuration is meant for a host: its
/// label is the host's hostname or alias, or it leads to the host's hostname.
/// A host without an alias is treated as one with an empty alias.
pub open spec fn entry_matches(entry: SSHConfigEntryView, host: HostView) -> bool {
    let alias = match host.alias {
        Some(a) => a,
        None => Seq::empty(),
    };
    entry.label == host.hostname || entry.label == alias || entry.host.hostname == host.hostname
}

/// Where the first entry that is meant for the host stands; the length of the
/// table where there is none.
pub open spec fn matching_entry(table: Seq<SSHConfigEntryView>, host: HostView) -> nat {
    first_index(table.map_values(|e: SSHConfigEntryView| entry_matches(e, host)), true)
}

/// Address and port that a hostname stands for by itself: `host:port` gives
/// the two where `port` is an integer; anything else is an address by itself,
/// reached at the default port.
pub open spec fn address_and_port(hostname: Seq<char>) -> (Seq<char>, Seq<char>) {
    let pieces = split(hostname, ':');
    if pieces.len() == 2 && parsed_i32(pieces[1]) is Some {
        (pieces[0], pieces[1])
    } else {
        (hostname, default_port())
    }
}

/// Where to connect for a host: what the first entry of the client
/// configuration meant for it says, or else what its hostname says.
pub open spec fn resolved(host: HostView, table: Seq<SSHConfigEntryView>) -> ConnectionTargetView {
    let i = matching_entry(table, host) as int;
    if i < table.len() {
        ConnectionTargetView {
            address: table[i].host.hostname,
            port: table[i].host.port,
            login_user: Some(table[i].host.user),
            via_config: true,
        }
    } else {
        ConnectionTargetView {
            address: address_and_port(host.hostname).0,
            port: address_and_port(host.hostname).1,
            login_user: None,
            via_config: false,
        }
    }
}

/// Finds out where to connect for a host. Nothing is sent anywhere.
pub fn resolve(host: &Host, config: &SSHConfig) -> (target: ConnectionTarget)
    ensures
        target@ == resolved(host@, config@),
{
    let ghost hits = config@.map_values(|e: SSHConfigEntryView| entry_matches(e, host@));
    let mut i: usize = 0;
    while i < config.entries.len()
        invariant
            i <= config.entries@.len(),
            hits == config@.map_values(|e: SSHConfigEntryView| entry_matches(e, host@)),
            forall|j: int| 0 <= j < i ==> !hits[j],
        ensures
            i <= config.entries@.len(),
            forall|j: int| 0 <= j < i ==> !hits[j],
            i < config.entries@.len() ==> hits[i as int],
        decreases config.entries@.len() - i,
    {
        let entry = &config.entries[i];
        let by_alias = match &host.alias {
            Some(alias) => str_eq(entry.label.as_str(), alias.as_str()),
            None => entry.label.as_str().is_empty(),
        };
        proof {
            if host.alias is None {
                assert((entry.label@.len() == 0) == (entry.label@ == Seq::<char>::empty())) by {
                    if entry.label@.len() == 0 {
                        assert(entry.label@ =~= Seq::<char>::empty());
                    }
                }
            }
        }
        if str_eq(entry.label.as_str(), host.hostname.as_str()) || by_alias || str_eq(
            entry.host.hostname.as_str(),
            host.hostname.as_str(),
        ) {
            break;
        }
        i += 1;
    }
    proof {
        lemma_first_index(hits, true, i as int);
    }
    if i < config.entries.len() {
        let found = &config.entries[i].host;
        return ConnectionTarget {
            address: found.hostname.clone(),
            port: found.port.clone(),
            login_user: Some(found.user.clone()),
            via_config: true,
        };
    }
    let pieces = split_at_char(host.hostname.as_str(), ':');
    if pieces.len() == 2 && parse_i32(pieces[1].as_str()).is_some() {
        ConnectionTarget {
            address: pieces[0].clone(),
            port: pieces[1].clone(),
            login_user: None,
            via_config: false,
        }
    } else {
        ConnectionTarget {
            address: host.hostname.clone(),
            port: "22".to_owned(),
            login_user: None,
            via_config: false,
        }
    }
}

} // verus!
