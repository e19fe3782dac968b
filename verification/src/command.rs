//! Why a command on the model is refused.

use vstd::prelude::*;

verus! {

/// The reasons for which a command leaves the model as it is.
#[derive(Debug, Clone, Copy, PartialEq, Eq, Structural)]
pub enum CommandError {
    /// A host has the name already, as its hostname or as its alias.
    HostExists,
    /// The hostname holds more than one `:`.
    TooManyColons,
    /// What follows the `:` of the hostname is no integer.
    PortNotInteger,
    /// No host has that hostname.
    HostUnknown,
    /// The alias is the hostname of a host.
    AliasIsHostname,
    /// A host has that alias already.
    AliasExists,
    /// The host has no alias that could be removed.
    NoAlias,
    /// A user has that id already.
    UserExists,
    /// No user has that id.
    UserUnknown,
    /// The public key does not start with `ssh-`.
    InvalidPublicKey,
    /// A group has that id already.
    GroupExists,
    /// No group has that id.
    GroupUnknown,
    /// The host names the user or the group already.
    AlreadyGranted,
    /// The host does not name the user or the group.
    NotGranted,
    /// The group names the user already.
    AlreadyMember,
    /// The group does not name the user.
    NotMember,
}

} // verus!
