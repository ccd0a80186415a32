//! The commands that the tool accepts.

use vstd::prelude::*;

use crate::dn::DistinguishedName;

verus! {

/// Group management commands.
#[derive(Debug)]
pub enum GroupCommands {
    /// Add a new group, optionally in a container below the base DN.
    Add { groupname: String, container: Option<DistinguishedName> },
    /// List groups, by a simple filter on `cn` and `sAMAccountName` or by a
    /// raw LDAP filter.
    List {
        filter: Option<String>,
        container: Option<DistinguishedName>,
        ldap_filter: Option<String>,
    },
    /// Remove one group named by a full DN, an RDN literal or an account name.
    Rm { name: String, container: Option<DistinguishedName>, dry_run: bool, no_confirm: bool },
    /// Add the users that a filter selects to a group.
    Join {
        name: String,
        filter: Option<String>,
        ldap_filter: Option<String>,
        container: Option<DistinguishedName>,
        dry_run: bool,
    },
    /// Remove the users that a filter selects from a group.
    Leave {
        name: String,
        filter: Option<String>,
        ldap_filter: Option<String>,
        container: Option<DistinguishedName>,
        dry_run: bool,
    },
}

/// User management commands.
#[derive(Debug)]
pub enum UserCommands {
    /// Add `count` users named by a template.
    Add { count: u32, format: Option<String>, container: Option<DistinguishedName> },
    /// List users, by a simple filter or by a raw LDAP filter.
    List {
        filter: Option<String>,
        container: Option<DistinguishedName>,
        ldap_filter: Option<String>,
    },
    /// Remove the users whose username matches a filter.
    Rm { filter: String, container: Option<DistinguishedName>, dry_run: bool, no_confirm: bool },
}

/// The number of users that `users add` creates when no count is given.
pub const DEFAULT_USER_COUNT: u32 = 10;

} // verus!
