//! Verified core of an LDAP provisioning tool for Active Directory:
//! distinguished names, username templates, group lookups and LDAP filters,
//! attribute lists for new entries and the connectivity report.

pub mod attrs;
pub mod check;
pub mod cli;
pub mod config;
pub mod dn;
pub mod groups;
pub mod naming;
pub mod oids;
pub mod removal;
pub mod text;
pub mod users;
