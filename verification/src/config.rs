//! Connection settings and the attribute names used for new users.

use vstd::prelude::*;

use crate::dn::{DistinguishedName, DnError, dn_text_valid};
use crate::groups::equal_chars;
use crate::text::{chars_of, occurs_at, occurs_at_exec};

verus! {

/// The directory attributes that hold each part of a user's data.
#[derive(Debug)]
pub struct AttributeMappings {
    pub username: String,
    pub first_name: String,
    pub last_name: String,
    pub email: String,
    pub phone: String,
}

impl Default for AttributeMappings {
    /// The Active Directory attribute names.
    fn default() -> (m: Self)
        ensures
            m.username@ == "sAMAccountName"@,
            m.first_name@ == "givenName"@,
            m.last_name@ == "sn"@,
            m.email@ == "mail"@,
            m.phone@ == "telephoneNumber"@,
    {
        AttributeMappings {
            username: "sAMAccountName".to_owned(),
            first_name: "givenName".to_owned(),
            last_name: "sn".to_owned(),
            email: "mail".to_owned(),
            phone: "telephoneNumber".to_owned(),
        }
    }
}

/// Where the directory is and how to bind to it.
#[derive(Debug)]
pub struct Config {
    pub url: String,
    pub base_dn: String,
    pub user: String,
    pub password: String,
    pub starttls: bool,
    pub tls_ca_cert: Option<String>,
    pub username_format: Option<String>,
    pub mappings: AttributeMappings,
}

impl Config {
    /// Certificate checks are turned off when the CA setting is `never`.
    pub fn skips_tls_verification(&self) -> (r: bool)
        ensures
            r == (self.tls_ca_cert matches Some(c) && c@ == "never"@),
    {
        match &self.tls_ca_cert {
            Some(c) => {
                let cv = chars_of(c.as_str());
                let never = chars_of("never");
                equal_chars(cv.as_slice(), never.as_slice())
            },
            None => false,
        }
    }

    /// The connection may need encryption that a plain `ldap://` URL or a
    /// StartTLS setting does not give, so the user is told about `ldaps://`.
    pub fn suggests_ldaps(&self) -> (r: bool)
        ensures
            r == (self.starttls || occurs_at(self.url@, "ldap://"@, 0)),
    {
        if self.starttls {
            return true;
        }
        let u = chars_of(self.url.as_str());
        let p = chars_of("ldap://");
        occurs_at_exec(u.as_slice(), p.as_slice(), 0)
    }

    /// The configured base as a distinguished name.
    pub fn base(&self) -> (r: Result<DistinguishedName, DnError>)
        ensures
            match r {
                Ok(dn) => dn_text_valid(self.base_dn@) && dn@ == self.base_dn@,
                Err(DnError::Empty) => self.base_dn@.len() == 0,
                Err(DnError::MissingEquals(t)) => self.base_dn@.len() > 0 && !self.base_dn@.contains(
                    '=',
                ) && t@ == self.base_dn@,
            },
    {
        DistinguishedName::try_from(self.base_dn.as_str())
    }
}

} // verus!
