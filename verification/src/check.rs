//! What a connectivity check reports about a directory server.
//!
//! The server's root DSE lists its vendor, host name, protocol versions,
//! controls and extensions. From these the report tells whether paged
//! results are supported and whether the server is a Samba domain
//! controller.

use vstd::prelude::*;

use crate::dn::string_views;
use crate::groups::equal_chars;
use crate::oids::{get_oid_name, name_in_table, OID_TABLE};
use crate::text::{chars_of, contains_chars, has_infix, to_lowercase, unicode_lowercase};
use crate::users::opt_view;

verus! {

/// A supported control and its readable name, when known.
#[derive(Debug)]
pub struct ControlInfo {
    pub oid: String,
    pub name: Option<String>,
}

/// The report of a connectivity check.
#[derive(Debug)]
pub struct CheckResult {
    pub url: String,
    pub bound_as: String,
    pub vendor: Option<String>,
    pub dns_host_name: Option<String>,
    pub is_samba: bool,
    pub supported_ldap_versions: Vec<String>,
    pub has_paging_support: bool,
    pub supported_controls: Vec<ControlInfo>,
    pub supported_extensions: Vec<String>,
}

/// The values of the root DSE attributes that the check reads; an absent
/// attribute has no values.
#[derive(Debug)]
pub struct RootDse {
    pub vendor_name: Vec<String>,
    pub dns_host_name: Vec<String>,
    pub supported_ldap_version: Vec<String>,
    pub supported_control: Vec<String>,
    pub supported_extension: Vec<String>,
}

/// The OID of the paged results control.
pub open spec fn paged_results_oid() -> Seq<char> {
    "1.2.840.113556.1.4.319"@
}

/// The prefix of Samba's private OIDs.
pub open spec fn samba_oid_prefix() -> Seq<char> {
    "1.3.6.1.4.1.7165"@
}

/// The first value, if any.
pub open spec fn first_value(v: Seq<Seq<char>>) -> Option<Seq<char>> {
    if v.len() > 0 {
        Some(v[0])
    } else {
        None
    }
}

/// The server offers paged results.
pub open spec fn offers_paging(controls: Seq<Seq<char>>) -> bool {
    exists|i: int| 0 <= i < controls.len() && controls[i] == paged_results_oid()
}

/// The server is Samba: its vendor name mentions `samba` in any case, or one
/// of its controls has an OID from Samba's arc.
pub open spec fn looks_like_samba(vendor: Option<Seq<char>>, controls: Seq<Seq<char>>) -> bool {
    samba_signs(
        match vendor {
            Some(v) => Some(unicode_lowercase(v)),
            None => None,
        },
        controls,
    )
}

/// The signs of Samba, given the vendor name already in lower case: it
/// mentions `samba`, or a control's OID lies in Samba's arc.
pub open spec fn samba_signs(vendor_lower: Option<Seq<char>>, controls: Seq<Seq<char>>) -> bool {
    (vendor_lower matches Some(v) && has_infix(v, "samba"@)) || exists|i: int|
        0 <= i < controls.len() && has_infix(controls[i], samba_oid_prefix())
}

/// A server is Samba when any of its controls lies in Samba's OID arc,
/// whatever its vendor name says or whether it gives one; or when its
/// lower-cased vendor name mentions `samba`, whatever its controls; and only
/// then.
pub proof fn law_samba_signs(vendor_lower: Option<Seq<char>>, controls: Seq<Seq<char>>, i: int)
    ensures
        0 <= i < controls.len() && has_infix(controls[i], samba_oid_prefix()) ==> samba_signs(
            vendor_lower,
            controls,
        ),
        (vendor_lower matches Some(v) && has_infix(v, "samba"@)) ==> samba_signs(
            vendor_lower,
            controls,
        ),
        samba_signs(vendor_lower, controls) ==> (vendor_lower matches Some(v) && has_infix(
            v,
            "samba"@,
        )) || exists|k: int| 0 <= k < controls.len() && has_infix(controls[k], samba_oid_prefix()),
{
}

/// The report calls a server Samba when one of its controls lies in Samba's
/// OID arc, whatever vendor name it reports.
pub proof fn law_samba_by_control(vendor: Option<Seq<char>>, controls: Seq<Seq<char>>, i: int)
    requires
        0 <= i < controls.len(),
        has_infix(controls[i], samba_oid_prefix()),
    ensures
        looks_like_samba(vendor, controls),
{
}

/// Whether the server is Samba, given its lower-cased vendor name and its
/// controls.
pub fn is_samba_server(vendor_lower: Option<&str>, controls: &Vec<String>) -> (r: bool)
    ensures
        r == samba_signs(
            match vendor_lower {
                Some(v) => Some(v@),
                None => None,
            },
            string_views(controls@),
        ),
{
    let ghost cv = string_views(controls@);
    if let Some(v) = vendor_lower {
        let lc = chars_of(v);
        let word = chars_of("samba");
        if contains_chars(lc.as_slice(), word.as_slice()) {
            return true;
        }
    }
    let samba_arc = chars_of("1.3.6.1.4.1.7165");
    let n = controls.len();
    let mut i: usize = 0;
    while i < n
        invariant
            n == controls@.len(),
            cv == string_views(controls@),
            samba_arc@ == samba_oid_prefix(),
            i <= n,
            forall|k: int| 0 <= k < i ==> !has_infix(cv[k], samba_oid_prefix()),
        decreases n - i,
    {
        assert(cv[i as int] == controls@[i as int]@);
        let oc = chars_of(controls[i].as_str());
        if contains_chars(oc.as_slice(), samba_arc.as_slice()) {
            return true;
        }
        i = i + 1;
    }
    false
}

/// The report's fields agree with the root DSE.
pub open spec fn reports(r: CheckResult, url: Seq<char>, bound_as: Seq<char>, root: Option<RootDse>) -> bool {
    &&& r.url@ == url
    &&& r.bound_as@ == bound_as
    &&& match root {
        None => {
            &&& r.vendor is None
            &&& r.dns_host_name is None
            &&& !r.is_samba
            &&& r.supported_ldap_versions@.len() == 0
            &&& !r.has_paging_support
            &&& r.supported_controls@.len() == 0
            &&& r.supported_extensions@.len() == 0
        },
        Some(d) => {
            let controls = string_views(d.supported_control@);
            &&& opt_view(r.vendor) == first_value(string_views(d.vendor_name@))
            &&& opt_view(r.dns_host_name) == first_value(string_views(d.dns_host_name@))
            &&& string_views(r.supported_ldap_versions@) == string_views(d.supported_ldap_version@)
            &&& string_views(r.supported_extensions@) == string_views(d.supported_extension@)
            &&& r.supported_controls@.len() == controls.len()
            &&& forall|i: int|
                0 <= i < controls.len() ==> {
                    &&& (#[trigger] r.supported_controls@[i]).oid@ == controls[i]
                    &&& opt_view(r.supported_controls@[i].name) == name_in_table(
                        OID_TABLE@,
                        controls[i],
                    )
                }
            &&& r.has_paging_support == offers_paging(controls)
            &&& r.is_samba == looks_like_samba(first_value(string_views(d.vendor_name@)), controls)
        },
    }
}

/// A copy of a list of strings.
fn copy_strings(v: &Vec<String>) -> (r: Vec<String>)
    ensures
        string_views(r@) == string_views(v@),
{
    let n = v.len();
    let mut r: Vec<String> = Vec::new();
    let mut i: usize = 0;
    while i < n
        invariant
            n == v@.len(),
            i <= n,
            string_views(r@) == string_views(v@).take(i as int),
        decreases n - i,
    {
        let ghost before = r@;
        let c = v[i].clone();
        r.push(c);
        assert(string_views(r@) =~= string_views(before).push(v@[i as int]@));
        assert(string_views(v@).take(i + 1) =~= string_views(v@).take(i as int).push(v@[i as int]@));
        i = i + 1;
    }
    assert(string_views(v@).take(n as int) =~= string_views(v@));
    r
}

/// The first string of a list, if any.
fn first_string(v: &Vec<String>) -> (r: Option<String>)
    ensures
        opt_view(r) == first_value(string_views(v@)),
{
    if v.len() > 0 {
        Some(v[0].clone())
    } else {
        None
    }
}

/// Builds the report of a check from what the server's root DSE says, or an
/// empty report when the server returned no root DSE.
pub fn check_result(url: &str, bound_as: &str, root: Option<RootDse>) -> (r: CheckResult)
    ensures
        reports(r, url@, bound_as@, root),
{
    match root {
        None => CheckResult {
            url: url.to_owned(),
            bound_as: bound_as.to_owned(),
            vendor: None,
            dns_host_name: None,
            is_samba: false,
            supported_ldap_versions: Vec::new(),
            has_paging_support: false,
            supported_controls: Vec::new(),
            supported_extensions: Vec::new(),
        },
        Some(d) => {
            let ghost controls = string_views(d.supported_control@);
            let vendor = first_string(&d.vendor_name);
            let dns_host_name = first_string(&d.dns_host_name);
            let n = d.supported_control.len();
            let mut infos: Vec<ControlInfo> = Vec::new();
            let mut paging = false;
            let paged = chars_of("1.2.840.113556.1.4.319");
            let mut i: usize = 0;
            while i < n
                invariant
                    n == d.supported_control@.len(),
                    controls == string_views(d.supported_control@),
                    paged@ == paged_results_oid(),
                    i <= n,
                    infos@.len() == i,
                    forall|k: int|
                        0 <= k < i ==> {
                            &&& (#[trigger] infos@[k]).oid@ == controls[k]
                            &&& opt_view(infos@[k].name) == name_in_table(OID_TABLE@, controls[k])
                        },
                    paging == exists|k: int| 0 <= k < i && controls[k] == paged_results_oid(),
                decreases n - i,
            {
                let oid = &d.supported_control[i];
                assert(controls[i as int] == oid@);
                let oc = chars_of(oid.as_str());
                if equal_chars(oc.as_slice(), paged.as_slice()) {
                    paging = true;
                }
                let name = get_oid_name(oid.as_str());
                let ghost nm = opt_view(name);
                infos.push(ControlInfo { oid: oid.clone(), name });
                assert(infos@[i as int].oid@ == controls[i as int]);
                assert(opt_view(infos@[i as int].name) == nm);
                i = i + 1;
            }
            let vendor_lower = match &vendor {
                Some(v) => Some(to_lowercase(v.as_str())),
                None => None,
            };
            let is_samba = match &vendor_lower {
                Some(l) => is_samba_server(Some(l.as_str()), &d.supported_control),
                None => is_samba_server(None, &d.supported_control),
            };
            CheckResult {
                url: url.to_owned(),
                bound_as: bound_as.to_owned(),
                vendor,
                dns_host_name,
                is_samba,
                supported_ldap_versions: copy_strings(&d.supported_ldap_version),
                has_paging_support: paging,
                supported_controls: infos,
                supported_extensions: copy_strings(&d.supported_extension),
            }
        },
    }
}

} // verus!
