use mad::check::{check_result, RootDse};
use mad::config::{AttributeMappings, Config};
use mad::dn::DistinguishedName;
use mad::naming::NamingFormatter;
use mad::oids::get_oid_name;
use mad::users::{prepare_user_entry, user_removal_filter, user_search_filter};

fn s(x: &str) -> String {
    x.to_string()
}

#[test]
fn user_list_filters() {
    assert_eq!(user_search_filter(None, None), "(objectClass=user)");
    assert_eq!(
        user_search_filter(Some(s("test_user_*")), None),
        "(&(objectClass=user)(|(cn=test_user_*)(sAMAccountName=test_user_*)(mail=test_user_*)))"
    );
    assert_eq!(
        user_search_filter(Some(s("bob")), None),
        "(&(objectClass=user)(|(cn=*bob*)(sAMAccountName=*bob*)(mail=*bob*)))"
    );
    assert_eq!(user_search_filter(Some(s("bob")), Some(s("(uid=1)"))), "(uid=1)");
}

#[test]
fn user_removal_filter_text() {
    assert_eq!(
        user_removal_filter("sAMAccountName", "test_user_*"),
        "(&(objectClass=user)(sAMAccountName=test_user_*))"
    );
}

#[test]
fn new_user_entry() {
    let m = AttributeMappings::default();
    let f = NamingFormatter::new(Some(s("{first_name}.{last_name}{counter}")));
    let base = DistinguishedName::try_from("OU=Users,DC=lab,DC=local").unwrap();
    let u = prepare_user_entry(&m, &f, "lab.local", &base, 7, "Ana", "Peña");
    assert_eq!(u.dn.as_str(), "cn=ana.pena007,OU=Users,DC=lab,DC=local");
    let expected = vec![
        (s("cn"), vec![s("ana.pena007")]),
        (s("displayName"), vec![s("Ana Peña")]),
        (s("givenName"), vec![s("Ana")]),
        (s("mail"), vec![s("ana.pena007@lab.local")]),
        (s("objectClass"), vec![s("top"), s("person"), s("organizationalPerson"), s("user")]),
        (s("sAMAccountName"), vec![s("ana.pena007")]),
        (s("sn"), vec![s("Peña")]),
        (s("telephoneNumber"), vec![s("+34 600000007")]),
        (s("userPrincipalName"), vec![s("ana.pena007@lab.local")]),
    ];
    assert_eq!(u.attributes, expected);
}

#[test]
fn new_user_entry_mapping_overlap_keeps_one_attribute() {
    let mut m = AttributeMappings::default();
    m.username = s("cn");
    m.phone = s("mail");
    let f = NamingFormatter::new(None);
    let base = DistinguishedName::try_from("DC=corp").unwrap();
    let u = prepare_user_entry(&m, &f, "corp", &base, 123456789, "Jo", "Li");
    assert_eq!(u.dn.as_str(), "cn=jo.li,DC=corp");
    let expected = vec![
        (s("cn"), vec![s("jo.li")]),
        (s("displayName"), vec![s("Jo Li")]),
        (s("givenName"), vec![s("Jo")]),
        (s("mail"), vec![s("+34 623456789")]),
        (s("objectClass"), vec![s("top"), s("person"), s("organizationalPerson"), s("user")]),
        (s("sn"), vec![s("Li")]),
        (s("userPrincipalName"), vec![s("jo.li@corp")]),
    ];
    assert_eq!(u.attributes, expected);
}

#[test]
fn oid_names() {
    assert_eq!(get_oid_name("1.2.840.113556.1.4.319"), Some(s("Paged Results")));
    assert_eq!(get_oid_name("1.3.6.1.4.1.1466.20037"), Some(s("StartTLS")));
    assert_eq!(get_oid_name("9.9.9"), None);
    assert_eq!(get_oid_name(""), None);
}

#[test]
fn oid_table_parsing() {
    let table = "a: one\n b :two\r\nno colon\na: three\nc:";
    assert_eq!(mad::oids::oid_name_in(table, "a"), Some(s("three")));
    assert_eq!(mad::oids::oid_name_in(table, "b"), Some(s("two")));
    assert_eq!(mad::oids::oid_name_in(table, "c"), Some(s("")));
    assert_eq!(mad::oids::oid_name_in(table, "no colon"), None);
}

fn root(vendor: &[&str], controls: &[&str]) -> RootDse {
    RootDse {
        vendor_name: vendor.iter().map(|x| s(x)).collect(),
        dns_host_name: vec![s("dc1.lab.local")],
        supported_ldap_version: vec![s("2"), s("3")],
        supported_control: controls.iter().map(|x| s(x)).collect(),
        supported_extension: vec![s("1.3.6.1.4.1.4203.1.11.3")],
    }
}

#[test]
fn check_detects_samba_and_paging() {
    let r = check_result("ldap://x", "CN=admin", Some(root(&["Samba Team (https://www.samba.org)"], &["1.2.840.113556.1.4.319", "7.7"])));
    assert!(r.is_samba);
    assert!(r.has_paging_support);
    assert_eq!(r.vendor, Some(s("Samba Team (https://www.samba.org)")));
    assert_eq!(r.dns_host_name, Some(s("dc1.lab.local")));
    assert_eq!(r.supported_ldap_versions, vec![s("2"), s("3")]);
    assert_eq!(r.supported_controls.len(), 2);
    assert_eq!(r.supported_controls[0].name, Some(s("Paged Results")));
    assert_eq!(r.supported_controls[1].name, None);
    assert_eq!(r.url, "ldap://x");
    assert_eq!(r.bound_as, "CN=admin");
}

#[test]
fn check_detects_samba_by_oid_only() {
    let r = check_result("u", "b", Some(root(&[], &["1.3.6.1.4.1.7165.4.3.2"])));
    assert!(r.is_samba);
    assert!(!r.has_paging_support);
    assert_eq!(r.vendor, None);
    let r = check_result("u", "b", Some(root(&["Microsoft"], &["1.2.3"])));
    assert!(!r.is_samba);
    let r = check_result("u", "b", None);
    assert!(!r.is_samba && !r.has_paging_support && r.supported_controls.is_empty());
}

#[test]
fn config_decisions() {
    let mut c = Config {
        url: s("ldaps://dc:636"),
        base_dn: s("DC=lab,DC=local"),
        user: s("CN=Administrator"),
        password: s("secret"),
        starttls: false,
        tls_ca_cert: Some(s("never")),
        username_format: None,
        mappings: AttributeMappings::default(),
    };
    assert!(c.skips_tls_verification());
    assert!(!c.suggests_ldaps());
    assert_eq!(c.base().unwrap().as_str(), "DC=lab,DC=local");
    c.tls_ca_cert = Some(s("/etc/ca.pem"));
    c.url = s("ldap://dc:389");
    assert!(!c.skips_tls_verification());
    assert!(c.suggests_ldaps());
    c.base_dn = s("");
    assert!(c.base().is_err());
}
