use mad::dn::DistinguishedName;
use mad::groups::{
    dn_is_within_scope, escape_ldap_filter_value, group_attributes, group_search_filter, lookup_from_rdn,
    parse_group_lookup, plan_group_removal, GroupLookup, GroupLookupError, GroupRemovalError,
};

#[test]
fn parse_full_dn_lookup() {
    let lookup = parse_group_lookup("CN=Grupo Uno,OU=Spain,DC=LAB,DC=INTERNAL").unwrap();
    assert_eq!(
        lookup,
        GroupLookup::FullDn(
            DistinguishedName::try_from("CN=Grupo Uno,OU=Spain,DC=LAB,DC=INTERNAL").unwrap()
        )
    );
}

#[test]
fn parse_rdn_cn_lookup() {
    let lookup = parse_group_lookup("cn=Grupo Ágil").unwrap();
    assert_eq!(lookup, GroupLookup::RdnCn("Grupo Ágil".to_string()));
}

#[test]
fn parse_sam_lookup() {
    let lookup = parse_group_lookup("equipo-研发").unwrap();
    assert_eq!(
        lookup,
        GroupLookup::SamAccountName("equipo-研发".to_string())
    );
}

#[test]
fn reject_unsupported_rdn_attr() {
    assert!(parse_group_lookup("OU=Spain").is_err());
}

#[test]
fn escape_ldap_filter_special_chars() {
    assert_eq!(escape_ldap_filter_value(r"A*(B)\\C"), r"A\2a\28B\29\5c\5cC");
}

#[test]
fn detect_scope_membership() {
    let child = DistinguishedName::try_from("CN=Grupo,OU=Spain,DC=LAB,DC=INTERNAL").unwrap();
    let scope = DistinguishedName::try_from("OU=Spain,DC=LAB,DC=INTERNAL").unwrap();
    assert!(dn_is_within_scope(&child, &scope));
}

#[test]
fn detect_scope_outside_membership() {
    let child = DistinguishedName::try_from("CN=Grupo,OU=France,DC=LAB,DC=INTERNAL").unwrap();
    let scope = DistinguishedName::try_from("OU=Spain,DC=LAB,DC=INTERNAL").unwrap();
    assert!(!dn_is_within_scope(&child, &scope));
}

#[test]
fn scope_ignores_ascii_case_and_spaces() {
    let child = DistinguishedName::try_from("cn=g, ou=spain , dc=lab,dc=internal").unwrap();
    let scope = DistinguishedName::try_from("OU=Spain,DC=LAB,DC=INTERNAL").unwrap();
    assert!(dn_is_within_scope(&child, &scope));
    assert!(dn_is_within_scope(&scope, &scope));
    assert!(!dn_is_within_scope(&scope, &child));
}

#[test]
fn lookup_errors() {
    assert_eq!(
        parse_group_lookup("a,b"),
        Err(GroupLookupError::InvalidDn(mad::dn::DnError::MissingEquals("a,b".to_string())))
    );
    assert_eq!(
        parse_group_lookup("CN=  "),
        Err(GroupLookupError::EmptyRdnValue("CN=  ".to_string()))
    );
    assert_eq!(
        parse_group_lookup(" ou =Spain"),
        Err(GroupLookupError::UnsupportedRdnAttribute("OU".to_string()))
    );
    assert_eq!(
        parse_group_lookup(" cn = a=b "),
        Ok(GroupLookup::RdnCn("a=b".to_string()))
    );
}

#[test]
fn lookup_descriptions_and_filters() {
    let l = parse_group_lookup("CN=Grupo Uno,OU=Spain,DC=LAB").unwrap();
    assert_eq!(l.input_type(), "full DN");
    assert_eq!(l.lookup_attribute(), "distinguishedName");
    assert_eq!(l.original_value(), "CN=Grupo Uno,OU=Spain,DC=LAB");
    assert_eq!(
        l.ldap_filter(),
        "(&(objectClass=group)(distinguishedName=CN=Grupo Uno,OU=Spain,DC=LAB))"
    );
    let l = parse_group_lookup("cn=a*b").unwrap();
    assert_eq!(l.input_type(), "RDN (CN=...)");
    assert_eq!(l.lookup_attribute(), "cn");
    assert_eq!(l.ldap_filter(), "(&(objectClass=group)(cn=a\\2ab))");
    let l = parse_group_lookup("team(1)").unwrap();
    assert_eq!(l.input_type(), "sAMAccountName");
    assert_eq!(l.ldap_filter(), "(&(objectClass=group)(sAMAccountName=team\\281\\29))");
}

#[test]
fn escape_nul_and_plain() {
    assert_eq!(escape_ldap_filter_value("a\0b"), "a\\00b");
    assert_eq!(escape_ldap_filter_value("plain text"), "plain text");
}

#[test]
fn group_list_filters() {
    assert_eq!(group_search_filter(None, None), "(objectClass=group)");
    assert_eq!(
        group_search_filter(Some("Sync".to_string()), None),
        "(&(objectClass=group)(|(cn=*Sync*)(sAMAccountName=*Sync*)))"
    );
    assert_eq!(
        group_search_filter(Some("Sy*".to_string()), None),
        "(&(objectClass=group)(|(cn=Sy*)(sAMAccountName=Sy*)))"
    );
    assert_eq!(
        group_search_filter(Some("x".to_string()), Some("(cn=raw)".to_string())),
        "(cn=raw)"
    );
}

#[test]
fn new_group_attributes() {
    let attrs = group_attributes("Devs");
    assert_eq!(
        attrs,
        vec![
            ("cn".to_string(), vec!["Devs".to_string()]),
            ("objectClass".to_string(), vec!["top".to_string(), "group".to_string()]),
            ("sAMAccountName".to_string(), vec!["Devs".to_string()]),
        ]
    );
}

#[test]
fn removal_plan_checks_scope() {
    let base = DistinguishedName::try_from("OU=Spain,DC=LAB").unwrap();
    let q = plan_group_removal("CN=G,OU=Spain,DC=LAB", &base).unwrap();
    assert_eq!(q.filter, "(&(objectClass=group)(distinguishedName=CN=G,OU=Spain,DC=LAB))");
    assert_eq!(
        plan_group_removal("CN=G,OU=France,DC=LAB", &base).err(),
        Some(GroupRemovalError::OutsideScope)
    );
    assert_eq!(
        plan_group_removal("OU=x", &base).err(),
        Some(GroupRemovalError::Lookup(GroupLookupError::UnsupportedRdnAttribute("OU".to_string())))
    );
    let q = plan_group_removal("Devs", &base).unwrap();
    assert_eq!(q.lookup, GroupLookup::SamAccountName("Devs".to_string()));
}

#[test]
fn built_names_lie_in_their_base_scope() {
    let base = DistinguishedName::try_from("DC=lab,DC=internal").unwrap();
    let c = DistinguishedName::try_from("OU=a,OU=b").unwrap();
    let t = mad::dn::resolve_target_base(Some(&c), &base);
    assert!(dn_is_within_scope(&t, &base));
    let g = mad::dn::child_dn("cn", "x,y", &t);
    assert!(dn_is_within_scope(&g, &t));
    assert!(dn_is_within_scope(&g, &base));
}

#[test]
fn escaping_keeps_values_apart_and_removes_specials() {
    let a = escape_ldap_filter_value("*");
    let b = escape_ldap_filter_value("\\2a");
    assert_ne!(a, b);
    let e = escape_ldap_filter_value("a*(b)\0c\\");
    assert!(!e.contains('*') && !e.contains('(') && !e.contains(')') && !e.contains('\0'));
    assert_eq!(e, "a\\2a\\28b\\29\\00c\\5c");
}

#[test]
fn rdn_reading_from_cased_attribute() {
    assert_eq!(lookup_from_rdn("cn=x", "CN", "x"), Ok(GroupLookup::RdnCn("x".to_string())));
    assert_eq!(
        lookup_from_rdn("cn=", "CN", ""),
        Err(GroupLookupError::EmptyRdnValue("cn=".to_string()))
    );
    assert_eq!(
        lookup_from_rdn("ou=x", "OU", "x"),
        Err(GroupLookupError::UnsupportedRdnAttribute("OU".to_string()))
    );
}
