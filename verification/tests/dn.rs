use mad::dn::{DistinguishedName, DnError, child_dn, resolve_target_base};

#[test]
fn test_valid_dn() {
    let dn = DistinguishedName::try_from("cn=user,dc=example,dc=com").unwrap();
    assert_eq!(dn.as_str(), "cn=user,dc=example,dc=com");
}

#[test]
fn test_invalid_dn() {
    assert!(DistinguishedName::try_from("").is_err());
    assert!(DistinguishedName::try_from("invalid").is_err());
}

#[test]
fn test_builder() {
    let base = DistinguishedName::try_from("dc=example,dc=com").unwrap();
    let dn = DistinguishedName::builder()
        .add("cn", "john")
        .append_base(&base)
        .build()
        .unwrap();
    assert_eq!(dn.as_str(), "cn=john,dc=example,dc=com");
}

#[test]
fn test_builder_no_base() {
    let dn = DistinguishedName::builder()
        .add("dc", "lab")
        .add("dc", "internal")
        .build()
        .unwrap();
    assert_eq!(dn.as_str(), "dc=lab,dc=internal");
}

#[test]
fn test_dns_name_extraction() {
    assert_eq!(
        DistinguishedName::try_from("DC=lab,DC=internal")
            .unwrap()
            .dns_name()
            .unwrap(),
        "lab.internal"
    );
    assert_eq!(
        DistinguishedName::try_from("OU=Users,DC=example,DC=com")
            .unwrap()
            .dns_name()
            .unwrap(),
        "example.com"
    );
    assert_eq!(
        DistinguishedName::try_from("CN=Users,DC=corp")
            .unwrap()
            .dns_name()
            .unwrap(),
        "corp"
    );
}

#[test]
fn dns_name_absent_without_dc_component() {
    let dn = DistinguishedName::try_from("CN=Users,OU=Spain").unwrap();
    assert_eq!(dn.dns_name(), None);
}

#[test]
fn dns_name_ignores_case_and_spaces() {
    let dn = DistinguishedName::try_from("cn=x, dc=Lab , Dc=Local").unwrap();
    assert_eq!(dn.dns_name().unwrap(), "Lab.Local");
}

#[test]
fn try_from_reports_each_error() {
    assert_eq!(DistinguishedName::try_from(""), Err(DnError::Empty));
    assert_eq!(
        DistinguishedName::try_from("invalid"),
        Err(DnError::MissingEquals("invalid".to_string()))
    );
    assert!(DistinguishedName::try_from_string("a=b".to_string()).is_ok());
}

#[test]
fn builder_empty_is_refused() {
    assert_eq!(DistinguishedName::builder().build(), Err(DnError::Empty));
    let r = DistinguishedName::builder().add_raw("plain").build();
    assert_eq!(r, Err(DnError::MissingEquals("plain".to_string())));
}

#[test]
fn builder_base_only_and_raw_parts() {
    let base = DistinguishedName::try_from("DC=lab,DC=local").unwrap();
    let dn = DistinguishedName::builder().append_base(&base).build().unwrap();
    assert_eq!(dn.as_str(), "DC=lab,DC=local");
    let dn = DistinguishedName::builder()
        .add_raw("OU=Spain")
        .add_raw("OU=Users")
        .append_base(&base)
        .build()
        .unwrap();
    assert_eq!(dn.as_str(), "OU=Spain,OU=Users,DC=lab,DC=local");
}

#[test]
fn target_base_with_and_without_container() {
    let base = DistinguishedName::try_from("DC=lab,DC=local").unwrap();
    let c = DistinguishedName::try_from("OU=Spain").unwrap();
    assert_eq!(resolve_target_base(Some(&c), &base).as_str(), "OU=Spain,DC=lab,DC=local");
    assert_eq!(resolve_target_base(None, &base).as_str(), "DC=lab,DC=local");
    assert_eq!(child_dn("cn", "Grupo", &base).as_str(), "cn=Grupo,DC=lab,DC=local");
}

#[test]
fn dn_from_str_and_clone() {
    let dn: DistinguishedName = "CN=a,DC=b".parse().unwrap();
    assert_eq!(dn.clone(), dn);
    assert!("nothing".parse::<DistinguishedName>().is_err());
}
