use mad::check::is_samba_server;
use mad::dn::DistinguishedNameBuilder;
use mad::removal::{confirms, delete_tally, removal_preview, removal_step, RemovalStep};

#[test]
fn removal_steps() {
    assert_eq!(removal_step(0, false, false, false, None), RemovalStep::NothingFound);
    assert_eq!(removal_step(2, true, false, true, None), RemovalStep::Ambiguous);
    assert_eq!(removal_step(2, false, true, false, None), RemovalStep::DryRun);
    assert_eq!(removal_step(1, true, true, true, Some("y")), RemovalStep::DryRun);
    assert_eq!(removal_step(3, false, false, false, None), RemovalStep::Ask);
    assert_eq!(removal_step(3, false, false, false, Some(" Y\n")), RemovalStep::Delete);
    assert_eq!(removal_step(3, false, false, false, Some("yes")), RemovalStep::Cancelled);
    assert_eq!(removal_step(3, false, false, false, Some("")), RemovalStep::Cancelled);
    assert_eq!(removal_step(1, true, false, true, None), RemovalStep::Delete);
}

#[test]
fn confirmation_answers() {
    assert!(confirms("y"));
    assert!(confirms("  Y \r\n"));
    assert!(!confirms("n"));
    assert!(!confirms("yy"));
}

#[test]
fn preview_and_tally() {
    let dns: Vec<String> = (0..25).map(|i| format!("cn=u{},dc=x", i)).collect();
    let (shown, more) = removal_preview(&dns);
    assert_eq!(shown.len(), 20);
    assert_eq!(shown[19], "cn=u19,dc=x");
    assert_eq!(more, 5);
    let (shown, more) = removal_preview(&dns[..3].to_vec());
    assert_eq!(shown.len(), 3);
    assert_eq!(more, 0);
    assert_eq!(delete_tally(&vec![true, false, true, true]), (3, 1));
    assert_eq!(delete_tally(&vec![]), (0, 0));
}

#[test]
fn samba_from_lowered_vendor() {
    assert!(is_samba_server(Some("samba team"), &vec![]));
    assert!(!is_samba_server(Some("Samba"), &vec![]));
    assert!(is_samba_server(None, &vec!["1.3.6.1.4.1.7165.1".to_string()]));
    assert!(!is_samba_server(None, &vec!["1.2".to_string()]));
}

#[test]
fn builder_default_is_empty() {
    let b = DistinguishedNameBuilder::default();
    assert!(b.build().is_err());
}
