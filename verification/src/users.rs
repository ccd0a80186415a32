//! Search filters for users and the data of newly created users.

use vstd::prelude::*;

use crate::attrs::{AttrModel, attr_views, attrs_from, set_attr, single};
use crate::config::AttributeMappings;
use crate::dn::{DistinguishedName, child_dn, string_views};
use crate::naming::{NamingFormatter, rendered_name};
use crate::text::{chars_of, contains_char, decimal, push_char, string_of, zero_pad, zero_padded};

verus! {

/// The pattern that a simple filter searches with: as given when it holds a
/// `*`, else surrounded by `*` so that it matches anywhere.
pub open spec fn search_pattern(f: Seq<char>) -> Seq<char> {
    if f.contains('*') {
        f
    } else {
        seq!['*'] + f + seq!['*']
    }
}

/// A simple filter that holds a `*` anywhere is searched as it is; one
/// without any `*` is searched anywhere, surrounded by `*`. Either way the
/// pattern holds a `*`, and it is its own pattern.
pub proof fn law_search_pattern(f: Seq<char>)
    ensures
        f.contains('*') ==> search_pattern(f) == f,
        !f.contains('*') ==> search_pattern(f) == seq!['*'] + f + seq!['*'],
        search_pattern(f).contains('*'),
        search_pattern(search_pattern(f)) == search_pattern(f),
{
    if !f.contains('*') {
        let p = seq!['*'] + f + seq!['*'];
        assert(p[0] == '*');
    }
}

/// The user filter built from a simple filter that holds a `*` matches
/// `cn`, `sAMAccountName` and `mail` against exactly that filter.
pub proof fn law_user_filter_keeps_wildcards(f: Seq<char>)
    requires
        f.contains('*'),
    ensures
        user_filter_text(Some(f), None) == "(&(objectClass=user)(|(cn="@ + f + ")(sAMAccountName="@
            + f + ")(mail="@ + f + ")))"@,
{
}

/// The filter that a user listing searches with: a raw filter as given, else
/// a simple filter matched against `cn`, `sAMAccountName` and `mail`, else
/// every user.
pub open spec fn user_filter_text(filter: Option<Seq<char>>, raw: Option<Seq<char>>) -> Seq<char> {
    match raw {
        Some(r) => r,
        None => match filter {
            Some(f) => {
                let p = search_pattern(f);
                "(&(objectClass=user)(|(cn="@ + p + ")(sAMAccountName="@ + p + ")(mail="@ + p
                    + ")))"@
            },
            None => "(objectClass=user)"@,
        },
    }
}

/// The text of an optional string.
pub open spec fn opt_view(s: Option<String>) -> Option<Seq<char>> {
    match s {
        Some(v) => Some(v@),
        None => None,
    }
}

/// The search pattern for a simple filter.
pub fn search_pattern_of(f: &str) -> (r: String)
    ensures
        r@ == search_pattern(f@),
{
    let v = chars_of(f);
    if contains_char(v.as_slice(), '*') {
        f.to_owned()
    } else {
        let mut r = String::new();
        push_char(&mut r, '*');
        r.append(f);
        push_char(&mut r, '*');
        assert(r@ =~= seq!['*'] + f@ + seq!['*']);
        r
    }
}

/// The filter that a user listing searches with.
pub fn user_search_filter(filter: Option<String>, ldap_filter: Option<String>) -> (r: String)
    ensures
        r@ == user_filter_text(opt_view(filter), opt_view(ldap_filter)),
{
    match ldap_filter {
        Some(raw) => raw,
        None => match filter {
            Some(f) => {
                let p = search_pattern_of(f.as_str());
                let mut r = String::new();
                r.append("(&(objectClass=user)(|(cn=");
                r.append(p.as_str());
                r.append(")(sAMAccountName=");
                r.append(p.as_str());
                r.append(")(mail=");
                r.append(p.as_str());
                r.append(")))");
                r
            },
            None => "(objectClass=user)".to_owned(),
        },
    }
}

/// The filter that selects users to remove: users whose username attribute
/// matches `filter` (wildcards allowed).
pub fn user_removal_filter(username_attr: &str, filter: &str) -> (r: String)
    ensures
        r@ == "(&(objectClass=user)("@ + username_attr@ + "="@ + filter@ + "))"@,
{
    let mut r = String::new();
    r.append("(&(objectClass=user)(");
    r.append(username_attr);
    r.append("=");
    r.append(filter);
    r.append("))");
    r
}

/// The mobile number given to the user with this index: `+34 6` and the
/// index's last eight digits.
pub open spec fn phone_number(index: u32) -> Seq<char> {
    "+34 6"@ + zero_pad(decimal((index % 100000000) as nat), 8)
}

/// The attributes of a new user, in the order they are set (a later setting
/// of the same attribute replaces an earlier one).
pub open spec fn user_settings(
    m: AttributeMappings,
    username: Seq<char>,
    first: Seq<char>,
    last: Seq<char>,
    email: Seq<char>,
    phone: Seq<char>,
) -> Seq<AttrModel> {
    seq![
        ("objectClass"@, seq!["top"@, "person"@, "organizationalPerson"@, "user"@]),
        (m.username@, seq![username]),
        (m.first_name@, seq![first]),
        (m.last_name@, seq![last]),
        (m.email@, seq![email]),
        (m.phone@, seq![phone]),
        ("userPrincipalName"@, seq![email]),
        ("displayName"@, seq![first + " "@ + last]),
        ("cn"@, seq![username]),
    ]
}

/// A user to create: its name and its attributes.
pub struct NewUser {
    pub dn: DistinguishedName,
    pub attributes: Vec<(String, Vec<String>)>,
}

/// The entry of the user with this index, named by the formatter from the
/// given first and last names, under `target_base`, with mail in `domain`.
pub fn prepare_user_entry(
    mappings: &AttributeMappings,
    formatter: &NamingFormatter,
    domain: &str,
    target_base: &DistinguishedName,
    index: u32,
    first_name: &str,
    last_name: &str,
) -> (r: NewUser)
    ensures
        ({
            let username = rendered_name(formatter@, first_name@, last_name@, index);
            let email = username + "@"@ + domain@;
            &&& r.dn@ == "cn"@ + seq!['='] + username + seq![','] + target_base@
            &&& attr_views(r.attributes@) == attrs_from(
                user_settings(*mappings, username, first_name@, last_name@, email, phone_number(index)),
            )
        }),
{
    let username = formatter.generate(first_name, last_name, index);
    let mut email = username.clone();
    email.append("@");
    email.append(domain);
    let digits = zero_padded(index % 100000000, 8);
    let digits_s = string_of(digits.as_slice());
    let mut phone = "+34 6".to_owned();
    phone.append(digits_s.as_str());

    let dn = child_dn("cn", username.as_str(), target_base);

    let mut display = first_name.to_owned();
    display.append(" ");
    display.append(last_name);

    assert(email@ =~= username@ + "@"@ + domain@);
    assert(phone@ =~= phone_number(index));
    assert(display@ =~= first_name@ + " "@ + last_name@);
    let ghost settings = user_settings(*mappings, username@, first_name@, last_name@, email@, phone@);
    let mut attrs: Vec<(String, Vec<String>)> = Vec::new();
    let mut object_class: Vec<String> = Vec::new();
    object_class.push("top".to_owned());
    object_class.push("person".to_owned());
    object_class.push("organizationalPerson".to_owned());
    object_class.push("user".to_owned());
    assert(string_views(object_class@) =~= seq!["top"@, "person"@, "organizationalPerson"@, "user"@]);
    assert(attr_views(attrs@) =~= attrs_from(settings.take(0)));
    set_attr(&mut attrs, "objectClass".to_owned(), object_class);
    assert(settings.take(1).drop_last() =~= settings.take(0));
    assert(attr_views(attrs@) == attrs_from(settings.take(1)));
    set_attr(&mut attrs, mappings.username.clone(), single(username.clone()));
    assert(settings.take(2).drop_last() =~= settings.take(1));
    assert(attr_views(attrs@) == attrs_from(settings.take(2)));
    set_attr(&mut attrs, mappings.first_name.clone(), single(first_name.to_owned()));
    assert(settings.take(3).drop_last() =~= settings.take(2));
    assert(attr_views(attrs@) == attrs_from(settings.take(3)));
    set_attr(&mut attrs, mappings.last_name.clone(), single(last_name.to_owned()));
    assert(settings.take(4).drop_last() =~= settings.take(3));
    assert(attr_views(attrs@) == attrs_from(settings.take(4)));
    set_attr(&mut attrs, mappings.email.clone(), single(email.clone()));
    assert(settings.take(5).drop_last() =~= settings.take(4));
    assert(attr_views(attrs@) == attrs_from(settings.take(5)));
    set_attr(&mut attrs, mappings.phone.clone(), single(phone));
    assert(settings.take(6).drop_last() =~= settings.take(5));
    assert(attr_views(attrs@) == attrs_from(settings.take(6)));
    set_attr(&mut attrs, "userPrincipalName".to_owned(), single(email));
    assert(settings.take(7).drop_last() =~= settings.take(6));
    assert(attr_views(attrs@) == attrs_from(settings.take(7)));
    set_attr(&mut attrs, "displayName".to_owned(), single(display));
    assert(settings.take(8).drop_last() =~= settings.take(7));
    assert(attr_views(attrs@) == attrs_from(settings.take(8)));
    set_attr(&mut attrs, "cn".to_owned(), single(username));
    assert(settings.take(9).drop_last() =~= settings.take(8));
    assert(attr_views(attrs@) == attrs_from(settings.take(9)));
    assert(settings.take(9) =~= settings);
    NewUser { dn, attributes: attrs }
}

} // verus!
