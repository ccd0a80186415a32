//! Group identification, LDAP filter escaping and search scoping.
//!
//! A group is named by a full distinguished name, by an RDN literal such as
//! `CN=My Group`, or by its `sAMAccountName`. The name is turned into an LDAP
//! filter whose value is escaped, and a full DN is checked against the
//! subtree that a command may touch.

use vstd::prelude::*;

use crate::attrs::{AttrModel, attr_views, attrs_from, set_attr, single};
use crate::dn::{DistinguishedName, DnError, components_of, dn_components, string_views};
use crate::users::{opt_view, search_pattern, search_pattern_of};
use crate::text::{
    digit_char,
    lemma_split_nonempty, lemma_split_without_sep,
    chars_of, contains_char, eq_ignore_ascii_case, eq_ignore_ascii_case_chars,
    find_char, first_index, split_on, string_of, sub_chars, to_uppercase, trim,
    trim_chars, unicode_uppercase, views, lemma_split_concat,
};

verus! {

/// How a group is identified.
#[derive(Debug, Clone, PartialEq, Eq)]
pub enum GroupLookup {
    /// A full distinguished name.
    FullDn(DistinguishedName),
    /// The value of a `CN=` relative name.
    RdnCn(String),
    /// An account name.
    SamAccountName(String),
}

/// Why a group identifier was refused.
#[derive(Debug, Clone, PartialEq, Eq)]
pub enum GroupLookupError {
    /// The identifier holds a `,` but is not a distinguished name.
    InvalidDn(DnError),
    /// The identifier (kept here) is `attr=` with nothing after the `=`.
    EmptyRdnValue(String),
    /// The relative name uses an attribute (kept here, upper-cased) other
    /// than `CN`.
    UnsupportedRdnAttribute(String),
}

/// The model of a parsed identifier or of the refusal, over character
/// sequences.
pub enum LookupModel {
    FullDn(Seq<char>),
    RdnCn(Seq<char>),
    SamAccountName(Seq<char>),
    InvalidDn(Seq<char>),
    EmptyRdnValue(Seq<char>),
    UnsupportedRdnAttribute(Seq<char>),
}

/// How an identifier is read: a text with a `,` is a full DN (refused when it
/// holds no `=`); otherwise a text with a `=` is split at its first `=`, both
/// sides trimmed, and is a `CN` value when the upper-cased attribute is `CN`
/// and the value is not empty; any other text is an account name.
pub open spec fn lookup_model(input: Seq<char>) -> LookupModel {
    if input.contains(',') {
        if input.contains('=') {
            LookupModel::FullDn(input)
        } else {
            LookupModel::InvalidDn(input)
        }
    } else if input.contains('=') {
        let k = first_index(input, '=');
        rdn_model(input, unicode_uppercase(trim(input.take(k))), trim(input.skip(k + 1)))
    } else {
        LookupModel::SamAccountName(input)
    }
}

/// How an RDN literal is read once its attribute is trimmed and upper-cased
/// and its value trimmed: refused when the value is empty, a `CN` value when
/// the attribute is `CN`, else refused for its attribute.
pub open spec fn rdn_model(input: Seq<char>, attr_upper: Seq<char>, value: Seq<char>) -> LookupModel {
    if value.len() == 0 {
        LookupModel::EmptyRdnValue(input)
    } else if attr_upper == "CN"@ {
        LookupModel::RdnCn(value)
    } else {
        LookupModel::UnsupportedRdnAttribute(attr_upper)
    }
}

/// The model of what `parse_group_lookup` returned.
pub open spec fn lookup_result_model(r: Result<GroupLookup, GroupLookupError>) -> LookupModel {
    match r {
        Ok(GroupLookup::FullDn(dn)) => LookupModel::FullDn(dn@),
        Ok(GroupLookup::RdnCn(v)) => LookupModel::RdnCn(v@),
        Ok(GroupLookup::SamAccountName(v)) => LookupModel::SamAccountName(v@),
        Err(GroupLookupError::InvalidDn(DnError::MissingEquals(t))) => LookupModel::InvalidDn(t@),
        Err(GroupLookupError::InvalidDn(DnError::Empty)) => LookupModel::InvalidDn(
            Seq::<char>::empty(),
        ),
        Err(GroupLookupError::EmptyRdnValue(t)) => LookupModel::EmptyRdnValue(t@),
        Err(GroupLookupError::UnsupportedRdnAttribute(a)) => LookupModel::UnsupportedRdnAttribute(
            a@,
        ),
    }
}

/// The escaped form of one character in an LDAP filter value (RFC 4515):
/// `*`, `(`, `)`, `\` and NUL become `\` and two hex digits.
pub open spec fn escape_char(c: char) -> Seq<char> {
    if c == '*' {
        seq!['\\', '2', 'a']
    } else if c == '(' {
        seq!['\\', '2', '8']
    } else if c == ')' {
        seq!['\\', '2', '9']
    } else if c == '\\' {
        seq!['\\', '5', 'c']
    } else if c == '\0' {
        seq!['\\', '0', '0']
    } else {
        seq![c]
    }
}

/// The escaped form of a filter value, character by character.
pub open spec fn escaped(s: Seq<char>) -> Seq<char>
    decreases s.len(),
{
    if s.len() == 0 {
        Seq::<char>::empty()
    } else {
        escaped(s.drop_last()) + escape_char(s.last())
    }
}

/// The characters that may not stand unescaped in a filter value.
pub open spec fn filter_special(c: char) -> bool {
    c == '*' || c == '(' || c == ')' || c == '\0'
}

/// `child` lies in the subtree of `scope`: the components of `scope` are the
/// last components of `child`, compared without regard to ASCII case.
pub open spec fn within_scope(child: Seq<char>, scope: Seq<char>) -> bool {
    let c = dn_components(child);
    let s = dn_components(scope);
    &&& s.len() <= c.len()
    &&& forall|i: int|
        0 <= i < s.len() ==> #[trigger] eq_ignore_ascii_case(c[c.len() - s.len() + i], s[i])
}

/// The filter that finds a group by one attribute.
pub open spec fn group_filter(attr: Seq<char>, value: Seq<char>) -> Seq<char> {
    "(&(objectClass=group)("@ + attr + "="@ + escaped(value) + "))"@
}

impl GroupLookup {
    /// A short description of the kind of identifier.
    pub fn input_type(&self) -> (r: &'static str)
        ensures
            r@ == match self {
                GroupLookup::FullDn(_) => "full DN"@,
                GroupLookup::RdnCn(_) => "RDN (CN=...)"@,
                GroupLookup::SamAccountName(_) => "sAMAccountName"@,
            },
    {
        match self {
            GroupLookup::FullDn(_) => "full DN",
            GroupLookup::RdnCn(_) => "RDN (CN=...)",
            GroupLookup::SamAccountName(_) => "sAMAccountName",
        }
    }

    /// The LDAP attribute that the identifier is matched against.
    pub fn lookup_attribute(&self) -> (r: &'static str)
        ensures
            r@ == self.attribute(),
    {
        match self {
            GroupLookup::FullDn(_) => "distinguishedName",
            GroupLookup::RdnCn(_) => "cn",
            GroupLookup::SamAccountName(_) => "sAMAccountName",
        }
    }

    /// The attribute that the identifier is matched against.
    pub open spec fn attribute(&self) -> Seq<char> {
        match self {
            GroupLookup::FullDn(_) => "distinguishedName"@,
            GroupLookup::RdnCn(_) => "cn"@,
            GroupLookup::SamAccountName(_) => "sAMAccountName"@,
        }
    }

    /// The value that the identifier is matched with.
    pub open spec fn value(&self) -> Seq<char> {
        match self {
            GroupLookup::FullDn(dn) => dn@,
            GroupLookup::RdnCn(v) => v@,
            GroupLookup::SamAccountName(v) => v@,
        }
    }

    /// The identifier's value as given.
    pub fn original_value(&self) -> (r: &str)
        ensures
            r@ == self.value(),
    {
        match self {
            GroupLookup::FullDn(dn) => dn.as_str(),
            GroupLookup::RdnCn(value) => value.as_str(),
            GroupLookup::SamAccountName(value) => value.as_str(),
        }
    }

    /// The LDAP filter that finds the group.
    pub fn ldap_filter(&self) -> (r: String)
        ensures
            r@ == group_filter(self.attribute(), self.value()),
    {
        let value = chars_of(self.original_value());
        let esc = escape_ldap_filter_chars(value.as_slice());
        let mut r = String::new();
        r.append("(&(objectClass=group)(");
        r.append(self.lookup_attribute());
        r.append("=");
        let esc_s = string_of(esc.as_slice());
        r.append(esc_s.as_str());
        r.append("))");
        assert(r@ =~= group_filter(self.attribute(), self.value()));
        r
    }
}

/// Reads a group identifier: a full DN, an RDN literal `CN=value`, or an
/// account name.
pub fn parse_group_lookup(input: &str) -> (r: Result<GroupLookup, GroupLookupError>)
    ensures
        lookup_result_model(r) == lookup_model(input@),
{
    let v = chars_of(input);
    if contains_char(v.as_slice(), ',') {
        let dn = DistinguishedName::try_from(input);
        return match dn {
            Ok(dn) => Ok(GroupLookup::FullDn(dn)),
            Err(e) => Err(GroupLookupError::InvalidDn(e)),
        };
    }
    match find_char(v.as_slice(), '=') {
        Some(k) => {
            assert(k < v.len());
            let attr_chars = trim_chars(sub_chars(v.as_slice(), 0, k).as_slice());
            let value_chars = trim_chars(sub_chars(v.as_slice(), k + 1, v.len()).as_slice());
            assert(v@.subrange(0, k as int) =~= input@.take(k as int));
            assert(v@.subrange(k + 1, v@.len() as int) =~= input@.skip(k + 1));
            let attr_trimmed = string_of(attr_chars.as_slice());
            let attr = to_uppercase(attr_trimmed.as_str());
            let value = string_of(value_chars.as_slice());
            lookup_from_rdn(input, attr.as_str(), value.as_str())
        },
        None => Ok(GroupLookup::SamAccountName(input.to_owned())),
    }
}

/// Reads an RDN literal from its upper-cased attribute and its trimmed
/// value.
pub fn lookup_from_rdn(input: &str, attr_upper: &str, value: &str) -> (r: Result<
    GroupLookup,
    GroupLookupError,
>)
    ensures
        lookup_result_model(r) == rdn_model(input@, attr_upper@, value@),
{
    let vv = chars_of(value);
    if vv.len() == 0 {
        return Err(GroupLookupError::EmptyRdnValue(input.to_owned()));
    }
    let attr_v = chars_of(attr_upper);
    let cn: Vec<char> = vec!['C', 'N'];
    proof {
        reveal_strlit("CN");
    }
    if equal_chars(attr_v.as_slice(), cn.as_slice()) {
        assert(attr_upper@ =~= "CN"@);
        Ok(GroupLookup::RdnCn(value.to_owned()))
    } else {
        assert(attr_upper@ != "CN"@) by {
            if attr_upper@ == "CN"@ {
                assert(attr_v@ =~= cn@);
            }
        }
        Err(GroupLookupError::UnsupportedRdnAttribute(attr_upper.to_owned()))
    }
}

/// Whether two character slices are equal.
pub fn equal_chars(a: &[char], b: &[char]) -> (r: bool)
    ensures
        r == (a@ == b@),
{
    if a.len() != b.len() {
        return false;
    }
    let n = a.len();
    let mut i: usize = 0;
    while i < n
        invariant
            n == a@.len(),
            n == b@.len(),
            i <= n,
            forall|t: int| 0 <= t < i ==> a@[t] == b@[t],
        decreases n - i,
    {
        if a[i] != b[i] {
            return false;
        }
        i = i + 1;
    }
    assert(a@ =~= b@);
    true
}

/// Escapes the characters that have a meaning in LDAP filters.
pub fn escape_ldap_filter_chars(value: &[char]) -> (r: Vec<char>)
    ensures
        r@ == escaped(value@),
{
    let n = value.len();
    let mut out: Vec<char> = Vec::new();
    let mut i: usize = 0;
    assert(value@.take(0) =~= Seq::<char>::empty());
    while i < n
        invariant
            n == value@.len(),
            i <= n,
            out@ == escaped(value@.take(i as int)),
        decreases n - i,
    {
        let ch = value[i];
        let ghost before = out@;
        if ch == '*' {
            out.push('\\');
            out.push('2');
            out.push('a');
        } else if ch == '(' {
            out.push('\\');
            out.push('2');
            out.push('8');
        } else if ch == ')' {
            out.push('\\');
            out.push('2');
            out.push('9');
        } else if ch == '\\' {
            out.push('\\');
            out.push('5');
            out.push('c');
        } else if ch == '\0' {
            out.push('\\');
            out.push('0');
            out.push('0');
        } else {
            out.push(ch);
        }
        assert(value@.take(i + 1).drop_last() =~= value@.take(i as int));
        assert(out@ =~= before + escape_char(ch));
        i = i + 1;
    }
    assert(value@.take(n as int) =~= value@);
    out
}

/// Escapes the characters that have a meaning in LDAP filters.
pub fn escape_ldap_filter_value(value: &str) -> (r: String)
    ensures
        r@ == escaped(value@),
{
    let v = chars_of(value);
    let e = escape_ldap_filter_chars(v.as_slice());
    string_of(e.as_slice())
}

/// Whether `child` lies in the subtree rooted at `scope`.
pub fn dn_is_within_scope(child: &DistinguishedName, scope: &DistinguishedName) -> (r: bool)
    ensures
        r == within_scope(child@, scope@),
{
    let c = components_of(child.as_str());
    let s = components_of(scope.as_str());
    if s.len() > c.len() {
        return false;
    }
    let offset = c.len() - s.len();
    let n = s.len();
    let mut i: usize = 0;
    while i < n
        invariant
            n == s@.len(),
            offset + n == c@.len(),
            c@.len() == c.len(),
            views(c@) == dn_components(child@),
            views(s@) == dn_components(scope@),
            i <= n,
            forall|t: int|
                0 <= t < i ==> #[trigger] eq_ignore_ascii_case(
                    dn_components(child@)[offset + t],
                    dn_components(scope@)[t],
                ),
        decreases n - i,
    {
        assert(views(c@)[offset + i] == c@[offset + i]@);
        assert(views(s@)[i as int] == s@[i as int]@);
        if !eq_ignore_ascii_case_chars(c[offset + i].as_slice(), s[i].as_slice()) {
            assert(!eq_ignore_ascii_case(
                dn_components(child@)[dn_components(child@).len() - dn_components(scope@).len()
                    + i],
                dn_components(scope@)[i as int],
            ));
            return false;
        }
        i = i + 1;
    }
    true
}

/// Every distinguished name lies in its own subtree.
pub proof fn law_scope_reflexive(dn: Seq<char>)
    ensures
        within_scope(dn, dn),
{
}

/// A name lies in a subtree only when its last component equals the
/// subtree's last component (ignoring ASCII case): names under different
/// roots are never in each other's subtree.
pub proof fn law_scope_same_last_component(child: Seq<char>, scope: Seq<char>)
    ensures
        within_scope(child, scope) ==> eq_ignore_ascii_case(
            dn_components(child).last(),
            dn_components(scope).last(),
        ),
        within_scope(child, scope) ==> dn_components(scope).len() <= dn_components(child).len(),
{
    lemma_split_nonempty(child, ',');
    lemma_split_nonempty(scope, ',');
    let c = dn_components(child);
    let s = dn_components(scope);
    if within_scope(child, scope) {
        let i = s.len() - 1;
        assert(eq_ignore_ascii_case(c[c.len() - s.len() + i], s[i]));
        assert(c[c.len() - s.len() + i] == c.last());
    }
}

/// For names of one component each, one lies in the other's subtree exactly
/// when the two are equal once trimmed, ignoring ASCII case.
pub proof fn law_scope_single_component(child: Seq<char>, scope: Seq<char>)
    requires
        !child.contains(','),
        !scope.contains(','),
    ensures
        within_scope(child, scope) == eq_ignore_ascii_case(trim(child), trim(scope)),
{
    lemma_split_without_sep(child, ',');
    lemma_split_without_sep(scope, ',');
    assert(dn_components(child) =~= seq![trim(child)]);
    assert(dn_components(scope) =~= seq![trim(scope)]);
    if eq_ignore_ascii_case(trim(child), trim(scope)) {
        assert forall|i: int| 0 <= i < 1 implies #[trigger] eq_ignore_ascii_case(
            dn_components(child)[1 - 1 + i],
            dn_components(scope)[i],
        ) by {
            assert(i == 0);
        }
    } else {
        assert(!eq_ignore_ascii_case(
            dn_components(child)[dn_components(child).len() - dn_components(scope).len() + 0],
            dn_components(scope)[0],
        ));
    }
}

/// A name made of relative parts in front of a base lies in the base's
/// subtree.
pub proof fn law_child_within_scope(prefix: Seq<char>, base: Seq<char>)
    ensures
        within_scope(prefix + seq![','] + base, base),
{
    lemma_split_concat(prefix, base, ',');
    let pa = split_on(prefix, ',');
    let pb = split_on(base, ',');
    let c = dn_components(prefix + seq![','] + base);
    let s = dn_components(base);
    assert(c =~= pa.map_values(|p: Seq<char>| trim(p)) + s);
    assert forall|i: int| 0 <= i < s.len() implies #[trigger] eq_ignore_ascii_case(
        c[c.len() - s.len() + i],
        s[i],
    ) by {
        assert(c[c.len() - s.len() + i] == s[i]);
    }
}

/// The escaped form of a value holds no `*`, `(`, `)` or NUL, so the value
/// can never change the structure of the filter it is put in.
pub proof fn law_escaped_has_no_special(s: Seq<char>)
    ensures
        forall|i: int| 0 <= i < escaped(s).len() ==> !filter_special(#[trigger] escaped(s)[i]),
    decreases s.len(),
{
    if s.len() > 0 {
        law_escaped_has_no_special(s.drop_last());
        let e = escaped(s);
        let prev = escaped(s.drop_last());
        let tail = escape_char(s.last());
        assert(e == prev + tail);
        assert forall|i: int| 0 <= i < e.len() implies !filter_special(#[trigger] e[i]) by {
            if i < prev.len() {
                assert(e[i] == prev[i]);
            } else {
                assert(e[i] == tail[i - prev.len()]);
            }
        }
    }
}

/// The character that an escape sequence `\xy` stands for, for the five
/// sequences that escaping produces.
spec fn unescape_pair(x: char, y: char) -> Option<char> {
    if x == '2' && y == 'a' {
        Some('*')
    } else if x == '2' && y == '8' {
        Some('(')
    } else if x == '2' && y == '9' {
        Some(')')
    } else if x == '5' && y == 'c' {
        Some('\\')
    } else if x == '0' && y == '0' {
        Some('\0')
    } else {
        None
    }
}

/// Undoes the escaping, reading from the front.
spec fn unescaped(s: Seq<char>) -> Seq<char>
    decreases s.len(),
{
    if s.len() == 0 {
        Seq::<char>::empty()
    } else if s.len() >= 3 && s[0] == '\\' && unescape_pair(s[1], s[2]) is Some {
        seq![unescape_pair(s[1], s[2])->0] + unescaped(s.skip(3))
    } else {
        seq![s[0]] + unescaped(s.drop_first())
    }
}

proof fn lemma_escaped_prepend(c: char, s: Seq<char>)
    ensures
        escaped(seq![c] + s) == escape_char(c) + escaped(s),
    decreases s.len(),
{
    if s.len() == 0 {
        assert(seq![c] + s =~= seq![c]);
        assert(seq![c].drop_last() =~= Seq::<char>::empty());
        assert(escaped(Seq::<char>::empty()) == Seq::<char>::empty());
        assert(escaped(s) == Seq::<char>::empty());
        assert(escaped(seq![c]) == escaped(seq![c].drop_last()) + escape_char(c));
        assert(Seq::<char>::empty() + escape_char(c) =~= escape_char(c));
        assert(escape_char(c) + Seq::<char>::empty() =~= escape_char(c));
    } else {
        lemma_escaped_prepend(c, s.drop_last());
        assert((seq![c] + s).drop_last() =~= seq![c] + s.drop_last());
        assert((seq![c] + s).last() == s.last());
        assert(escaped(seq![c] + s) == escaped((seq![c] + s).drop_last()) + escape_char(s.last()));
        assert(escaped(s) == escaped(s.drop_last()) + escape_char(s.last()));
        assert(escape_char(c) + escaped(s.drop_last()) + escape_char(s.last()) =~= escape_char(c)
            + (escaped(s.drop_last()) + escape_char(s.last())));
    }
}

proof fn lemma_unescape_one(c: char, r: Seq<char>)
    ensures
        unescaped(escape_char(c) + r) == seq![c] + unescaped(r),
{
    let e = escape_char(c) + r;
    if c == '*' || c == '(' || c == ')' || c == '\\' || c == '\0' {
        assert(e.skip(3) =~= r);
    } else {
        assert(e.drop_first() =~= r);
    }
}

proof fn lemma_unescape_escaped(s: Seq<char>)
    ensures
        unescaped(escaped(s)) == s,
    decreases s.len(),
{
    if s.len() > 0 {
        let rest = s.drop_first();
        assert(seq![s[0]] + rest =~= s);
        lemma_escaped_prepend(s[0], rest);
        lemma_unescape_one(s[0], escaped(rest));
        lemma_unescape_escaped(rest);
    }
}

/// Escaping is one-to-one: distinct values never give the same filter
/// value, so a filter finds exactly the value it was built from.
pub proof fn law_escape_injective(a: Seq<char>, b: Seq<char>)
    ensures
        escaped(a) == escaped(b) ==> a == b,
{
    lemma_unescape_escaped(a);
    lemma_unescape_escaped(b);
}

/// The group filter built from a simple filter that holds a `*` matches
/// `cn` and `sAMAccountName` against exactly that filter; one without `*` is
/// searched anywhere in them.
pub proof fn law_group_filter_wildcards(f: Seq<char>)
    ensures
        f.contains('*') ==> group_list_filter_text(Some(f), None) == "(&(objectClass=group)(|(cn="@
            + f + ")(sAMAccountName="@ + f + ")))"@,
        !f.contains('*') ==> group_list_filter_text(Some(f), None)
            == "(&(objectClass=group)(|(cn="@ + (seq!['*'] + f + seq!['*']) + ")(sAMAccountName="@
            + (seq!['*'] + f + seq!['*']) + ")))"@,
{
}

/// The lower-case hexadecimal digit for `d` (taken modulo sixteen).
pub open spec fn hex_digit(d: int) -> char {
    let d = d % 16;
    if d < 10 {
        digit_char(d)
    } else if d == 10 {
        'a'
    } else if d == 11 {
        'b'
    } else if d == 12 {
        'c'
    } else if d == 13 {
        'd'
    } else if d == 14 {
        'e'
    } else {
        'f'
    }
}

/// Each of `*`, `(`, `)`, `\` and NUL is written as `\` followed by the two
/// lower-case hex digits of its code (RFC 4515); every other character is
/// written as itself.
pub proof fn law_escape_is_hex_code(c: char)
    ensures
        filter_special(c) || c == '\\' ==> escaped(seq![c]) == seq![
            '\\',
            hex_digit((c as u32) as int / 16),
            hex_digit((c as u32) as int % 16),
        ],
        !(filter_special(c) || c == '\\') ==> escaped(seq![c]) == seq![c],
{
    assert(seq![c].drop_last() =~= Seq::<char>::empty());
    assert(seq![c].last() == c);
    assert(escaped(seq![c]) == escaped(Seq::<char>::empty()) + escape_char(c));
    assert(escaped(seq![c]) =~= escape_char(c));
    if c == '*' {
        assert((c as u32) == 42);
    } else if c == '(' {
        assert((c as u32) == 40);
    } else if c == ')' {
        assert((c as u32) == 41);
    } else if c == '\\' {
        assert((c as u32) == 92);
    } else if c == '\0' {
        assert((c as u32) == 0);
    }
}

/// Escaping works character by character: the escaped form of two texts put
/// together is the two escaped forms put together.
pub proof fn law_escape_concat(a: Seq<char>, b: Seq<char>)
    ensures
        escaped(a + b) == escaped(a) + escaped(b),
    decreases b.len(),
{
    if b.len() == 0 {
        assert(a + b =~= a);
        assert(escaped(a) + escaped(b) =~= escaped(a));
    } else {
        law_escape_concat(a, b.drop_last());
        assert((a + b).drop_last() =~= a + b.drop_last());
        assert((a + b).last() == b.last());
        assert(escaped(a) + (escaped(b.drop_last()) + escape_char(b.last())) =~= escaped(a)
            + escaped(b.drop_last()) + escape_char(b.last()));
    }
}

/// The text that starts every group filter, up to the value.
pub open spec fn filter_head(attr: Seq<char>) -> Seq<char> {
    "(&(objectClass=group)("@ + attr + "="@
}

/// Whatever the kind of lookup (full DN, `CN=` value or account name), the
/// filter is its head, then the escaped value, then `))`; so the value part
/// holds no `*`, `(`, `)` or NUL.
pub proof fn law_filter_value_escaped(l: GroupLookup)
    ensures
        ({
            let f = group_filter(l.attribute(), l.value());
            let k = filter_head(l.attribute()).len() as int;
            &&& f.take(k) == filter_head(l.attribute())
            &&& f.subrange(k, f.len() - 2) == escaped(l.value())
            &&& forall|i: int| k <= i < f.len() - 2 ==> !filter_special(#[trigger] f[i])
        }),
{
    reveal_strlit("))");
    let f = group_filter(l.attribute(), l.value());
    let head = filter_head(l.attribute());
    let e = escaped(l.value());
    let k = head.len() as int;
    assert(f =~= head + e + "))"@);
    assert(f.take(k) =~= head);
    assert(f.subrange(k, f.len() - 2) =~= e);
    law_escaped_has_no_special(l.value());
    assert forall|i: int| k <= i < f.len() - 2 implies !filter_special(#[trigger] f[i]) by {
        assert(f[i] == e[i - k]);
    }
}

/// Two lookups on the same attribute give the same filter only for the same
/// value.
pub proof fn law_filter_injective(attr: Seq<char>, v1: Seq<char>, v2: Seq<char>)
    ensures
        group_filter(attr, v1) == group_filter(attr, v2) ==> v1 == v2,
{
    reveal_strlit("))");
    let head = filter_head(attr);
    let f1 = group_filter(attr, v1);
    let f2 = group_filter(attr, v2);
    assert(f1 =~= head + escaped(v1) + "))"@);
    assert(f2 =~= head + escaped(v2) + "))"@);
    if f1 == f2 {
        assert(f1.subrange(head.len() as int, f1.len() - 2) =~= escaped(v1));
        assert(f2.subrange(head.len() as int, f2.len() - 2) =~= escaped(v2));
        law_escape_injective(v1, v2);
    }
}

/// A value without special characters and without `\` is kept as it is.
pub proof fn law_plain_value_unescaped(s: Seq<char>)
    requires
        forall|i: int| 0 <= i < s.len() ==> !filter_special(#[trigger] s[i]) && s[i] != '\\',
    ensures
        escaped(s) == s,
    decreases s.len(),
{
    if s.len() > 0 {
        law_plain_value_unescaped(s.drop_last());
        assert(s.drop_last() + seq![s.last()] =~= s);
    }
}

/// The filter that a group listing searches with: a raw filter as given,
/// else a simple filter matched against `cn` and `sAMAccountName`, else
/// every group.
pub open spec fn group_list_filter_text(filter: Option<Seq<char>>, raw: Option<Seq<char>>) -> Seq<
    char,
> {
    match raw {
        Some(r) => r,
        None => match filter {
            Some(f) => {
                let p = search_pattern(f);
                "(&(objectClass=group)(|(cn="@ + p + ")(sAMAccountName="@ + p + ")))"@
            },
            None => "(objectClass=group)"@,
        },
    }
}

/// The filter that a group listing searches with.
pub fn group_search_filter(filter: Option<String>, ldap_filter: Option<String>) -> (r: String)
    ensures
        r@ == group_list_filter_text(opt_view(filter), opt_view(ldap_filter)),
{
    match ldap_filter {
        Some(raw) => raw,
        None => match filter {
            Some(f) => {
                let p = search_pattern_of(f.as_str());
                let mut r = String::new();
                r.append("(&(objectClass=group)(|(cn=");
                r.append(p.as_str());
                r.append(")(sAMAccountName=");
                r.append(p.as_str());
                r.append(")))");
                r
            },
            None => "(objectClass=group)".to_owned(),
        },
    }
}

/// The attributes of a new group, in the order they are set.
pub open spec fn group_settings(name: Seq<char>) -> Seq<AttrModel> {
    seq![
        ("objectClass"@, seq!["top"@, "group"@]),
        ("sAMAccountName"@, seq![name]),
        ("cn"@, seq![name]),
    ]
}

/// The attributes of a new group named `groupname`.
pub fn group_attributes(groupname: &str) -> (r: Vec<(String, Vec<String>)>)
    ensures
        attr_views(r@) == attrs_from(group_settings(groupname@)),
{
    let ghost settings = group_settings(groupname@);
    let mut attrs: Vec<(String, Vec<String>)> = Vec::new();
    let mut object_class: Vec<String> = Vec::new();
    object_class.push("top".to_owned());
    object_class.push("group".to_owned());
    assert(string_views(object_class@) =~= seq!["top"@, "group"@]);
    assert(attr_views(attrs@) =~= attrs_from(settings.take(0)));
    set_attr(&mut attrs, "objectClass".to_owned(), object_class);
    assert(settings.take(1).drop_last() =~= settings.take(0));
    assert(attr_views(attrs@) == attrs_from(settings.take(1)));
    set_attr(&mut attrs, "sAMAccountName".to_owned(), single(groupname.to_owned()));
    assert(settings.take(2).drop_last() =~= settings.take(1));
    assert(attr_views(attrs@) == attrs_from(settings.take(2)));
    set_attr(&mut attrs, "cn".to_owned(), single(groupname.to_owned()));
    assert(settings.take(3).drop_last() =~= settings.take(2));
    assert(settings.take(3) =~= settings);
    attrs
}

/// Why a group cannot be looked up for removal.
#[derive(Debug, PartialEq, Eq)]
pub enum GroupRemovalError {
    /// The identifier was refused.
    Lookup(GroupLookupError),
    /// The identifier is a full DN outside the subtree searched.
    OutsideScope,
}

/// What a removal searches for: the identifier as read and its filter.
pub struct GroupQuery {
    pub lookup: GroupLookup,
    pub filter: String,
}

/// Reads the identifier of a group to remove and builds its filter, refusing
/// a full DN that does not lie under `target_base`.
pub fn plan_group_removal(name: &str, target_base: &DistinguishedName) -> (r: Result<
    GroupQuery,
    GroupRemovalError,
>)
    ensures
        match r {
            Ok(q) => {
                &&& lookup_result_model(Ok(q.lookup)) == lookup_model(name@)
                &&& (q.lookup matches GroupLookup::FullDn(dn) ==> within_scope(dn@, target_base@))
                &&& q.filter@ == group_filter(q.lookup.attribute(), q.lookup.value())
            },
            Err(GroupRemovalError::Lookup(e)) => lookup_result_model(Err(e)) == lookup_model(name@),
            Err(GroupRemovalError::OutsideScope) => lookup_model(name@) matches LookupModel::FullDn(
                t,
            ) && !within_scope(t, target_base@),
        },
{
    let lookup = parse_group_lookup(name);
    match lookup {
        Err(e) => Err(GroupRemovalError::Lookup(e)),
        Ok(lookup) => {
            if let GroupLookup::FullDn(dn) = &lookup {
                if !dn_is_within_scope(dn, target_base) {
                    return Err(GroupRemovalError::OutsideScope);
                }
            }
            let filter = lookup.ldap_filter();
            Ok(GroupQuery { lookup, filter })
        },
    }
}

} // verus!
