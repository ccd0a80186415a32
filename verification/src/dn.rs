//! Distinguished names and a builder that assembles them from parts.

use std::str::FromStr;

use vstd::prelude::*;

use crate::text::{
    chars_of, contains_char, eq_ignore_ascii_case, eq_ignore_ascii_case_chars, extend_chars, join,
    join_chars, push_char, split_chars, split_on, string_of, sub_chars, trim, trim_chars, views,
    is_space, trim_start, trim_end, lemma_join_push, lemma_split_concat, lemma_split_without_sep,
};

verus! {

/// A text is accepted as a distinguished name when it is not empty and holds
/// at least one `=`.
pub open spec fn dn_text_valid(s: Seq<char>) -> bool {
    s.len() > 0 && s.contains('=')
}

/// The components of a distinguished name: its text split at every `,`,
/// each piece trimmed.
pub open spec fn dn_components(s: Seq<char>) -> Seq<Seq<char>> {
    split_on(s, ',').map_values(|p: Seq<char>| trim(p))
}

/// A component names a domain component: it starts with `DC=` in any ASCII
/// case.
pub open spec fn is_dc_component(c: Seq<char>) -> bool {
    c.len() >= 3 && eq_ignore_ascii_case(c.take(3), seq!['D', 'C', '='])
}

/// The labels of the domain components, in order.
pub open spec fn dc_labels(comps: Seq<Seq<char>>) -> Seq<Seq<char>>
    decreases comps.len(),
{
    if comps.len() == 0 {
        Seq::<Seq<char>>::empty()
    } else {
        let prev = dc_labels(comps.drop_last());
        if is_dc_component(comps.last()) {
            prev.push(comps.last().skip(3))
        } else {
            prev
        }
    }
}

/// The DNS domain that a distinguished name's `DC=` components spell, such
/// as `lab.internal` for `OU=Users,DC=lab,DC=internal`; none when the name
/// has no such component.
pub open spec fn dns_domain(dn: Seq<char>) -> Option<Seq<char>> {
    let labels = dc_labels(dn_components(dn));
    if labels.len() == 0 {
        None
    } else {
        Some(join(labels, seq!['.']))
    }
}

/// The trimmed components of a distinguished name's text.
pub fn components_of(text: &str) -> (r: Vec<Vec<char>>)
    ensures
        views(r@) == dn_components(text@),
{
    let v = chars_of(text);
    let pieces = split_chars(v.as_slice(), ',');
    let n = pieces.len();
    let mut r: Vec<Vec<char>> = Vec::new();
    let mut i: usize = 0;
    while i < n
        invariant
            n == pieces@.len(),
            views(pieces@) == split_on(text@, ','),
            i <= n,
            views(r@) == dn_components(text@).take(i as int),
        decreases n - i,
    {
        let t = trim_chars(pieces[i].as_slice());
        let ghost before = r@;
        r.push(t);
        assert(views(pieces@)[i as int] == pieces@[i as int]@);
        assert(dn_components(text@)[i as int] == trim(pieces@[i as int]@));
        assert(views(r@) =~= views(before).push(t@));
        assert(dn_components(text@).take(i + 1) =~= dn_components(text@).take(i as int).push(
            dn_components(text@)[i as int],
        ));
        i = i + 1;
    }
    assert(dn_components(text@).take(n as int) =~= dn_components(text@));
    r
}

/// Why a text was refused as a distinguished name.
#[derive(Debug, Clone, PartialEq, Eq)]
pub enum DnError {
    /// The text was empty.
    Empty,
    /// The text (kept here) holds no `=`.
    MissingEquals(String),
}

/// A distinguished name such as `CN=Users,DC=lab,DC=local`.
#[derive(Debug, PartialEq, Eq, Hash)]
pub struct DistinguishedName(String);

impl View for DistinguishedName {
    type V = Seq<char>;

    closed spec fn view(&self) -> Seq<char> {
        self.0@
    }
}

impl DistinguishedName {
    #[verifier::type_invariant]
    spec fn well_formed(self) -> bool {
        dn_text_valid(self.0@)
    }

    /// Checks a text and wraps it as a distinguished name.
    pub fn try_from(s: &str) -> (r: Result<DistinguishedName, DnError>)
        ensures
            match r {
                Ok(dn) => dn_text_valid(s@) && dn@ == s@,
                Err(DnError::Empty) => s@.len() == 0,
                Err(DnError::MissingEquals(t)) => s@.len() > 0 && !s@.contains('=') && t@ == s@,
            },
    {
        let v = chars_of(s);
        if v.len() == 0 {
            return Err(DnError::Empty);
        }
        if !contains_char(v.as_slice(), '=') {
            return Err(DnError::MissingEquals(s.to_owned()));
        }
        Ok(DistinguishedName(s.to_owned()))
    }

    /// Checks an owned text and wraps it as a distinguished name.
    pub fn try_from_string(s: String) -> (r: Result<DistinguishedName, DnError>)
        ensures
            match r {
                Ok(dn) => dn_text_valid(s@) && dn@ == s@,
                Err(DnError::Empty) => s@.len() == 0,
                Err(DnError::MissingEquals(t)) => s@.len() > 0 && !s@.contains('=') && t@ == s@,
            },
    {
        Self::try_from(s.as_str())
    }

    /// A builder with no parts and no base.
    pub fn builder() -> (b: DistinguishedNameBuilder)
        ensures
            b.parts() == Seq::<Seq<char>>::empty(),
            b.base() == None::<Seq<char>>,
    {
        DistinguishedNameBuilder::new()
    }

    /// The text of the name.
    pub fn as_str(&self) -> (s: &str)
        ensures
            s@ == self@,
            dn_text_valid(self@),
    {
        proof {
            use_type_invariant(self);
        }
        self.0.as_str()
    }

    /// The DNS domain spelled by the `DC=` components, joined with `.`.
    pub fn dns_name(&self) -> (r: Option<String>)
        ensures
            match r {
                Some(s) => dns_domain(self@) == Some(s@),
                None => dns_domain(self@) == None::<Seq<char>>,
            },
    {
        let comps = components_of(self.as_str());
        let ghost cv = views(comps@);
        let n = comps.len();
        let mut labels: Vec<Vec<char>> = Vec::new();
        let mut i: usize = 0;
        let dc: Vec<char> = vec!['D', 'C', '='];
        assert(cv.take(0) =~= Seq::<Seq<char>>::empty());
        while i < n
            invariant
                n == comps@.len(),
                cv == views(comps@),
                dc@ == seq!['D', 'C', '='],
                i <= n,
                views(labels@) == dc_labels(cv.take(i as int)),
            decreases n - i,
        {
            let c = &comps[i];
            assert(cv[i as int] == c@);
            assert(cv.take(i + 1).drop_last() =~= cv.take(i as int));
            let ghost before = labels@;
            if c.len() >= 3 {
                let head = sub_chars(c.as_slice(), 0, 3);
                assert(head@ =~= c@.take(3));
                if eq_ignore_ascii_case_chars(head.as_slice(), dc.as_slice()) {
                    let label = sub_chars(c.as_slice(), 3, c.len());
                    assert(label@ =~= c@.skip(3));
                    labels.push(label);
                    assert(views(labels@) =~= views(before).push(label@));
                }
            }
            i = i + 1;
        }
        assert(cv.take(n as int) =~= cv);
        if labels.len() == 0 {
            None
        } else {
            let dot: Vec<char> = vec!['.'];
            assert(dot@ =~= seq!['.']);
            let joined = join_chars(&labels, dot.as_slice());
            Some(string_of(joined.as_slice()))
        }
    }

    /// A copy of the name.
    pub fn duplicate(&self) -> (r: DistinguishedName)
        ensures
            r@ == self@,
    {
        proof {
            use_type_invariant(self);
        }
        DistinguishedName(self.0.clone())
    }
}

impl std::ops::Deref for DistinguishedName {
    type Target = str;

    fn deref(&self) -> (s: &str)
        ensures
            s@ == self@,
    {
        self.0.as_str()
    }
}

impl AsRef<str> for DistinguishedName {
    fn as_ref(&self) -> (s: &str)
        ensures
            s@ == self@,
    {
        self.0.as_str()
    }
}

impl Default for DistinguishedNameBuilder {
    /// An empty builder.
    fn default() -> (b: Self)
        ensures
            b.parts() == Seq::<Seq<char>>::empty(),
            b.base() == None::<Seq<char>>,
    {
        DistinguishedNameBuilder::new()
    }
}

impl FromStr for DistinguishedName {
    type Err = DnError;

    fn from_str(s: &str) -> (r: Result<DistinguishedName, DnError>)
        ensures
            match r {
                Ok(dn) => dn_text_valid(s@) && dn@ == s@,
                Err(DnError::Empty) => s@.len() == 0,
                Err(DnError::MissingEquals(t)) => s@.len() > 0 && !s@.contains('=') && t@ == s@,
            },
    {
        DistinguishedName::try_from(s)
    }
}

impl Clone for DistinguishedName {
    fn clone(&self) -> (r: Self)
        ensures
            r@ == self@,
    {
        self.duplicate()
    }
}

/// Collects relative parts and an optional base, and joins them into a
/// distinguished name.
#[derive(Debug)]
pub struct DistinguishedNameBuilder {
    parts: Vec<String>,
    base: Option<String>,
}

/// The character sequences of a list of strings.
pub open spec fn string_views(v: Seq<String>) -> Seq<Seq<char>> {
    v.map_values(|x: String| x@)
}

/// The text that a builder with these parts and base assembles: the parts
/// joined with `,`, then the base after one more `,` (no `,` when there are
/// no characters before the base).
pub open spec fn assembled_text(parts: Seq<Seq<char>>, base: Option<Seq<char>>) -> Seq<char> {
    let joined = join(parts, seq![',']);
    match base {
        Some(b) => if joined.len() == 0 {
            b
        } else {
            joined + seq![','] + b
        },
        None => joined,
    }
}

impl DistinguishedNameBuilder {
    /// The parts added so far, in order.
    pub closed spec fn parts(&self) -> Seq<Seq<char>> {
        string_views(self.parts@)
    }

    /// The base set last, if any.
    pub closed spec fn base(&self) -> Option<Seq<char>> {
        match self.base {
            Some(b) => Some(b@),
            None => None,
        }
    }

    /// An empty builder.
    pub fn new() -> (b: Self)
        ensures
            b.parts() == Seq::<Seq<char>>::empty(),
            b.base() == None::<Seq<char>>,
    {
        let b = DistinguishedNameBuilder { parts: Vec::new(), base: None };
        assert(b.parts() =~= Seq::<Seq<char>>::empty());
        b
    }

    /// Adds the part `attr=value`.
    pub fn add(&mut self, attr: &str, value: &str) -> (r: &mut Self)
        ensures
            r.parts() == old(self).parts().push(attr@ + seq!['='] + value@),
            r.base() == old(self).base(),
            *final(self) == *final(r),
    {
        let mut part = String::new();
        part.append(attr);
        push_char(&mut part, '=');
        part.append(value);
        assert(part@ =~= attr@ + seq!['='] + value@);
        let ghost before = self.parts@;
        self.parts.push(part);
        assert(self.parts() =~= string_views(before).push(attr@ + seq!['='] + value@));
        self
    }

    /// Adds a part taken as it is.
    pub fn add_raw(&mut self, raw: &str) -> (r: &mut Self)
        ensures
            r.parts() == old(self).parts().push(raw@),
            r.base() == old(self).base(),
            *final(self) == *final(r),
    {
        let ghost before = self.parts@;
        self.parts.push(raw.to_owned());
        assert(self.parts() =~= string_views(before).push(raw@));
        self
    }

    /// Sets the base that follows all parts.
    pub fn append_base(&mut self, base: &DistinguishedName) -> (r: &mut Self)
        ensures
            r.parts() == old(self).parts(),
            r.base() == Some(base@),
            *final(self) == *final(r),
    {
        self.base = Some(base.as_str().to_owned());
        self
    }

    /// Joins the parts and the base and checks the result as a
    /// distinguished name.
    pub fn build(&self) -> (r: Result<DistinguishedName, DnError>)
        ensures
            ({
                let text = assembled_text(self.parts(), self.base());
                match r {
                    Ok(dn) => dn_text_valid(text) && dn@ == text,
                    Err(DnError::Empty) => text.len() == 0,
                    Err(DnError::MissingEquals(t)) => text.len() > 0 && !text.contains('=') && t@
                        == text,
                }
            }),
    {
        let n = self.parts.len();
        let mut parts: Vec<Vec<char>> = Vec::new();
        let mut i: usize = 0;
        while i < n
            invariant
                n == self.parts@.len(),
                i <= n,
                views(parts@) == self.parts().take(i as int),
            decreases n - i,
        {
            let ghost before = parts@;
            let piece = chars_of(self.parts[i].as_str());
            parts.push(piece);
            assert(views(parts@) =~= views(before).push(piece@));
            assert(self.parts().take(i + 1) =~= self.parts().take(i as int).push(self.parts()[i as int]));
            i = i + 1;
        }
        assert(self.parts().take(n as int) =~= self.parts());
        let sep: Vec<char> = vec![','];
        let mut text = join_chars(&parts, sep.as_slice());
        assert(sep@ =~= seq![',']);
        match &self.base {
            Some(b) => {
                if text.len() > 0 {
                    text.push(',');
                }
                let bc = chars_of(b.as_str());
                extend_chars(&mut text, bc.as_slice());
            },
            None => {},
        }
        proof {
            let joined = join(self.parts(), seq![',']);
            match self.base() {
                Some(b) => {
                    if joined.len() == 0 {
                        assert(text@ =~= b);
                    } else {
                        assert(text@ =~= joined + seq![','] + b);
                    }
                },
                None => {},
            }
        }
        let s = string_of(text.as_slice());
        DistinguishedName::try_from(s.as_str())
    }
}

/// A text with a `=` in it keeps one after more characters are put around it.
proof fn lemma_contains_equals(a: Seq<char>, b: Seq<char>, c: Seq<char>)
    requires
        b.contains('='),
    ensures
        (a + b + c).contains('='),
{
    let k = choose|k: int| 0 <= k < b.len() && b[k] == '=';
    assert((a + b + c)[a.len() + k] == '=');
}

/// The base under which a command works: the container in front of the
/// configured base, or the configured base itself.
pub fn resolve_target_base(
    container: Option<&DistinguishedName>,
    base: &DistinguishedName,
) -> (r: DistinguishedName)
    ensures
        r@ == match container {
            Some(c) => c@ + seq![','] + base@,
            None => base@,
        },
{
    match container {
        Some(c) => {
            let mut b = DistinguishedName::builder();
            b.add_raw(c.as_str()).append_base(base);
            let built = b.build();
            let ghost text = c@ + seq![','] + base@;
            proof {
                let parts = seq![c@];
                assert(b.parts() =~= parts);
                assert(join(parts, seq![',']) == c@);
                assert(assembled_text(b.parts(), b.base()) =~= text);
                lemma_contains_equals(Seq::<char>::empty(), c@, seq![','] + base@);
                assert(Seq::<char>::empty() + c@ + (seq![','] + base@) =~= text);
            }
            match built {
                Ok(dn) => dn,
                Err(_) => {
                    proof {
                        assert(false);
                    }
                    base.duplicate()
                },
            }
        },
        None => base.duplicate(),
    }
}

/// The name of the entry `attr=value` directly under `base`.
pub fn child_dn(attr: &str, value: &str, base: &DistinguishedName) -> (r: DistinguishedName)
    ensures
        r@ == attr@ + seq!['='] + value@ + seq![','] + base@,
{
    let mut b = DistinguishedName::builder();
    b.add(attr, value).append_base(base);
    let built = b.build();
    let ghost part = attr@ + seq!['='] + value@;
    let ghost text = part + seq![','] + base@;
    proof {
        let base_text = base@;
        let parts = seq![part];
        assert(b.parts() =~= parts);
        assert(join(parts, seq![',']) == part);
        assert(part[attr@.len() as int] == '=');
        assert(part.len() > 0);
        assert(assembled_text(b.parts(), b.base()) =~= text);
        assert(text[attr@.len() as int] == '=');
    }
    match built {
        Ok(dn) => dn,
        Err(_) => {
            proof {
                assert(false);
            }
            base.duplicate()
        },
    }
}

/// A label that can follow `DC=` as a whole component: no `,` in it and no
/// white space at its end.
pub open spec fn plain_label(l: Seq<char>) -> bool {
    !l.contains(',') && (l.len() == 0 || !is_space(l.last()))
}

/// The components of two texts joined by `,` are those of the first
/// followed by those of the second.
pub proof fn lemma_components_concat(a: Seq<char>, b: Seq<char>)
    ensures
        dn_components(a + seq![','] + b) == dn_components(a) + dn_components(b),
{
    lemma_split_concat(a, b, ',');
    assert(dn_components(a + seq![','] + b) =~= dn_components(a) + dn_components(b));
}

/// `DC=label` for a plain label is one domain component whose label is
/// `label`.
proof fn lemma_dc_component(l: Seq<char>)
    requires
        plain_label(l),
    ensures
        dn_components(seq!['D', 'C', '='] + l) == seq![seq!['D', 'C', '='] + l],
        is_dc_component(seq!['D', 'C', '='] + l),
        (seq!['D', 'C', '='] + l).skip(3) == l,
{
    let c = seq!['D', 'C', '='] + l;
    assert(!c.contains(',')) by {
        if c.contains(',') {
            let k = choose|k: int| 0 <= k < c.len() && c[k] == ',';
            if k >= 3 {
                assert(l[k - 3] == ',');
            }
        }
    }
    lemma_split_without_sep(c, ',');
    assert(c[0] == 'D');
    assert(!is_space(c[0]));
    assert(trim_start(c) == c);
    assert(c.last() == if l.len() == 0 { '=' } else { l.last() });
    assert(!is_space(c.last()));
    assert(trim_end(c) == c);
    assert(seq![c].map_values(|p: Seq<char>| trim(p)) =~= seq![c]);
    assert(c.take(3) =~= seq!['D', 'C', '=']);
    assert(c.skip(3) =~= l);
}

/// A name made of a single domain component `DC=label` spells the domain
/// `label`.
pub proof fn law_dns_domain_single(l: Seq<char>)
    requires
        plain_label(l),
    ensures
        dns_domain(seq!['D', 'C', '='] + l) == Some(l),
{
    lemma_dc_component(l);
    let c = seq!['D', 'C', '='] + l;
    assert(seq![c].drop_last() =~= Seq::<Seq<char>>::empty());
    assert(seq![c].last() == c);
    assert(dc_labels(Seq::<Seq<char>>::empty()) == Seq::<Seq<char>>::empty());
    assert(dc_labels(seq![c]) == dc_labels(seq![c].drop_last()).push(c.skip(3)));
    assert(dc_labels(seq![c]) =~= seq![l]);
    assert(join(seq![l], seq!['.']) == l);
}

/// Appending the domain component `DC=label` to a name appends `label` to
/// its domain, after a `.` when the name already spells one: every `DC=`
/// label counts, in order.
pub proof fn law_dns_domain_append(prefix: Seq<char>, l: Seq<char>)
    requires
        plain_label(l),
    ensures
        dns_domain(prefix + seq![','] + (seq!['D', 'C', '='] + l)) == match dns_domain(prefix) {
            Some(d) => Some(d + seq!['.'] + l),
            None => Some(l),
        },
{
    let c = seq!['D', 'C', '='] + l;
    lemma_dc_component(l);
    lemma_components_concat(prefix, c);
    let comps = dn_components(prefix);
    let all = comps + seq![c];
    assert(dn_components(prefix + seq![','] + c) == all);
    assert(all.drop_last() =~= comps);
    assert(all.last() == c);
    let prev = dc_labels(comps);
    assert(dc_labels(all) == prev.push(l));
    lemma_join_push(prev, seq!['.'], l);
}

/// The domain of a name has one label for each of its domain components:
/// appending a domain component always adds a label.
pub proof fn law_dns_domain_counts_components(comps: Seq<Seq<char>>, l: Seq<char>)
    requires
        plain_label(l),
    ensures
        dc_labels(comps.push(seq!['D', 'C', '='] + l)).len() == dc_labels(comps).len() + 1,
        dc_labels(comps.push(seq!['D', 'C', '='] + l)).last() == l,
{
    lemma_dc_component(l);
    assert(comps.push(seq!['D', 'C', '='] + l).drop_last() =~= comps);
}

/// The text `DC=l1,DC=l2,...,DC=lk` of a list of domain labels.
pub open spec fn dc_text(labels: Seq<Seq<char>>) -> Seq<char>
    decreases labels.len(),
{
    if labels.len() == 0 {
        Seq::<char>::empty()
    } else if labels.len() == 1 {
        seq!['D', 'C', '='] + labels[0]
    } else {
        dc_text(labels.drop_last()) + seq![','] + (seq!['D', 'C', '='] + labels.last())
    }
}

/// A name that ends in the domain components `DC=l1,...,DC=lk`, after
/// components that spell no domain, has the domain `l1.l2. ... .lk`: every
/// label, in order, joined by `.`.
pub proof fn law_dns_domain_joins_labels(prefix: Seq<char>, labels: Seq<Seq<char>>)
    requires
        labels.len() > 0,
        forall|i: int| 0 <= i < labels.len() ==> plain_label(#[trigger] labels[i]),
        dns_domain(prefix) is None,
    ensures
        dns_domain(prefix + seq![','] + dc_text(labels)) == Some(join(labels, seq!['.'])),
    decreases labels.len(),
{
    if labels.len() == 1 {
        law_dns_domain_append(prefix, labels[0]);
    } else {
        let rest = labels.drop_last();
        let l = labels.last();
        assert(plain_label(labels[labels.len() - 1]));
        law_dns_domain_joins_labels(prefix, rest);
        let a = prefix + seq![','] + dc_text(rest);
        law_dns_domain_append(a, l);
        assert(prefix + seq![','] + dc_text(labels) =~= a + seq![','] + (seq!['D', 'C', '='] + l));
        assert(labels =~= rest.push(l));
        lemma_join_push(rest, seq!['.'], l);
    }
}

} // verus!
