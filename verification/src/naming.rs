//! Usernames rendered from a template with placeholders.
//!
//! A template such as `{first_name}.{last_name}{counter}` is filled from a
//! person's names and a counter. Names are first normalized (the accented
//! Latin letters of Latin-1 become their ASCII base letters), then cased as
//! each placeholder asks.

use vstd::prelude::*;

use crate::text::{
    has_infix, lemma_replace_absent, lemma_replace_keeps_prefix, lemma_replace_no_infix,
    lemma_replace_short,
    chars_of, first_or_space, replace_all, replace_chars, string_of, to_lowercase,
    to_uppercase, unicode_lowercase, unicode_uppercase, zero_pad, zero_padded, decimal,
};

verus! {

/// The template used when none is given.
pub open spec fn default_template() -> Seq<char> {
    "{first_name}.{last_name}"@
}

/// One character after normalization. The accented Latin letters of
/// Latin-1 become their ASCII base letter, keeping their case:
/// `À Á Â Ã Ä Å` → `A`, `Ç` → `C`, `È É Ê Ë` → `E`, `Ì Í Î Ï` → `I`,
/// `Ñ` → `N`, `Ò Ó Ô Õ Ö` → `O`, `Ù Ú Û Ü` → `U`, `Ý` → `Y`, and the
/// lower-case forms `à`…`å`, `ç`, `è`…`ë`, `ì`…`ï`, `ñ`, `ò`…`ö`, `ù`…`ü`,
/// `ý`, `ÿ` likewise. Every other character stays.
pub open spec fn normalize_char(c: char) -> char {
    if '\u{c0}' <= c && c <= '\u{c5}' {
        'A'
    } else if c == '\u{c7}' {
        'C'
    } else if '\u{c8}' <= c && c <= '\u{cb}' {
        'E'
    } else if '\u{cc}' <= c && c <= '\u{cf}' {
        'I'
    } else if c == '\u{d1}' {
        'N'
    } else if '\u{d2}' <= c && c <= '\u{d6}' {
        'O'
    } else if '\u{d9}' <= c && c <= '\u{dc}' {
        'U'
    } else if c == '\u{dd}' {
        'Y'
    } else if '\u{e0}' <= c && c <= '\u{e5}' {
        'a'
    } else if c == '\u{e7}' {
        'c'
    } else if '\u{e8}' <= c && c <= '\u{eb}' {
        'e'
    } else if '\u{ec}' <= c && c <= '\u{ef}' {
        'i'
    } else if c == '\u{f1}' {
        'n'
    } else if '\u{f2}' <= c && c <= '\u{f6}' {
        'o'
    } else if '\u{f9}' <= c && c <= '\u{fc}' {
        'u'
    } else if c == '\u{fd}' || c == '\u{ff}' {
        'y'
    } else {
        c
    }
}

/// The character is one of the accented letters that normalization maps.
pub open spec fn is_accented_letter(c: char) -> bool {
    normalize_char(c) != c
}

/// A name after normalization, character by character.
pub open spec fn normalize_name(s: Seq<char>) -> Seq<char> {
    s.map_values(|c: char| normalize_char(c))
}

/// The username that `template` gives from the cased names and the
/// counter: every placeholder is replaced, in this order, by
/// `{first_name}` / `{FIRST_NAME}`: the first name in lower / upper case;
/// `{last_name}` / `{LAST_NAME}`: the same for the last name;
/// `{first_name_initial}` / `{FIRST_NAME_INITIAL}` and the `LAST` pair: the first
/// character of the cased name, or a space when it is empty;
/// `{counter}`: the counter in decimal, zero-padded to three digits.
pub open spec fn rendered_from_cased(
    template: Seq<char>,
    first_lower: Seq<char>,
    first_upper: Seq<char>,
    last_lower: Seq<char>,
    last_upper: Seq<char>,
    counter: u32,
) -> Seq<char> {
    let s1 = replace_all(template, "{first_name}"@, first_lower);
    let s2 = replace_all(s1, "{FIRST_NAME}"@, first_upper);
    let s3 = replace_all(s2, "{last_name}"@, last_lower);
    let s4 = replace_all(s3, "{LAST_NAME}"@, last_upper);
    let s5 = replace_all(s4, "{first_name_initial}"@, first_or_space(first_lower));
    let s6 = replace_all(s5, "{FIRST_NAME_INITIAL}"@, first_or_space(first_upper));
    let s7 = replace_all(s6, "{last_name_initial}"@, first_or_space(last_lower));
    let s8 = replace_all(s7, "{LAST_NAME_INITIAL}"@, first_or_space(last_upper));
    replace_all(s8, "{counter}"@, zero_pad(decimal(counter as nat), 3))
}

/// The username that `template` gives for the names and the counter: the
/// names are normalized, then cased by Unicode case mapping, then rendered.
pub open spec fn rendered_name(
    template: Seq<char>,
    first: Seq<char>,
    last: Seq<char>,
    counter: u32,
) -> Seq<char> {
    rendered_from_cased(
        template,
        unicode_lowercase(normalize_name(first)),
        unicode_uppercase(normalize_name(first)),
        unicode_lowercase(normalize_name(last)),
        unicode_uppercase(normalize_name(last)),
        counter,
    )
}

/// The nine placeholders, in the order they are filled.
pub open spec fn placeholders() -> Seq<Seq<char>> {
    seq![
        "{first_name}"@,
        "{FIRST_NAME}"@,
        "{last_name}"@,
        "{LAST_NAME}"@,
        "{first_name_initial}"@,
        "{FIRST_NAME_INITIAL}"@,
        "{last_name_initial}"@,
        "{LAST_NAME_INITIAL}"@,
        "{counter}"@,
    ]
}

/// A template in which no placeholder occurs renders unchanged, whatever
/// the names and the counter.
pub proof fn law_plain_template_is_kept(
    template: Seq<char>,
    first_lower: Seq<char>,
    first_upper: Seq<char>,
    last_lower: Seq<char>,
    last_upper: Seq<char>,
    counter: u32,
)
    requires
        forall|i: int| 0 <= i < placeholders().len() ==> !has_infix(template, #[trigger] placeholders()[i]),
    ensures
        rendered_from_cased(template, first_lower, first_upper, last_lower, last_upper, counter)
            == template,
{
    reveal_strlit("{first_name}");
    reveal_strlit("{FIRST_NAME}");
    reveal_strlit("{last_name}");
    reveal_strlit("{LAST_NAME}");
    reveal_strlit("{first_name_initial}");
    reveal_strlit("{FIRST_NAME_INITIAL}");
    reveal_strlit("{last_name_initial}");
    reveal_strlit("{LAST_NAME_INITIAL}");
    reveal_strlit("{counter}");
    let ps = placeholders();
    assert(!has_infix(template, ps[0]));
    assert(!has_infix(template, ps[1]));
    assert(!has_infix(template, ps[2]));
    assert(!has_infix(template, ps[3]));
    assert(!has_infix(template, ps[4]));
    assert(!has_infix(template, ps[5]));
    assert(!has_infix(template, ps[6]));
    assert(!has_infix(template, ps[7]));
    assert(!has_infix(template, ps[8]));
    lemma_replace_no_infix(template, "{first_name}"@, first_lower);
    lemma_replace_no_infix(template, "{FIRST_NAME}"@, first_upper);
    lemma_replace_no_infix(template, "{last_name}"@, last_lower);
    lemma_replace_no_infix(template, "{LAST_NAME}"@, last_upper);
    lemma_replace_no_infix(template, "{first_name_initial}"@, first_or_space(first_lower));
    lemma_replace_no_infix(template, "{FIRST_NAME_INITIAL}"@, first_or_space(first_upper));
    lemma_replace_no_infix(template, "{last_name_initial}"@, first_or_space(last_lower));
    lemma_replace_no_infix(template, "{LAST_NAME_INITIAL}"@, first_or_space(last_upper));
    lemma_replace_no_infix(template, "{counter}"@, zero_pad(decimal(counter as nat), 3));
}

/// With the default template a username is the normalized first name and
/// the normalized last name in lower case, joined by a dot (for names whose
/// lower-case forms hold no `{`).
pub proof fn law_default_template(first: Seq<char>, last: Seq<char>, counter: u32)
    requires
        !unicode_lowercase(normalize_name(first)).contains('{'),
        !unicode_lowercase(normalize_name(last)).contains('{'),
    ensures
        rendered_name(default_template(), first, last, counter) == unicode_lowercase(
            normalize_name(first),
        ) + "."@ + unicode_lowercase(normalize_name(last)),
{
    reveal_strlit("{first_name}.{last_name}");
    reveal_strlit("{first_name}");
    reveal_strlit("{FIRST_NAME}");
    reveal_strlit("{last_name}");
    reveal_strlit("{LAST_NAME}");
    reveal_strlit("{first_name_initial}");
    reveal_strlit("{FIRST_NAME_INITIAL}");
    reveal_strlit("{last_name_initial}");
    reveal_strlit("{LAST_NAME_INITIAL}");
    reveal_strlit("{counter}");
    reveal_strlit(".");
    let fl = unicode_lowercase(normalize_name(first));
    let fu = unicode_uppercase(normalize_name(first));
    let ll = unicode_lowercase(normalize_name(last));
    let lu = unicode_uppercase(normalize_name(last));
    let t = default_template();
    let dot = "."@;
    let tail = "{last_name}"@;
    let rest = dot + tail;
    assert(!dot.contains('{')) by {
        assert(dot[0] == '.');
    }
    // {first_name}
    let p1 = "{first_name}"@;
    assert(t =~= p1 + rest);
    assert(t.take(p1.len() as int) =~= p1);
    assert(t.skip(p1.len() as int) =~= rest);
    lemma_replace_keeps_prefix(dot, tail, p1, fl);
    lemma_replace_short(tail, p1, fl);
    let s1 = fl + rest;
    assert(replace_all(t, p1, fl) == s1);
    // {FIRST_NAME}
    let p2 = "{FIRST_NAME}"@;
    lemma_replace_keeps_prefix(fl, rest, p2, fu);
    lemma_replace_keeps_prefix(dot, tail, p2, fu);
    lemma_replace_short(tail, p2, fu);
    assert(replace_all(s1, p2, fu) == s1);
    // {last_name}
    let p3 = "{last_name}"@;
    assert(s1 =~= (fl + dot) + tail);
    assert(!(fl + dot).contains('{')) by {
        if (fl + dot).contains('{') {
            let k = choose|k: int| 0 <= k < (fl + dot).len() && (fl + dot)[k] == '{';
            if k < fl.len() {
                assert(fl[k] == '{');
            } else {
                assert(dot[k - fl.len()] == '{');
            }
        }
    }
    lemma_replace_keeps_prefix(fl + dot, tail, p3, ll);
    assert(tail.take(p3.len() as int) =~= p3);
    assert(tail.skip(p3.len() as int) =~= Seq::<char>::empty());
    let s3 = fl + dot + ll;
    assert(tail.len() == 11);
    assert(replace_all(Seq::<char>::empty(), p3, ll) == Seq::<char>::empty());
    assert(replace_all(tail, p3, ll) == ll + replace_all(tail.skip(p3.len() as int), p3, ll));
    assert(replace_all(tail, p3, ll) =~= ll);
    assert(replace_all(s1, p3, ll) =~= s3);
    assert(!s3.contains('{')) by {
        if s3.contains('{') {
            let k = choose|k: int| 0 <= k < s3.len() && s3[k] == '{';
            if k < fl.len() {
                assert(fl[k] == '{');
            } else if k < fl.len() + 1 {
                assert(dot[k - fl.len()] == '{');
            } else {
                assert(ll[k - fl.len() - 1] == '{');
            }
        }
    }
    lemma_replace_absent(s3, "{LAST_NAME}"@, lu);
    lemma_replace_absent(s3, "{first_name_initial}"@, first_or_space(fl));
    lemma_replace_absent(s3, "{FIRST_NAME_INITIAL}"@, first_or_space(fu));
    lemma_replace_absent(s3, "{last_name_initial}"@, first_or_space(ll));
    lemma_replace_absent(s3, "{LAST_NAME_INITIAL}"@, first_or_space(lu));
    lemma_replace_absent(s3, "{counter}"@, zero_pad(decimal(counter as nat), 3));
}

/// Normalization keeps the length of a name, leaves no accented letter
/// behind and is idempotent.
pub proof fn law_normalize_idempotent(s: Seq<char>)
    ensures
        normalize_name(s).len() == s.len(),
        forall|i: int| 0 <= i < s.len() ==> !is_accented_letter(#[trigger] normalize_name(s)[i]),
        normalize_name(normalize_name(s)) == normalize_name(s),
{
    assert(normalize_name(normalize_name(s)) =~= normalize_name(s));
}

/// One character after normalization.
pub fn normalize_one(c: char) -> (r: char)
    ensures
        r == normalize_char(c),
{
    if '\u{c0}' <= c && c <= '\u{c5}' {
        'A'
    } else if c == '\u{c7}' {
        'C'
    } else if '\u{c8}' <= c && c <= '\u{cb}' {
        'E'
    } else if '\u{cc}' <= c && c <= '\u{cf}' {
        'I'
    } else if c == '\u{d1}' {
        'N'
    } else if '\u{d2}' <= c && c <= '\u{d6}' {
        'O'
    } else if '\u{d9}' <= c && c <= '\u{dc}' {
        'U'
    } else if c == '\u{dd}' {
        'Y'
    } else if '\u{e0}' <= c && c <= '\u{e5}' {
        'a'
    } else if c == '\u{e7}' {
        'c'
    } else if '\u{e8}' <= c && c <= '\u{eb}' {
        'e'
    } else if '\u{ec}' <= c && c <= '\u{ef}' {
        'i'
    } else if c == '\u{f1}' {
        'n'
    } else if '\u{f2}' <= c && c <= '\u{f6}' {
        'o'
    } else if '\u{f9}' <= c && c <= '\u{fc}' {
        'u'
    } else if c == '\u{fd}' || c == '\u{ff}' {
        'y'
    } else {
        c
    }
}

/// Renders usernames from a template.
#[derive(Debug)]
pub struct NamingFormatter {
    template: String,
}

impl View for NamingFormatter {
    type V = Seq<char>;

    closed spec fn view(&self) -> Seq<char> {
        self.template@
    }
}

/// The first character of `s` as a string, or a single space.
fn initial_of(s: &str) -> (r: Vec<char>)
    ensures
        r@ == first_or_space(s@),
{
    let v = chars_of(s);
    let mut r: Vec<char> = Vec::new();
    if v.len() > 0 {
        r.push(v[0]);
    } else {
        r.push(' ');
    }
    assert(r@ =~= first_or_space(s@));
    r
}

/// Replaces every occurrence of the placeholder `p` in `s` by `v`.
fn fill(s: Vec<char>, p: &str, v: &[char]) -> (r: Vec<char>)
    requires
        p@.len() > 0,
    ensures
        r@ == replace_all(s@, p@, v@),
{
    let pc = chars_of(p);
    replace_chars(s.as_slice(), pc.as_slice(), v)
}

impl NamingFormatter {
    /// A formatter for the given template, or for `{first_name}.{last_name}`.
    pub fn new(template: Option<String>) -> (f: Self)
        ensures
            f@ == match template {
                Some(t) => t@,
                None => default_template(),
            },
    {
        let template = match template {
            Some(t) => t,
            None => "{first_name}.{last_name}".to_owned(),
        };
        NamingFormatter { template }
    }

    /// Turns the accented Latin letters of Latin-1 into their ASCII base
    /// letters, keeping their case (see `normalize_char`).
    pub fn normalize(s: &str) -> (r: String)
        ensures
            r@ == normalize_name(s@),
    {
        let v = chars_of(s);
        let n = v.len();
        let mut out: Vec<char> = Vec::new();
        let mut i: usize = 0;
        while i < n
            invariant
                n == v@.len(),
                v@ == s@,
                i <= n,
                out@ == normalize_name(s@).take(i as int),
            decreases n - i,
        {
            let c = v[i];
            let m = normalize_one(c);
            out.push(m);
            assert(out@ =~= normalize_name(s@).take(i + 1));
            i = i + 1;
        }
        assert(normalize_name(s@).take(n as int) =~= normalize_name(s@));
        string_of(out.as_slice())
    }

    /// The username for a person and a counter.
    pub fn generate(&self, first_name: &str, last_name: &str, counter: u32) -> (r: String)
        ensures
            r@ == rendered_name(self@, first_name@, last_name@, counter),
    {
        let norm_first = Self::normalize(first_name);
        let norm_last = Self::normalize(last_name);

        let first_name_lower = to_lowercase(norm_first.as_str());
        let first_name_upper = to_uppercase(norm_first.as_str());
        let last_name_lower = to_lowercase(norm_last.as_str());
        let last_name_upper = to_uppercase(norm_last.as_str());

        self.render(
            first_name_lower.as_str(),
            first_name_upper.as_str(),
            last_name_lower.as_str(),
            last_name_upper.as_str(),
            counter,
        )
    }

    /// The username for names that are already normalized and cased.
    pub fn render(
        &self,
        first_name_lower: &str,
        first_name_upper: &str,
        last_name_lower: &str,
        last_name_upper: &str,
        counter: u32,
    ) -> (r: String)
        ensures
            r@ == rendered_from_cased(
                self@,
                first_name_lower@,
                first_name_upper@,
                last_name_lower@,
                last_name_upper@,
                counter,
            ),
    {
        let first_initial_lower = initial_of(first_name_lower);
        let first_initial_upper = initial_of(first_name_upper);
        let last_initial_lower = initial_of(last_name_lower);
        let last_initial_upper = initial_of(last_name_upper);

        let counter_str = zero_padded(counter, 3);

        proof {
            reveal_strlit("{first_name}");
            reveal_strlit("{FIRST_NAME}");
            reveal_strlit("{last_name}");
            reveal_strlit("{LAST_NAME}");
            reveal_strlit("{first_name_initial}");
            reveal_strlit("{FIRST_NAME_INITIAL}");
            reveal_strlit("{last_name_initial}");
            reveal_strlit("{LAST_NAME_INITIAL}");
            reveal_strlit("{counter}");
        }

        let result = chars_of(self.template.as_str());
        let fl = chars_of(first_name_lower);
        let fu = chars_of(first_name_upper);
        let ll = chars_of(last_name_lower);
        let lu = chars_of(last_name_upper);
        let result = fill(result, "{first_name}", fl.as_slice());
        let result = fill(result, "{FIRST_NAME}", fu.as_slice());
        let result = fill(result, "{last_name}", ll.as_slice());
        let result = fill(result, "{LAST_NAME}", lu.as_slice());
        let result = fill(result, "{first_name_initial}", first_initial_lower.as_slice());
        let result = fill(result, "{FIRST_NAME_INITIAL}", first_initial_upper.as_slice());
        let result = fill(result, "{last_name_initial}", last_initial_lower.as_slice());
        let result = fill(result, "{LAST_NAME_INITIAL}", last_initial_upper.as_slice());
        let result = fill(result, "{counter}", counter_str.as_slice());
        string_of(result.as_slice())
    }
}

} // verus!
