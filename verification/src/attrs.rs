//! Attribute lists for new directory entries.
//!
//! An entry is described by attribute names, each with its values, kept in
//! ascending order of name as an ordered map keeps them. Setting an attribute
//! that is already present replaces its values; a new name is put in its
//! place in the order. Names therefore never repeat.

use vstd::prelude::*;

use crate::dn::string_views;
use crate::text::chars_of;

verus! {

/// An attribute's model: its name and its values.
pub type AttrModel = (Seq<char>, Seq<Seq<char>>);

/// The model of an attribute list.
pub open spec fn attr_views(v: Seq<(String, Vec<String>)>) -> Seq<AttrModel> {
    v.map_values(|e: (String, Vec<String>)| (e.0@, string_views(e.1@)))
}

/// The order of names: character by character by code point, a proper
/// prefix first. This is the order of `String`'s `Ord`, since UTF-8 keeps
/// the order of code points.
pub open spec fn name_less(a: Seq<char>, b: Seq<char>) -> bool
    decreases a.len(),
{
    if a.len() == 0 {
        b.len() > 0
    } else if b.len() == 0 {
        false
    } else if a[0] != b[0] {
        a[0] < b[0]
    } else {
        name_less(a.drop_first(), b.drop_first())
    }
}

/// The names are in strictly ascending order.
pub open spec fn names_sorted(s: Seq<AttrModel>) -> bool {
    forall|i: int, j: int| 0 <= i < j < s.len() ==> name_less(#[trigger] s[i].0, #[trigger] s[j].0)
}

/// No attribute name occurs twice.
pub open spec fn names_distinct(s: Seq<AttrModel>) -> bool {
    forall|i: int, j: int| 0 <= i < s.len() && 0 <= j < s.len() && i != j ==> s[i].0 != s[j].0
}

/// The attribute `name` is present.
pub open spec fn has_attr(s: Seq<AttrModel>, name: Seq<char>) -> bool {
    exists|i: int| 0 <= i < s.len() && s[i].0 == name
}

/// The position of the attribute `name` (meaningful when it is present).
pub open spec fn attr_position(s: Seq<AttrModel>, name: Seq<char>) -> int {
    choose|i: int| 0 <= i < s.len() && s[i].0 == name
}

/// How many attributes have a name before `name` in the order.
pub open spec fn count_before(s: Seq<AttrModel>, name: Seq<char>) -> nat
    decreases s.len(),
{
    if s.len() == 0 {
        0
    } else {
        count_before(s.drop_last(), name) + if name_less(s.last().0, name) {
            1nat
        } else {
            0nat
        }
    }
}

/// The list after setting `name` to `values`: the values are replaced where
/// the name is present, else the attribute is inserted after the names that
/// come before it.
pub open spec fn with_attr(s: Seq<AttrModel>, name: Seq<char>, values: Seq<Seq<char>>) -> Seq<
    AttrModel,
> {
    if has_attr(s, name) {
        s.update(attr_position(s, name), (name, values))
    } else {
        s.insert(count_before(s, name) as int, (name, values))
    }
}

/// The list obtained by setting the attributes in order, starting from an
/// empty list.
pub open spec fn attrs_from(settings: Seq<AttrModel>) -> Seq<AttrModel>
    decreases settings.len(),
{
    if settings.len() == 0 {
        Seq::<AttrModel>::empty()
    } else {
        let prev = attrs_from(settings.drop_last());
        with_attr(prev, settings.last().0, settings.last().1)
    }
}

/// The values that the list gives to `name`, as a lookup would find them.
pub open spec fn attr_values(s: Seq<AttrModel>, name: Seq<char>) -> Option<Seq<Seq<char>>> {
    if has_attr(s, name) {
        Some(s[attr_position(s, name)].1)
    } else {
        None
    }
}

/// The value a lookup finds after a sequence of settings: the one set last.
pub open spec fn last_setting(settings: Seq<AttrModel>, name: Seq<char>) -> Option<
    Seq<Seq<char>>,
>
    decreases settings.len(),
{
    if settings.len() == 0 {
        None
    } else if settings.last().0 == name {
        Some(settings.last().1)
    } else {
        last_setting(settings.drop_last(), name)
    }
}

// ---------------------------------------------------------------------------
// The order of names
// ---------------------------------------------------------------------------

/// No name comes before itself.
pub proof fn lemma_name_less_irreflexive(a: Seq<char>)
    ensures
        !name_less(a, a),
    decreases a.len(),
{
    if a.len() > 0 {
        lemma_name_less_irreflexive(a.drop_first());
    }
}

/// Of two different names, one comes before the other, and not both.
pub proof fn lemma_name_less_total(a: Seq<char>, b: Seq<char>)
    ensures
        a != b ==> (name_less(a, b) || name_less(b, a)),
        !(name_less(a, b) && name_less(b, a)),
    decreases a.len(),
{
    if a.len() > 0 && b.len() > 0 && a[0] == b[0] {
        lemma_name_less_total(a.drop_first(), b.drop_first());
        if a != b {
            assert(a.drop_first() != b.drop_first()) by {
                if a.drop_first() == b.drop_first() {
                    assert(a =~= seq![a[0]] + a.drop_first());
                    assert(b =~= seq![b[0]] + b.drop_first());
                }
            }
        }
    } else if a.len() == 0 && b.len() == 0 {
        assert(a =~= b);
    }
}

/// The order is transitive.
pub proof fn lemma_name_less_transitive(a: Seq<char>, b: Seq<char>, c: Seq<char>)
    requires
        name_less(a, b),
        name_less(b, c),
    ensures
        name_less(a, c),
    decreases a.len(),
{
    if a.len() > 0 && b.len() > 0 && c.len() > 0 && a[0] == b[0] && b[0] == c[0] {
        lemma_name_less_transitive(a.drop_first(), b.drop_first(), c.drop_first());
    }
}

/// Strictly ascending names are distinct.
pub proof fn lemma_sorted_distinct(s: Seq<AttrModel>)
    requires
        names_sorted(s),
    ensures
        names_distinct(s),
{
    assert forall|i: int, j: int|
        0 <= i < s.len() && 0 <= j < s.len() && i != j implies s[i].0 != s[j].0 by {
        if i < j {
            assert(name_less(s[i].0, s[j].0));
        } else {
            assert(name_less(s[j].0, s[i].0));
        }
        lemma_name_less_irreflexive(s[i].0);
    }
}

/// In a sorted list without `name`, the attributes before position
/// `count_before` come before `name` and the others after it.
pub proof fn lemma_count_before_splits(s: Seq<AttrModel>, name: Seq<char>)
    requires
        names_sorted(s),
        !has_attr(s, name),
    ensures
        count_before(s, name) <= s.len(),
        forall|i: int| 0 <= i < count_before(s, name) ==> name_less(#[trigger] s[i].0, name),
        forall|i: int| count_before(s, name) <= i < s.len() ==> name_less(name, #[trigger] s[i].0),
    decreases s.len(),
{
    if s.len() > 0 {
        let t = s.drop_last();
        assert(names_sorted(t)) by {
            assert forall|i: int, j: int| 0 <= i < j < t.len() implies name_less(
                #[trigger] t[i].0,
                #[trigger] t[j].0,
            ) by {
                assert(t[i] == s[i] && t[j] == s[j]);
            }
        }
        assert(!has_attr(t, name)) by {
            if has_attr(t, name) {
                let k = choose|k: int| 0 <= k < t.len() && t[k].0 == name;
                assert(s[k] == t[k]);
            }
        }
        lemma_count_before_splits(t, name);
        let last = s.last();
        assert(last.0 != name) by {
            assert(s[s.len() - 1].0 == last.0);
        }
        lemma_name_less_total(last.0, name);
        let p = count_before(t, name);
        if name_less(last.0, name) {
            assert(count_before(s, name) == p + 1);
            assert forall|i: int| 0 <= i < p + 1 implies name_less(#[trigger] s[i].0, name) by {
                if i < t.len() {
                    assert(s[i] == t[i]);
                    if i >= p {
                        // then name < s[i] < last < name: impossible
                        assert(name_less(name, t[i].0));
                        assert(name_less(s[i].0, s[s.len() - 1].0));
                        lemma_name_less_transitive(name, s[i].0, last.0);
                        lemma_name_less_total(name, last.0);
                    }
                }
            }
            assert(p + 1 == s.len()) by {
                if p < t.len() {
                    assert(name_less(name, t[p as int].0));
                    assert(s[p as int] == t[p as int]);
                    assert(name_less(s[p as int].0, s[s.len() - 1].0));
                    lemma_name_less_transitive(name, s[p as int].0, last.0);
                    lemma_name_less_total(name, last.0);
                }
            }
        } else {
            assert(count_before(s, name) == p);
            assert forall|i: int| 0 <= i < p implies name_less(#[trigger] s[i].0, name) by {
                assert(s[i] == t[i]);
            }
            assert forall|i: int| p <= i < s.len() implies name_less(name, #[trigger] s[i].0) by {
                if i < t.len() {
                    assert(s[i] == t[i]);
                }
            }
        }
    }
}

/// Setting an attribute keeps the names sorted.
pub proof fn lemma_with_attr_sorted(s: Seq<AttrModel>, name: Seq<char>, values: Seq<Seq<char>>)
    requires
        names_sorted(s),
    ensures
        names_sorted(with_attr(s, name, values)),
{
    let t = with_attr(s, name, values);
    if has_attr(s, name) {
        let k = attr_position(s, name);
        assert forall|i: int, j: int| 0 <= i < j < t.len() implies name_less(
            #[trigger] t[i].0,
            #[trigger] t[j].0,
        ) by {
            assert(t[i].0 == s[i].0);
            assert(t[j].0 == s[j].0);
        }
    } else {
        lemma_count_before_splits(s, name);
        let p = count_before(s, name) as int;
        assert forall|i: int, j: int| 0 <= i < j < t.len() implies name_less(
            #[trigger] t[i].0,
            #[trigger] t[j].0,
        ) by {
            if j < p {
                assert(t[i] == s[i] && t[j] == s[j]);
            } else if j == p {
                assert(t[i] == s[i]);
            } else if i < p {
                assert(t[i] == s[i] && t[j] == s[j - 1]);
            } else if i == p {
                assert(t[j] == s[j - 1]);
            } else {
                assert(t[i] == s[i - 1] && t[j] == s[j - 1]);
            }
        }
    }
}

/// Every list built by settings is sorted by name, so its names are
/// distinct.
pub proof fn law_attrs_sorted(settings: Seq<AttrModel>)
    ensures
        names_sorted(attrs_from(settings)),
        names_distinct(attrs_from(settings)),
    decreases settings.len(),
{
    if settings.len() > 0 {
        law_attrs_sorted(settings.drop_last());
        lemma_with_attr_sorted(
            attrs_from(settings.drop_last()),
            settings.last().0,
            settings.last().1,
        );
    }
    lemma_sorted_distinct(attrs_from(settings));
}

/// In a list with distinct names, a lookup finds the values at the one
/// position that holds the name.
proof fn lemma_values_at(s: Seq<AttrModel>, name: Seq<char>, i: int)
    requires
        names_distinct(s),
        0 <= i < s.len(),
        s[i].0 == name,
    ensures
        attr_values(s, name) == Some(s[i].1),
{
    let q = attr_position(s, name);
    assert(q == i);
}

/// A lookup in a list built by settings finds the values set last for that
/// name: a later setting overrides an earlier one, as an insertion into a
/// map does.
pub proof fn law_last_setting_wins(settings: Seq<AttrModel>, name: Seq<char>)
    ensures
        attr_values(attrs_from(settings), name) == last_setting(settings, name),
    decreases settings.len(),
{
    if settings.len() > 0 {
        let init = settings.drop_last();
        law_last_setting_wins(init, name);
        law_attrs_sorted(init);
        law_attrs_sorted(settings);
        let prev = attrs_from(init);
        let (k, v) = settings.last();
        let t = with_attr(prev, k, v);
        assert(t == attrs_from(settings));
        if has_attr(prev, k) {
            let p = attr_position(prev, k);
            if k == name {
                lemma_values_at(t, name, p);
            } else if has_attr(prev, name) {
                let q = attr_position(prev, name);
                lemma_values_at(prev, name, q);
                lemma_values_at(t, name, q);
            } else {
                assert(!has_attr(t, name)) by {
                    if has_attr(t, name) {
                        let q2 = choose|q2: int| 0 <= q2 < t.len() && t[q2].0 == name;
                        assert(t[q2].0 == prev[q2].0);
                    }
                }
            }
        } else {
            let p = count_before(prev, k) as int;
            lemma_count_before_splits(prev, k);
            if k == name {
                lemma_values_at(t, name, p);
            } else if has_attr(prev, name) {
                let q = attr_position(prev, name);
                lemma_values_at(prev, name, q);
                if q < p {
                    lemma_values_at(t, name, q);
                } else {
                    assert(t[q + 1] == prev[q]);
                    lemma_values_at(t, name, q + 1);
                }
            } else {
                assert(!has_attr(t, name)) by {
                    if has_attr(t, name) {
                        let q2 = choose|q2: int| 0 <= q2 < t.len() && t[q2].0 == name;
                        if q2 < p {
                            assert(t[q2] == prev[q2]);
                        } else if q2 > p {
                            assert(t[q2] == prev[q2 - 1]);
                        }
                    }
                }
            }
        }
    }
}

// ---------------------------------------------------------------------------
// Executable operations
// ---------------------------------------------------------------------------

proof fn lemma_name_less_step(a: Seq<char>, b: Seq<char>, i: int)
    requires
        0 <= i < a.len(),
        i < b.len(),
        a[i] == b[i],
    ensures
        name_less(a.skip(i), b.skip(i)) == name_less(a.skip(i + 1), b.skip(i + 1)),
{
    assert(a.skip(i).drop_first() =~= a.skip(i + 1));
    assert(b.skip(i).drop_first() =~= b.skip(i + 1));
}

/// Whether name `a` comes before name `b`.
pub fn name_before(a: &str, b: &str) -> (r: bool)
    ensures
        r == name_less(a@, b@),
{
    let av = chars_of(a);
    let bv = chars_of(b);
    let mut i: usize = 0;
    assert(a@.skip(0) =~= a@);
    assert(b@.skip(0) =~= b@);
    while i < av.len() && i < bv.len()
        invariant
            av@ == a@,
            bv@ == b@,
            i <= av.len(),
            i <= bv.len(),
            name_less(a@, b@) == name_less(a@.skip(i as int), b@.skip(i as int)),
        decreases av.len() - i,
    {
        if av[i] != bv[i] {
            assert(a@.skip(i as int)[0] == av[i as int]);
            assert(b@.skip(i as int)[0] == bv[i as int]);
            return av[i] < bv[i];
        }
        proof {
            lemma_name_less_step(a@, b@, i as int);
        }
        i = i + 1;
    }
    av.len() - i == 0 && bv.len() - i > 0
}

/// Sets the attribute `name` to `values` in the sorted list.
pub fn set_attr(list: &mut Vec<(String, Vec<String>)>, name: String, values: Vec<String>)
    requires
        names_sorted(attr_views(old(list)@)),
    ensures
        attr_views(final(list)@) == with_attr(attr_views(old(list)@), name@, string_views(values@)),
        names_sorted(attr_views(final(list)@)),
{
    let ghost s = attr_views(list@);
    let n = list.len();
    let mut i: usize = 0;
    let mut before: usize = 0;
    proof {
        lemma_sorted_distinct(s);
        assert(s.take(0) =~= Seq::<AttrModel>::empty());
    }
    while i < n
        invariant
            n == list@.len(),
            s == attr_views(list@),
            s == attr_views(old(list)@),
            names_sorted(s),
            names_distinct(s),
            i <= n,
            forall|t: int| 0 <= t < i ==> s[t].0 != name@,
            before as nat == count_before(s.take(i as int), name@),
            before <= i,
        decreases n - i,
    {
        assert(s[i as int].0 == list@[i as int].0@);
        if list[i].0 == name {
            proof {
                assert(s[i as int].0 == name@);
                assert(has_attr(s, name@));
                let p = attr_position(s, name@);
                assert(p == i) by {
                    if p != i {
                        assert(s[p].0 == s[i as int].0);
                    }
                }
                lemma_with_attr_sorted(s, name@, string_views(values@));
            }
            let ghost vals = values@;
            let ghost nm = name@;
            assert(with_attr(s, nm, string_views(vals)) == s.update(i as int, (nm, string_views(vals))));
            list.set(i, (name, values));
            assert(attr_views(list@) =~= s.update(i as int, (nm, string_views(vals))));
            return;
        }
        assert(s.take(i + 1).drop_last() =~= s.take(i as int));
        assert(s.take(i + 1).last() == s[i as int]);
        if name_before(list[i].0.as_str(), name.as_str()) {
            before = before + 1;
        }
        i = i + 1;
    }
    proof {
        assert(!has_attr(s, name@));
        assert(s.take(n as int) =~= s);
        lemma_count_before_splits(s, name@);
        lemma_with_attr_sorted(s, name@, string_views(values@));
    }
    let ghost vals = values@;
    let ghost nm = name@;
    list.insert(before, (name, values));
    assert(attr_views(list@) =~= s.insert(before as int, (nm, string_views(vals))));
}

/// One value as a list of values.
pub fn single(value: String) -> (r: Vec<String>)
    ensures
        string_views(r@) == seq![value@],
{
    let mut r: Vec<String> = Vec::new();
    let ghost v = value@;
    r.push(value);
    assert(string_views(r@) =~= seq![v]);
    r
}

} // verus!
