//! Readable names of well-known LDAP object identifiers.
//!
//! The names come from a text table with one `oid: name` pair per line.
//! Lines without a `:` are ignored, both sides are trimmed, and when an OID
//! is listed twice the later line wins.

use vstd::prelude::*;

use crate::groups::equal_chars;
use crate::text::{
    chars_of, find_char, first_index, split_chars, split_on, string_of, sub_chars, trim,
    trim_chars, views,
};

verus! {

/// The table of known OIDs.
pub const OID_TABLE: &'static str = "1.2.840.113556.1.4.319: Paged Results
1.2.840.113556.1.4.417: Show Deleted Objects
1.2.840.113556.1.4.473: Server Side Sort Request
1.2.840.113556.1.4.474: Server Side Sort Response
1.2.840.113556.1.4.521: Cross Domain Move Target
1.2.840.113556.1.4.528: Server Notification
1.2.840.113556.1.4.529: Extended DN
1.2.840.113556.1.4.619: Lazy Commit
1.2.840.113556.1.4.800: Active Directory Capability
1.2.840.113556.1.4.801: Security Descriptor Flags
1.2.840.113556.1.4.805: Tree Delete
1.2.840.113556.1.4.841: Directory Synchronization
1.2.840.113556.1.4.970: Get Stats
1.2.840.113556.1.4.1338: Verify Name
1.2.840.113556.1.4.1339: Domain Scope
1.2.840.113556.1.4.1340: Search Options
1.2.840.113556.1.4.1341: RODC DCPROMO
1.2.840.113556.1.4.1413: Permissive Modify
1.2.840.113556.1.4.1504: Attribute Scoped Query
1.2.840.113556.1.4.1670: Active Directory V51 Capability
1.2.840.113556.1.4.1781: Fast Concurrent Bind
1.2.840.113556.1.4.1791: LDAP Integration Capability
1.2.840.113556.1.4.1852: Quota Control
1.2.840.113556.1.4.1907: Shutdown Notify
1.2.840.113556.1.4.1935: Active Directory V60 Capability
1.2.840.113556.1.4.1948: Range Retrieval No Error
1.2.840.113556.1.4.1974: Force Update
1.2.840.113556.1.4.2026: Input DN
1.2.840.113556.1.4.2064: Show Recycled
1.2.840.113556.1.4.2065: Show Deactivated Link
1.2.840.113556.1.4.2080: Active Directory V61 R2 Capability
1.2.840.113556.1.4.2090: DirSync Extended Flags
1.2.840.113556.1.4.2237: Active Directory W8 Capability
1.3.6.1.1.8: Cancel Operation
1.3.6.1.4.1.1466.20037: StartTLS
1.3.6.1.4.1.4203.1.11.1: Modify Password
1.3.6.1.4.1.4203.1.11.3: Who Am I
2.16.840.1.113730.3.4.9: Virtual List View Request
2.16.840.1.113730.3.4.10: Virtual List View Response
";

/// A line without the carriage return that ended it.
pub open spec fn strip_cr(p: Seq<char>) -> Seq<char> {
    if p.len() > 0 && p.last() == '\r' {
        p.drop_last()
    } else {
        p
    }
}

/// The lines of a text, as `str::lines` yields them: split at `\n`, a `\r`
/// before a `\n` removed, and no empty line after a final `\n`.
pub open spec fn text_lines(s: Seq<char>) -> Seq<Seq<char>> {
    let pieces = split_on(s, '\n');
    let ended = pieces.drop_last().map_values(|p: Seq<char>| strip_cr(p));
    if s.len() == 0 || s.last() == '\n' {
        ended
    } else {
        ended.push(pieces.last())
    }
}

/// The pair that a line gives: the trimmed text before its first `:` and the
/// trimmed text after it; none when the line has no `:`.
pub open spec fn line_pair(line: Seq<char>) -> Option<(Seq<char>, Seq<char>)> {
    if line.contains(':') {
        let k = first_index(line, ':');
        Some((trim(line.take(k)), trim(line.skip(k + 1))))
    } else {
        None
    }
}

/// The name that the lines give to `oid`: that of the last line naming it.
pub open spec fn name_in_lines(lines: Seq<Seq<char>>, oid: Seq<char>) -> Option<Seq<char>>
    decreases lines.len(),
{
    if lines.len() == 0 {
        None
    } else {
        match line_pair(lines.last()) {
            Some((k, v)) => if k == oid {
                Some(v)
            } else {
                name_in_lines(lines.drop_last(), oid)
            },
            None => name_in_lines(lines.drop_last(), oid),
        }
    }
}

/// The name that a table text gives to `oid`.
pub open spec fn name_in_table(table: Seq<char>, oid: Seq<char>) -> Option<Seq<char>> {
    name_in_lines(text_lines(table), oid)
}

/// The pair that one line gives, if any.
fn pair_of_line(line: &[char]) -> (r: Option<(Vec<char>, Vec<char>)>)
    ensures
        match r {
            Some((k, v)) => line_pair(line@) == Some((k@, v@)),
            None => line_pair(line@) == None::<(Seq<char>, Seq<char>)>,
        },
{
    match find_char(line, ':') {
        Some(k) => {
            assert(k < line.len());
            let key = trim_chars(sub_chars(line, 0, k).as_slice());
            let value = trim_chars(sub_chars(line, k + 1, line.len()).as_slice());
            assert(line@.subrange(0, k as int) =~= line@.take(k as int));
            assert(line@.subrange(k + 1, line@.len() as int) =~= line@.skip(k + 1));
            Some((key, value))
        },
        None => None,
    }
}

/// The lines of a text.
pub fn lines_of(text: &[char]) -> (r: Vec<Vec<char>>)
    ensures
        views(r@) == text_lines(text@),
{
    let pieces = split_chars(text, '\n');
    let ghost pv = views(pieces@);
    let n = pieces.len();
    let mut r: Vec<Vec<char>> = Vec::new();
    let mut i: usize = 0;
    let ghost ended = pv.drop_last().map_values(|p: Seq<char>| strip_cr(p));
    assert(pv == split_on(text@, '\n'));
    while i + 1 < n
        invariant
            n == pieces@.len(),
            n >= 1,
            pv == views(pieces@),
            ended == pv.drop_last().map_values(|p: Seq<char>| strip_cr(p)),
            i + 1 <= n,
            views(r@) == ended.take(i as int),
        decreases n - i,
    {
        let p = &pieces[i];
        assert(pv[i as int] == p@);
        let line = if p.len() > 0 && p[p.len() - 1] == '\r' {
            sub_chars(p.as_slice(), 0, p.len() - 1)
        } else {
            sub_chars(p.as_slice(), 0, p.len())
        };
        assert(line@ =~= strip_cr(p@));
        let ghost before = r@;
        r.push(line);
        assert(views(r@) =~= views(before).push(line@));
        assert(ended.take(i + 1) =~= ended.take(i as int).push(ended[i as int]));
        i = i + 1;
    }
    assert(ended.take(i as int) =~= ended);
    if text.len() == 0 || text[text.len() - 1] == '\n' {
        r
    } else {
        let last = &pieces[n - 1];
        assert(pv.last() == last@);
        let copy = sub_chars(last.as_slice(), 0, last.len());
        assert(copy@ =~= last@);
        let ghost before = r@;
        r.push(copy);
        assert(views(r@) =~= views(before).push(pv.last()));
        r
    }
}

/// The name that `table` gives to `oid`, if any.
pub fn oid_name_in(table: &str, oid: &str) -> (r: Option<String>)
    ensures
        match r {
            Some(s) => name_in_table(table@, oid@) == Some(s@),
            None => name_in_table(table@, oid@) == None::<Seq<char>>,
        },
{
    let text = chars_of(table);
    let key = chars_of(oid);
    let lines = lines_of(text.as_slice());
    let ghost lv = views(lines@);
    let n = lines.len();
    let mut found: Option<Vec<char>> = None;
    let mut i: usize = 0;
    assert(lv.take(0) =~= Seq::<Seq<char>>::empty());
    while i < n
        invariant
            n == lines@.len(),
            lv == views(lines@),
            key@ == oid@,
            i <= n,
            match found {
                Some(v) => name_in_lines(lv.take(i as int), oid@) == Some(v@),
                None => name_in_lines(lv.take(i as int), oid@) == None::<Seq<char>>,
            },
        decreases n - i,
    {
        assert(lv[i as int] == lines@[i as int]@);
        assert(lv.take(i + 1).drop_last() =~= lv.take(i as int));
        assert(lv.take(i + 1).last() == lv[i as int]);
        match pair_of_line(lines[i].as_slice()) {
            Some((k, v)) => {
                if equal_chars(k.as_slice(), key.as_slice()) {
                    found = Some(v);
                }
            },
            None => {},
        }
        i = i + 1;
    }
    assert(lv.take(n as int) =~= lv);
    match found {
        Some(v) => Some(string_of(v.as_slice())),
        None => None,
    }
}

/// The readable name of a well-known OID, if the table lists it.
pub fn get_oid_name(oid: &str) -> (r: Option<String>)
    ensures
        match r {
            Some(s) => name_in_table(OID_TABLE@, oid@) == Some(s@),
            None => name_in_table(OID_TABLE@, oid@) == None::<Seq<char>>,
        },
{
    oid_name_in(OID_TABLE, oid)
}

} // verus!
