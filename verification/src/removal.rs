//! The safety decisions of the removal commands.
//!
//! A removal goes through the same steps for users and for groups: stop
//! when nothing matched, refuse when a single entry is required and several
//! matched, stop on a dry run, and otherwise delete only with `--no-confirm`
//! or after the user answers `y`. Deleting then goes on past failures and
//! counts successes and failures.

use vstd::prelude::*;

use crate::text::{chars_of, eq_ignore_ascii_case, eq_ignore_ascii_case_chars, trim, trim_chars};

verus! {

/// What a removal command does next.
#[derive(Debug, PartialEq, Eq)]
pub enum RemovalStep {
    /// No entry matched: nothing to do.
    NothingFound,
    /// A single entry was required and several matched: refuse.
    Ambiguous,
    /// Dry run: show the matches and change nothing.
    DryRun,
    /// Ask the user for confirmation, then decide again with the answer.
    Ask,
    /// The user did not confirm: change nothing.
    Cancelled,
    /// Delete the matches.
    Delete,
}

/// An answer confirms when, trimmed, it is `y` or `Y`.
pub open spec fn is_yes(a: Seq<char>) -> bool {
    eq_ignore_ascii_case(trim(a), "y"@)
}

/// The step for `found` matches, the flags and the user's answer, if one
/// was given.
pub open spec fn removal_decision(
    found: nat,
    single_required: bool,
    dry_run: bool,
    no_confirm: bool,
    answer: Option<Seq<char>>,
) -> RemovalStep {
    if found == 0 {
        RemovalStep::NothingFound
    } else if single_required && found > 1 {
        RemovalStep::Ambiguous
    } else if dry_run {
        RemovalStep::DryRun
    } else if no_confirm {
        RemovalStep::Delete
    } else {
        match answer {
            None => RemovalStep::Ask,
            Some(a) => if is_yes(a) {
                RemovalStep::Delete
            } else {
                RemovalStep::Cancelled
            },
        }
    }
}

/// The text of an optional string slice.
pub open spec fn opt_str_view(a: Option<&str>) -> Option<Seq<char>> {
    match a {
        Some(s) => Some(s@),
        None => None,
    }
}

/// Whether an answer confirms the removal.
pub fn confirms(answer: &str) -> (r: bool)
    ensures
        r == is_yes(answer@),
{
    let v = chars_of(answer);
    let t = trim_chars(v.as_slice());
    let y: Vec<char> = vec!['y'];
    proof {
        reveal_strlit("y");
        assert(y@ =~= "y"@);
    }
    eq_ignore_ascii_case_chars(t.as_slice(), y.as_slice())
}

/// Decides the next step of a removal.
pub fn removal_step(
    found: usize,
    single_required: bool,
    dry_run: bool,
    no_confirm: bool,
    answer: Option<&str>,
) -> (r: RemovalStep)
    ensures
        r == removal_decision(found as nat, single_required, dry_run, no_confirm, opt_str_view(answer)),
        found == 0 ==> r is NothingFound,
        found > 1 && single_required ==> r is Ambiguous,
        (found > 0 && !(single_required && found > 1) && dry_run) ==> r is DryRun,
        (found > 0 && !(single_required && found > 1) && !dry_run && !no_confirm && answer is None)
            ==> r is Ask,
        (r is Delete) == (found > 0 && !(single_required && found > 1) && !dry_run && (no_confirm
            || (answer matches Some(a) && is_yes(a@)))),
        (r is Cancelled) == (found > 0 && !(single_required && found > 1) && !dry_run && !no_confirm
            && (answer matches Some(a) && !is_yes(a@))),
{
    if found == 0 {
        RemovalStep::NothingFound
    } else if single_required && found > 1 {
        RemovalStep::Ambiguous
    } else if dry_run {
        RemovalStep::DryRun
    } else if no_confirm {
        RemovalStep::Delete
    } else {
        match answer {
            None => RemovalStep::Ask,
            Some(a) => if confirms(a) {
                RemovalStep::Delete
            } else {
                RemovalStep::Cancelled
            },
        }
    }
}

/// A removal deletes only when something matched, not more than one entry
/// where a single one is required, not on a dry run, and only with
/// `--no-confirm` or a confirming answer.
pub proof fn law_removal_safety(
    found: nat,
    single_required: bool,
    dry_run: bool,
    no_confirm: bool,
    answer: Option<Seq<char>>,
)
    ensures
        removal_decision(found, single_required, dry_run, no_confirm, answer) is Delete ==> {
            &&& found > 0
            &&& single_required ==> found == 1
            &&& !dry_run
            &&& no_confirm || (answer matches Some(a) && is_yes(a))
        },
{
}

/// The number of entries shown before a removal.
pub open spec fn preview_limit() -> nat {
    20
}

/// The entries shown before a removal (the first twenty) and how many more
/// there are.
pub fn removal_preview(dns: &Vec<String>) -> (r: (Vec<String>, usize))
    ensures
        r.0.len() == if dns.len() < 20 {
            dns.len()
        } else {
            20
        },
        forall|i: int| 0 <= i < r.0.len() ==> r.0[i]@ == dns[i]@,
        r.1 == dns.len() - r.0.len(),
{
    let n = if dns.len() < 20 {
        dns.len()
    } else {
        20
    };
    let mut shown: Vec<String> = Vec::new();
    let mut i: usize = 0;
    while i < n
        invariant
            n <= dns.len(),
            i <= n,
            shown.len() == i,
            forall|k: int| 0 <= k < i ==> shown[k]@ == dns[k]@,
        decreases n - i,
    {
        shown.push(dns[i].clone());
        i = i + 1;
    }
    (shown, dns.len() - n)
}

/// The number of successful outcomes.
pub open spec fn successes(s: Seq<bool>) -> nat {
    s.filter(|b: bool| b).len()
}

proof fn lemma_successes_push(s: Seq<bool>, i: int)
    requires
        0 <= i < s.len(),
    ensures
        successes(s.take(i + 1)) == successes(s.take(i)) + if s[i] {
            1nat
        } else {
            0nat
        },
        successes(s.take(i)) <= i,
{
    reveal(Seq::filter);
    assert(s.take(i + 1).drop_last() =~= s.take(i));
    assert(s.take(i + 1).last() == s[i]);
    s.take(i).lemma_filter_len(|b: bool| b);
}

/// The successes and failures among the outcomes of the deletions.
pub fn delete_tally(outcomes: &Vec<bool>) -> (r: (usize, usize))
    ensures
        r.0 + r.1 == outcomes.len(),
        r.0 == successes(outcomes@),
{
    let n = outcomes.len();
    let mut ok: usize = 0;
    let mut failed: usize = 0;
    let mut i: usize = 0;
    assert(outcomes@.take(0) =~= Seq::<bool>::empty());
    proof {
        reveal(Seq::filter);
    }
    while i < n
        invariant
            n == outcomes@.len(),
            i <= n,
            ok + failed == i,
            ok == successes(outcomes@.take(i as int)),
        decreases n - i,
    {
        proof {
            lemma_successes_push(outcomes@, i as int);
        }
        if outcomes[i] {
            ok = ok + 1;
        } else {
            failed = failed + 1;
        }
        i = i + 1;
    }
    assert(outcomes@.take(n as int) =~= outcomes@);
    (ok, failed)
}

} // verus!
