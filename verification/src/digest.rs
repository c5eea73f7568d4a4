//! The curated direct-commit digest: a row-level filter keeping commits by a
//! fixed allow-list of authors whose messages match none of a fixed list of
//! routine-work substrings (merge commits, translation syncs, maintenance).

use crate::model::clone_string;
use crate::model::Commit;
use crate::strings::contains_seq;
use crate::strings::str_contains;
use vstd::prelude::*;

verus! {

/// The curated authors whose direct commits appear in the digest.
pub open spec fn is_curated_name(u: Seq<char>) -> bool {
    ||| u == "ornicar"@
    ||| u == "veloce"@
    ||| u == "lakinwecker"@
    ||| u == "fitztrev"@
    ||| u == "niklasf"@
    ||| u == "lenguyenthanh"@
    ||| u == "lukhas"@
    ||| u == "isaacl"@
    ||| u == "trevorbayless"@
    ||| u == "thomas-daniels"@
    ||| u == "benediktwerner"@
    ||| u == "kraktus"@
    ||| u == "fituby"@
    ||| u == "schlawg"@
}

/// A message is routine when it contains any of these substrings.
pub open spec fn is_routine_message(m: Seq<char>) -> bool {
    ||| contains_seq(m, "Merge"@)
    ||| contains_seq(m, "New Crowdin updates"@)
    ||| contains_seq(m, "New translations"@)
    ||| contains_seq(m, "golf"@)
    ||| contains_seq(m, "tweak"@)
    ||| contains_seq(m, "refactor"@)
}

/// A commit belongs to the digest exactly when its author is on the curated
/// list (an unknown author never is) and its message is not routine.
pub open spec fn is_curated_commit(c: Commit) -> bool {
    &&& match c.author {
        Option::Some(u) => is_curated_name(u@),
        Option::None => false,
    }
    &&& !is_routine_message(c.message@)
}

/// The digest rows: the curated commits, in store order.
pub open spec fn curated_seq(cs: Seq<Commit>) -> Seq<Commit> {
    cs.filter(|c: Commit| is_curated_commit(c))
}

/// A commit authored outside the curated list, or with a routine message,
/// never appears in the digest.
pub proof fn lemma_curated_excludes(cs: Seq<Commit>, i: int)
    requires
        0 <= i < curated_seq(cs).len(),
    ensures
        is_curated_commit(curated_seq(cs)[i]),
{
    cs.lemma_filter_pred(|c: Commit| is_curated_commit(c), i);
}

fn is_curated_name_exec(u: &String) -> (r: bool)
    ensures
        r == is_curated_name(u@),
{
    let s = u.as_str();
    crate::strings::str_eq(s, "ornicar") || crate::strings::str_eq(s, "veloce")
        || crate::strings::str_eq(s, "lakinwecker") || crate::strings::str_eq(s, "fitztrev")
        || crate::strings::str_eq(s, "niklasf") || crate::strings::str_eq(s, "lenguyenthanh")
        || crate::strings::str_eq(s, "lukhas") || crate::strings::str_eq(s, "isaacl")
        || crate::strings::str_eq(s, "trevorbayless") || crate::strings::str_eq(
        s,
        "thomas-daniels",
    ) || crate::strings::str_eq(s, "benediktwerner") || crate::strings::str_eq(s, "kraktus")
        || crate::strings::str_eq(s, "fituby") || crate::strings::str_eq(s, "schlawg")
}

fn is_routine_message_exec(m: &String) -> (r: bool)
    ensures
        r == is_routine_message(m@),
{
    let s = m.as_str();
    str_contains(s, "Merge") || str_contains(s, "New Crowdin updates") || str_contains(
        s,
        "New translations",
    ) || str_contains(s, "golf") || str_contains(s, "tweak") || str_contains(s, "refactor")
}

/// A field-for-field copy of a commit.
pub fn copy_commit(c: &Commit) -> (r: Commit)
    ensures
        r == *c,
{
    Commit {
        repo: clone_string(&c.repo),
        sha: clone_string(&c.sha),
        author: match &c.author {
            Some(u) => Some(clone_string(u)),
            None => None,
        },
        committed_at: clone_string(&c.committed_at),
        message: clone_string(&c.message),
        url: clone_string(&c.url),
    }
}

/// Select the curated commits, keeping store order.
pub fn curated_commits(commits: &Vec<Commit>) -> (r: Vec<Commit>)
    ensures
        r@ == curated_seq(commits@),
{
    let n = commits.len();
    let mut out: Vec<Commit> = Vec::new();
    let mut i: usize = 0;
    while i < n
        invariant
            n == commits@.len(),
            i <= n,
            out@ == curated_seq(commits@.take(i as int)),
        decreases n - i,
    {
        let keep = match &commits[i].author {
            Some(u) => is_curated_name_exec(u),
            None => false,
        };
        let keep = keep && !is_routine_message_exec(&commits[i].message);
        if keep {
            out.push(copy_commit(&commits[i]));
        }
        proof {
            assert(commits@.take(i + 1).drop_last() =~= commits@.take(i as int));
            assert(commits@.take(i + 1).last() == commits@[i as int]);
            reveal(Seq::filter);
        }
        i = i + 1;
    }
    proof {
        assert(commits@.take(n as int) =~= commits@);
    }
    out
}

} // verus!
