//! The aggregation engine: date-bounded queries over the store producing
//! time-bucketed counts. Timestamps are compared lexicographically, and a
//! bucket is a fixed-length prefix of a timestamp (four characters for a
//! year, seven for a month), so bucket order coincides with chronological
//! order.

use crate::model::clone_string;
use crate::model::has_username;
use crate::model::Member;
use crate::model::PullRequest;
use crate::strings::lemma_lex_lt_from_le_ne;
use crate::strings::lemma_lex_lt_transitive;
use crate::strings::lex_le;
use crate::strings::lex_lt;
use crate::strings::prefix_of;
use crate::strings::str_le;
use crate::strings::str_prefix;
use vstd::prelude::*;

verus! {

/// The stored merge timestamp: the empty string stands for an unmerged pull
/// request, as the relational store records it.
pub open spec fn merged_val(pr: PullRequest) -> Seq<char> {
    match pr.merged_at {
        Option::Some(m) => m@,
        Option::None => Seq::<char>::empty(),
    }
}

/// Whether a pull request's merge timestamp falls in the queried range,
/// bounds inclusive, by lexicographic comparison. An unmerged pull request
/// (empty timestamp) is in range only when `since` is empty.
pub open spec fn pr_in_range(pr: PullRequest, since: Seq<char>, until: Seq<char>) -> bool {
    lex_le(since, merged_val(pr)) && lex_le(merged_val(pr), until)
}

/// The month bucket of a pull request: the first seven characters of its
/// merge timestamp (`YYYY-MM`).
pub open spec fn month_of(pr: PullRequest) -> Seq<char> {
    prefix_of(merged_val(pr), 7)
}

pub(crate) fn pr_in_range_exec(pr: &PullRequest, since: &str, until: &str) -> (r: bool)
    ensures
        r == pr_in_range(*pr, since@, until@),
{
    match &pr.merged_at {
        Some(m) => str_le(since, m.as_str()) && str_le(m.as_str(), until),
        None => since.is_empty(),
    }
}

pub(crate) fn is_member(members: &Vec<Member>, username: &String) -> (r: bool)
    ensures
        r == has_username(members@, username@),
{
    let n = members.len();
    let mut i: usize = 0;
    while i < n
        invariant
            n == members@.len(),
            i <= n,
            forall|k: int| 0 <= k < i ==> (#[trigger] members@[k]).username@ != username@,
        decreases n - i,
    {
        if members[i].username == *username {
            return true;
        }
        i = i + 1;
    }
    false
}

fn month_of_exec(pr: &PullRequest) -> (r: String)
    ensures
        r@ == month_of(*pr),
{
    match &pr.merged_at {
        Some(m) => str_prefix(m.as_str(), 7),
        None => String::new(),
    }
}

/// A field-for-field copy of a pull request.
pub fn copy_pull_request(pr: &PullRequest) -> (r: PullRequest)
    ensures
        r == *pr,
{
    PullRequest {
        repo: clone_string(&pr.repo),
        pr_num: pr.pr_num,
        username: clone_string(&pr.username),
        title: clone_string(&pr.title),
        created_at: clone_string(&pr.created_at),
        merged_at: match &pr.merged_at {
            Some(m) => Some(clone_string(m)),
            None => None,
        },
    }
}

/// Strictly ascending by lexicographic order: sorted, no duplicates.
pub open spec fn sorted_strict(v: Seq<String>) -> bool {
    forall|i: int, j: int| 0 <= i < j < v.len() ==> lex_lt((#[trigger] v[i])@, (#[trigger] v[j])@)
}

pub open spec fn contains_view(v: Seq<String>, x: Seq<char>) -> bool {
    exists|i: int| 0 <= i < v.len() && (#[trigger] v[i])@ == x
}

fn lower_bound(v: &Vec<String>, b: &String) -> (idx: usize)
    ensures
        idx <= v@.len(),
        forall|i: int| 0 <= i < idx ==> lex_lt((#[trigger] v@[i])@, b@),
        idx < v@.len() ==> lex_le(b@, v@[idx as int]@),
{
    let n = v.len();
    let mut idx: usize = 0;
    while idx < n
        invariant
            n == v@.len(),
            idx <= n,
            forall|i: int| 0 <= i < idx ==> lex_lt((#[trigger] v@[i])@, b@),
        decreases n - idx,
    {
        if str_le(b.as_str(), v[idx].as_str()) {
            return idx;
        }
        idx = idx + 1;
    }
    idx
}

/// Insert a key into a strictly sorted vector, keeping it sorted and
/// dropping the key if it is already present.
fn insert_sorted_distinct(v: &mut Vec<String>, b: String)
    requires
        sorted_strict(old(v)@),
    ensures
        sorted_strict(final(v)@),
        forall|x: Seq<char>|
            #[trigger] contains_view(final(v)@, x) == (contains_view(old(v)@, x) || x == b@),
{
    let idx = lower_bound(v, &b);
    if idx < v.len() && v[idx] == b {
        proof {
            assert forall|x: Seq<char>|
                #[trigger] contains_view(v@, x) == (contains_view(v@, x) || x == b@) by {
                if x == b@ {
                    assert(v@[idx as int]@ == x);
                }
            }
        }
        return;
    }
    let ghost oldv = v@;
    let ghost gb = b;
    v.insert(idx, b);
    proof {
        assert(v@ == oldv.insert(idx as int, gb));
        assert(v@.len() == oldv.len() + 1);
        assert(v@[idx as int] == gb);
        assert(forall|i: int| 0 <= i < idx ==> v@[i] == oldv[i]);
        assert(forall|i: int| idx < i < v@.len() ==> v@[i] == oldv[i - 1]);
        if (idx as int) < oldv.len() {
            lemma_lex_lt_from_le_ne(gb@, oldv[idx as int]@);
        }
        assert forall|i: int, j: int| 0 <= i < j < v@.len() implies lex_lt(
            (#[trigger] v@[i])@,
            (#[trigger] v@[j])@,
        ) by {
            if i < idx && j == idx {
            } else if i == idx && j > idx {
                if j - 1 > idx {
                    lemma_lex_lt_transitive(gb@, oldv[idx as int]@, oldv[j - 1]@);
                }
            } else if i < idx && j > idx {
                if j - 1 > i {
                } else {
                    assert(j - 1 == i && v@[j] == oldv[i]);
                    assert(lex_lt(v@[i]@, b@));
                }
            }
        }
        assert forall|x: Seq<char>|
            #[trigger] contains_view(v@, x) == (contains_view(oldv, x) || x == gb@) by {
            if contains_view(v@, x) {
                let i = choose|i: int| 0 <= i < v@.len() && (#[trigger] v@[i])@ == x;
                if i < idx {
                    assert(oldv[i]@ == x);
                } else if i > idx {
                    assert(oldv[i - 1]@ == x);
                }
            }
            if contains_view(oldv, x) {
                let i = choose|i: int| 0 <= i < oldv.len() && (#[trigger] oldv[i])@ == x;
                if i < idx {
                    assert(v@[i]@ == x);
                } else {
                    assert(v@[i + 1]@ == x);
                }
            }
            if x == gb@ {
                assert(v@[idx as int]@ == x);
            }
        }
    }
}

/// Count, among the first `k` pull requests, those merged in range in month
/// bucket `b` whose author is a member.
pub open spec fn count_month_member_upto(
    prs: Seq<PullRequest>,
    members: Seq<Member>,
    since: Seq<char>,
    until: Seq<char>,
    b: Seq<char>,
    k: int,
) -> int
    decreases k,
{
    if k <= 0 {
        0
    } else {
        count_month_member_upto(prs, members, since, until, b, k - 1) + if 0 <= k - 1 < prs.len()
            && pr_in_range(prs[k - 1], since, until) && month_of(prs[k - 1]) == b && has_username(
            members,
            prs[k - 1].username@,
        ) {
            1int
        } else {
            0int
        }
    }
}

/// Count, among the first `k` pull requests, those merged in range in month
/// bucket `b` whose author is not a member.
pub open spec fn count_month_nonmember_upto(
    prs: Seq<PullRequest>,
    members: Seq<Member>,
    since: Seq<char>,
    until: Seq<char>,
    b: Seq<char>,
    k: int,
) -> int
    decreases k,
{
    if k <= 0 {
        0
    } else {
        count_month_nonmember_upto(prs, members, since, until, b, k - 1) + if 0 <= k - 1
            < prs.len() && pr_in_range(prs[k - 1], since, until) && month_of(prs[k - 1]) == b
            && !has_username(members, prs[k - 1].username@) {
            1int
        } else {
            0int
        }
    }
}

/// Count, among the first `k` pull requests, those merged in range in month
/// bucket `b`.
pub open spec fn count_month_total_upto(
    prs: Seq<PullRequest>,
    since: Seq<char>,
    until: Seq<char>,
    b: Seq<char>,
    k: int,
) -> int
    decreases k,
{
    if k <= 0 {
        0
    } else {
        count_month_total_upto(prs, since, until, b, k - 1) + if 0 <= k - 1 < prs.len()
            && pr_in_range(prs[k - 1], since, until) && month_of(prs[k - 1]) == b {
            1int
        } else {
            0int
        }
    }
}

pub open spec fn count_month_member(
    prs: Seq<PullRequest>,
    members: Seq<Member>,
    since: Seq<char>,
    until: Seq<char>,
    b: Seq<char>,
) -> int {
    count_month_member_upto(prs, members, since, until, b, prs.len() as int)
}

pub open spec fn count_month_nonmember(
    prs: Seq<PullRequest>,
    members: Seq<Member>,
    since: Seq<char>,
    until: Seq<char>,
    b: Seq<char>,
) -> int {
    count_month_nonmember_upto(prs, members, since, until, b, prs.len() as int)
}

pub open spec fn count_month_total(
    prs: Seq<PullRequest>,
    since: Seq<char>,
    until: Seq<char>,
    b: Seq<char>,
) -> int {
    count_month_total_upto(prs, since, until, b, prs.len() as int)
}

proof fn lemma_membership_partition_upto(
    prs: Seq<PullRequest>,
    members: Seq<Member>,
    since: Seq<char>,
    until: Seq<char>,
    b: Seq<char>,
    k: int,
)
    ensures
        count_month_member_upto(prs, members, since, until, b, k) + count_month_nonmember_upto(
            prs,
            members,
            since,
            until,
            b,
            k,
        ) == count_month_total_upto(prs, since, until, b, k),
    decreases k,
{
    if k > 0 {
        lemma_membership_partition_upto(prs, members, since, until, b, k - 1);
    }
}

/// Membership partition: in every month bucket, the pull requests by members
/// and those by non-members together are exactly the bucket's total.
pub proof fn lemma_membership_partition(
    prs: Seq<PullRequest>,
    members: Seq<Member>,
    since: Seq<char>,
    until: Seq<char>,
    b: Seq<char>,
)
    ensures
        count_month_member(prs, members, since, until, b) + count_month_nonmember(
            prs,
            members,
            since,
            until,
            b,
        ) == count_month_total(prs, since, until, b),
{
    lemma_membership_partition_upto(prs, members, since, until, b, prs.len() as int);
}

/// A month bucket's pull-request volume, split by membership.
#[derive(Debug)]
pub struct MonthlyPullRequests {
    pub month: String,
    pub by_members: u64,
    pub by_non_members: u64,
    pub total: u64,
}

/// Whether some pull request among the first `k` is merged in range with
/// month bucket `x`.
pub open spec fn month_seen(
    prs: Seq<PullRequest>,
    since: Seq<char>,
    until: Seq<char>,
    x: Seq<char>,
    k: int,
) -> bool {
    exists|t: int|
        0 <= t < k && pr_in_range(#[trigger] prs[t], since, until) && month_of(prs[t]) == x
}

fn month_counts(
    prs: &Vec<PullRequest>,
    members: &Vec<Member>,
    since: &str,
    until: &str,
    b: &String,
) -> (r: (u64, u64, u64))
    ensures
        r.0 as int == count_month_member(prs@, members@, since@, until@, b@),
        r.1 as int == count_month_nonmember(prs@, members@, since@, until@, b@),
        r.2 as int == count_month_total(prs@, since@, until@, b@),
{
    let n = prs.len();
    let mut cm: u64 = 0;
    let mut cn: u64 = 0;
    let mut ct: u64 = 0;
    let mut i: usize = 0;
    while i < n
        invariant
            n == prs@.len(),
            i <= n,
            cm as int == count_month_member_upto(prs@, members@, since@, until@, b@, i as int),
            cn as int == count_month_nonmember_upto(prs@, members@, since@, until@, b@, i as int),
            ct as int == count_month_total_upto(prs@, since@, until@, b@, i as int),
            cm <= i,
            cn <= i,
            ct <= i,
        decreases n - i,
    {
        if pr_in_range_exec(&prs[i], since, until) {
            let mo = month_of_exec(&prs[i]);
            if mo == *b {
                ct = ct + 1;
                if is_member(members, &prs[i].username) {
                    cm = cm + 1;
                } else {
                    cn = cn + 1;
                }
            }
        }
        i = i + 1;
    }
    (cm, cn, ct)
}

/// Monthly pull-request volume: one row per month bucket that holds at least
/// one in-range merged pull request, in strictly ascending bucket order, with
/// exact member / non-member / total counts. In every row the two membership
/// counts add up to the total.
pub fn monthly_pull_requests(
    prs: &Vec<PullRequest>,
    members: &Vec<Member>,
    since: &str,
    until: &str,
) -> (r: Vec<MonthlyPullRequests>)
    ensures
        forall|i: int, j: int|
            0 <= i < j < r@.len() ==> lex_lt((#[trigger] r@[i]).month@, (#[trigger] r@[j]).month@),
        forall|i: int|
            0 <= i < r@.len() ==> {
                &&& (#[trigger] r@[i]).by_members as int == count_month_member(
                    prs@,
                    members@,
                    since@,
                    until@,
                    r@[i].month@,
                )
                &&& r@[i].by_non_members as int == count_month_nonmember(
                    prs@,
                    members@,
                    since@,
                    until@,
                    r@[i].month@,
                )
                &&& r@[i].total as int == count_month_total(prs@, since@, until@, r@[i].month@)
                &&& r@[i].by_members + r@[i].by_non_members == r@[i].total
            },
        forall|k: int|
            0 <= k < prs@.len() && pr_in_range(#[trigger] prs@[k], since@, until@) ==> exists|i: int|
                0 <= i < r@.len() && (#[trigger] r@[i]).month@ == month_of(prs@[k]),
        forall|i: int|
            0 <= i < r@.len() ==> month_seen(prs@, since@, until@, (#[trigger] r@[i]).month@, prs@.len() as int),
{
    let n = prs.len();
    let mut months: Vec<String> = Vec::new();
    let mut k: usize = 0;
    while k < n
        invariant
            n == prs@.len(),
            k <= n,
            sorted_strict(months@),
            forall|x: Seq<char>|
                #[trigger] contains_view(months@, x) == month_seen(prs@, since@, until@, x, k as int),
        decreases n - k,
    {
        let ghost pre = months@;
        if pr_in_range_exec(&prs[k], since, until) {
            let mo = month_of_exec(&prs[k]);
            insert_sorted_distinct(&mut months, mo);
        }
        proof {
            assert forall|x: Seq<char>|
                #[trigger] contains_view(months@, x) == month_seen(
                prs@,
                since@,
                until@,
                x,
                k + 1,
            ) by {
                if contains_view(months@, x) {
                    if contains_view(pre, x) {
                        let t = choose|t: int|
                            0 <= t < k && pr_in_range(#[trigger] prs@[t], since@, until@)
                                && month_of(prs@[t]) == x;
                        assert(pr_in_range(prs@[t], since@, until@));
                    } else {
                        assert(pr_in_range(prs@[k as int], since@, until@) && month_of(
                            prs@[k as int],
                        ) == x);
                    }
                }
                if month_seen(prs@, since@, until@, x, k + 1) {
                    let t = choose|t: int|
                        0 <= t < k + 1 && pr_in_range(#[trigger] prs@[t], since@, until@)
                            && month_of(prs@[t]) == x;
                    if t < k {
                        assert(month_seen(prs@, since@, until@, x, k as int));
                    }
                }
            }
        }
        k = k + 1;
    }
    let m = months.len();
    let mut r: Vec<MonthlyPullRequests> = Vec::new();
    let mut i: usize = 0;
    while i < m
        invariant
            n == prs@.len(),
            m == months@.len(),
            i <= m,
            r@.len() == i,
            sorted_strict(months@),
            forall|x: Seq<char>|
                #[trigger] contains_view(months@, x) == month_seen(prs@, since@, until@, x, n as int),
            forall|j: int| 0 <= j < i ==> (#[trigger] r@[j]).month@ == months@[j]@,
            forall|j: int|
                0 <= j < i ==> {
                    &&& (#[trigger] r@[j]).by_members as int == count_month_member(
                        prs@,
                        members@,
                        since@,
                        until@,
                        r@[j].month@,
                    )
                    &&& r@[j].by_non_members as int == count_month_nonmember(
                        prs@,
                        members@,
                        since@,
                        until@,
                        r@[j].month@,
                    )
                    &&& r@[j].total as int == count_month_total(
                        prs@,
                        since@,
                        until@,
                        r@[j].month@,
                    )
                    &&& r@[j].by_members + r@[j].by_non_members == r@[j].total
                },
        decreases m - i,
    {
        let counts = month_counts(prs, members, since, until, &months[i]);
        proof {
            lemma_membership_partition(prs@, members@, since@, until@, months@[i as int]@);
        }
        let month = clone_string(&months[i]);
        r.push(
            MonthlyPullRequests {
                month,
                by_members: counts.0,
                by_non_members: counts.1,
                total: counts.2,
            },
        );
        i = i + 1;
    }
    proof {
        assert forall|k2: int|
            0 <= k2 < prs@.len() && pr_in_range(#[trigger] prs@[k2], since@, until@) implies exists|
            i2: int,
        |
            0 <= i2 < r@.len() && (#[trigger] r@[i2]).month@ == month_of(prs@[k2]) by {
            assert(month_seen(prs@, since@, until@, month_of(prs@[k2]), n as int));
            assert(contains_view(months@, month_of(prs@[k2])));
            let j = choose|j: int|
                0 <= j < months@.len() && (#[trigger] months@[j])@ == month_of(prs@[k2]);
            assert(r@[j].month@ == month_of(prs@[k2]));
        }
        assert forall|i2: int| 0 <= i2 < r@.len() implies month_seen(
            prs@,
            since@,
            until@,
            (#[trigger] r@[i2]).month@,
            prs@.len() as int,
        ) by {
            assert(months@[i2]@ == r@[i2].month@);
            assert(contains_view(months@, r@[i2].month@));
        }
    }
    r
}

/// The rows of the changelog: pull requests merged in range, by members or
/// by non-members, in store order.
pub open spec fn changelog_prs(
    prs: Seq<PullRequest>,
    members: Seq<Member>,
    since: Seq<char>,
    until: Seq<char>,
    by_members: bool,
) -> Seq<PullRequest> {
    prs.filter(
        |pr: PullRequest|
            pr_in_range(pr, since, until) && has_username(members, pr.username@) == by_members,
    )
}

/// Select the pull requests merged in the range whose author is (or is not)
/// a member, keeping store order.
pub fn merged_pull_requests(
    prs: &Vec<PullRequest>,
    members: &Vec<Member>,
    since: &str,
    until: &str,
    by_members: bool,
) -> (r: Vec<PullRequest>)
    ensures
        r@ == changelog_prs(prs@, members@, since@, until@, by_members),
{
    let n = prs.len();
    let mut out: Vec<PullRequest> = Vec::new();
    let mut i: usize = 0;
    while i < n
        invariant
            n == prs@.len(),
            i <= n,
            out@ == changelog_prs(prs@.take(i as int), members@, since@, until@, by_members),
        decreases n - i,
    {
        let keep = if pr_in_range_exec(&prs[i], since, until) {
            is_member(members, &prs[i].username) == by_members
        } else {
            false
        };
        if keep {
            out.push(copy_pull_request(&prs[i]));
        }
        proof {
            assert(prs@.take(i + 1).drop_last() =~= prs@.take(i as int));
            assert(prs@.take(i + 1).last() == prs@[i as int]);
            reveal(Seq::filter);
        }
        i = i + 1;
    }
    proof {
        assert(prs@.take(n as int) =~= prs@);
    }
    out
}

/// The least in-range merge timestamp among the first `k` pull requests
/// authored by `u`, or `None` when there is none.
pub open spec fn first_merge_upto(
    prs: Seq<PullRequest>,
    u: Seq<char>,
    since: Seq<char>,
    until: Seq<char>,
    k: int,
) -> Option<Seq<char>>
    decreases k,
{
    if k <= 0 {
        Option::None
    } else {
        let rest = first_merge_upto(prs, u, since, until, k - 1);
        if 0 <= k - 1 < prs.len() && pr_in_range(prs[k - 1], since, until) && prs[k
            - 1].username@ == u {
            match rest {
                Option::None => Option::Some(merged_val(prs[k - 1])),
                Option::Some(m) => if lex_le(m, merged_val(prs[k - 1])) {
                    Option::Some(m)
                } else {
                    Option::Some(merged_val(prs[k - 1]))
                },
            }
        } else {
            rest
        }
    }
}

/// The least in-range merge timestamp of author `u` over the whole table.
pub open spec fn first_merge(
    prs: Seq<PullRequest>,
    u: Seq<char>,
    since: Seq<char>,
    until: Seq<char>,
) -> Option<Seq<char>> {
    first_merge_upto(prs, u, since, until, prs.len() as int)
}

/// Whether some pull request among the first `k` is in range and authored
/// by `u`.
pub open spec fn author_seen(
    prs: Seq<PullRequest>,
    since: Seq<char>,
    until: Seq<char>,
    u: Seq<char>,
    k: int,
) -> bool {
    exists|t: int|
        0 <= t < k && pr_in_range(#[trigger] prs[t], since, until) && prs[t].username@ == u
}

proof fn lemma_first_merge_some_iff(
    prs: Seq<PullRequest>,
    u: Seq<char>,
    since: Seq<char>,
    until: Seq<char>,
    k: int,
)
    requires
        k <= prs.len(),
    ensures
        first_merge_upto(prs, u, since, until, k) is Some <==> author_seen(
            prs,
            since,
            until,
            u,
            k,
        ),
    decreases k,
{
    if k > 0 {
        lemma_first_merge_some_iff(prs, u, since, until, k - 1);
        if author_seen(prs, since, until, u, k) && !author_seen(prs, since, until, u, k - 1) {
            let t = choose|t: int|
                0 <= t < k && pr_in_range(#[trigger] prs[t], since, until) && prs[t].username@
                    == u;
            assert(t == k - 1);
        }
        if author_seen(prs, since, until, u, k - 1) {
            let t = choose|t: int|
                0 <= t < k - 1 && pr_in_range(#[trigger] prs[t], since, until) && prs[t].username@
                    == u;
            assert(0 <= t < k && pr_in_range(prs[t], since, until) && prs[t].username@ == u);
        }
    }
}

fn merged_string(pr: &PullRequest) -> (r: String)
    ensures
        r@ == merged_val(*pr),
{
    match &pr.merged_at {
        Some(m) => clone_string(m),
        None => String::new(),
    }
}

/// The least in-range merge timestamp of author `u`, scanning the table.
fn min_merged_for(prs: &Vec<PullRequest>, u: &String, since: &str, until: &str) -> (r: Option<
    String,
>)
    ensures
        r is Some <==> first_merge(prs@, u@, since@, until@) is Some,
        r is Some ==> Option::Some(r.unwrap()@) == first_merge(prs@, u@, since@, until@),
{
    let n = prs.len();
    let mut acc: Option<String> = None;
    let mut i: usize = 0;
    while i < n
        invariant
            n == prs@.len(),
            i <= n,
            acc is Some <==> first_merge_upto(prs@, u@, since@, until@, i as int) is Some,
            acc is Some ==> Option::Some(acc.unwrap()@) == first_merge_upto(
                prs@,
                u@,
                since@,
                until@,
                i as int,
            ),
        decreases n - i,
    {
        if pr_in_range_exec(&prs[i], since, until) && string_eq(&prs[i].username, u) {
            let mv = merged_string(&prs[i]);
            acc = match acc {
                None => Some(mv),
                Some(cur) => {
                    if str_le(cur.as_str(), mv.as_str()) {
                        Some(cur)
                    } else {
                        Some(mv)
                    }
                },
            };
        }
        i = i + 1;
    }
    acc
}

fn string_eq(a: &String, b: &String) -> (r: bool)
    ensures
        r == (a@ == b@),
{
    *a == *b
}

/// The first in-range pull request of its author: position `k` is in range
/// and no earlier pull request is in range with the same author.
pub open spec fn is_first_occurrence(
    prs: Seq<PullRequest>,
    since: Seq<char>,
    until: Seq<char>,
    k: int,
) -> bool {
    &&& 0 <= k < prs.len()
    &&& pr_in_range(prs[k], since, until)
    &&& forall|j: int|
        0 <= j < k ==> !(pr_in_range(#[trigger] prs[j], since, until)
            && prs[j].username@ == prs[k].username@)
}

/// The bucket of an in-range author: the `n`-character prefix of their least
/// in-range merge timestamp.
pub open spec fn author_bucket(
    prs: Seq<PullRequest>,
    since: Seq<char>,
    until: Seq<char>,
    n: int,
    u: Seq<char>,
) -> Seq<char> {
    prefix_of(first_merge(prs, u, since, until).unwrap(), n)
}

/// Count, among the first `k` pull requests, the first-time authors whose
/// bucket is `b`.
pub open spec fn count_bucket_upto(
    prs: Seq<PullRequest>,
    since: Seq<char>,
    until: Seq<char>,
    n: int,
    b: Seq<char>,
    k: int,
) -> int
    decreases k,
{
    if k <= 0 {
        0
    } else {
        count_bucket_upto(prs, since, until, n, b, k - 1) + if is_first_occurrence(
            prs,
            since,
            until,
            k - 1,
        ) && author_bucket(prs, since, until, n, prs[k - 1].username@) == b {
            1int
        } else {
            0int
        }
    }
}

pub open spec fn count_bucket(
    prs: Seq<PullRequest>,
    since: Seq<char>,
    until: Seq<char>,
    n: int,
    b: Seq<char>,
) -> int {
    count_bucket_upto(prs, since, until, n, b, prs.len() as int)
}

/// Count, among the first `k` pull requests, the distinct in-range authors
/// (each counted at their first occurrence).
pub open spec fn count_first_authors_upto(
    prs: Seq<PullRequest>,
    since: Seq<char>,
    until: Seq<char>,
    k: int,
) -> int
    decreases k,
{
    if k <= 0 {
        0
    } else {
        count_first_authors_upto(prs, since, until, k - 1) + if is_first_occurrence(
            prs,
            since,
            until,
            k - 1,
        ) {
            1int
        } else {
            0int
        }
    }
}

/// The number of distinct in-range authors of the whole table.
pub open spec fn count_first_authors(
    prs: Seq<PullRequest>,
    since: Seq<char>,
    until: Seq<char>,
) -> int {
    count_first_authors_upto(prs, since, until, prs.len() as int)
}

/// Count the entries of a (username, least merge) table whose bucket is `b`.
pub open spec fn count_firsts_bucket_upto(
    fs: Seq<(String, String)>,
    n: int,
    b: Seq<char>,
    k: int,
) -> int
    decreases k,
{
    if k <= 0 {
        0
    } else {
        count_firsts_bucket_upto(fs, n, b, k - 1) + if 0 <= k - 1 < fs.len() && prefix_of(
            fs[k - 1].1@,
            n,
        ) == b {
            1int
        } else {
            0int
        }
    }
}

pub open spec fn count_firsts_bucket(fs: Seq<(String, String)>, n: int, b: Seq<char>) -> int {
    count_firsts_bucket_upto(fs, n, b, fs.len() as int)
}

proof fn lemma_count_firsts_agree(
    fs1: Seq<(String, String)>,
    fs2: Seq<(String, String)>,
    n: int,
    b: Seq<char>,
    k: int,
)
    requires
        k <= fs1.len(),
        k <= fs2.len(),
        forall|j: int| 0 <= j < k ==> fs1[j] == fs2[j],
    ensures
        count_firsts_bucket_upto(fs1, n, b, k) == count_firsts_bucket_upto(fs2, n, b, k),
    decreases k,
{
    if k > 0 {
        lemma_count_firsts_agree(fs1, fs2, n, b, k - 1);
    }
}

proof fn lemma_count_firsts_bucket_push(
    fs: Seq<(String, String)>,
    e: (String, String),
    n: int,
    b: Seq<char>,
)
    ensures
        count_firsts_bucket(fs.push(e), n, b) == count_firsts_bucket(fs, n, b) + if prefix_of(
            e.1@,
            n,
        ) == b {
            1int
        } else {
            0int
        },
{
    let fs2 = fs.push(e);
    lemma_count_firsts_agree(fs, fs2, n, b, fs.len() as int);
    assert(fs2[fs2.len() - 1] == e);
}

fn contains_first_exec(fs: &Vec<(String, String)>, u: &String) -> (r: bool)
    ensures
        r == exists|j: int| 0 <= j < fs@.len() && (#[trigger] fs@[j]).0@ == u@,
{
    let n = fs.len();
    let mut i: usize = 0;
    while i < n
        invariant
            n == fs@.len(),
            i <= n,
            forall|j: int| 0 <= j < i ==> (#[trigger] fs@[j]).0@ != u@,
        decreases n - i,
    {
        if string_eq(&fs[i].0, u) {
            return true;
        }
        i = i + 1;
    }
    false
}

/// A bucket's count of first-time contributors.
#[derive(Debug)]
pub struct MonthlyNewContributors {
    pub month: String,
    pub count: u64,
}

/// Sum of the `count` fields of the first `k` rows.
pub open spec fn sum_counts_upto(rows: Seq<MonthlyNewContributors>, k: int) -> int
    decreases k,
{
    if k <= 0 {
        0
    } else {
        sum_counts_upto(rows, k - 1) + if 0 <= k - 1 < rows.len() {
            rows[k - 1].count as int
        } else {
            0int
        }
    }
}

pub open spec fn sum_counts(rows: Seq<MonthlyNewContributors>) -> int {
    sum_counts_upto(rows, rows.len() as int)
}

/// Whether some entry among the first `t` of a (username, least merge) table
/// has bucket `x`.
pub open spec fn bucket_seen(fs: Seq<(String, String)>, n: int, x: Seq<char>, t: int) -> bool {
    exists|j: int| 0 <= j < t && prefix_of((#[trigger] fs[j]).1@, n) == x
}

spec fn sum_over_months(months: Seq<String>, fs: Seq<(String, String)>, n: int, k: int) -> int
    decreases k,
{
    if k <= 0 {
        0
    } else {
        sum_over_months(months, fs, n, k - 1) + if 0 <= k - 1 < months.len() {
            count_firsts_bucket(fs, n, months[k - 1]@)
        } else {
            0int
        }
    }
}

proof fn lemma_sum_zero(months: Seq<String>, fs: Seq<(String, String)>, n: int, k: int)
    requires
        fs.len() == 0,
    ensures
        sum_over_months(months, fs, n, k) == 0,
    decreases k,
{
    if k > 0 {
        lemma_sum_zero(months, fs, n, k - 1);
    }
}

spec fn count_eq_upto(months: Seq<String>, v: Seq<char>, k: int) -> int
    decreases k,
{
    if k <= 0 {
        0
    } else {
        count_eq_upto(months, v, k - 1) + if 0 <= k - 1 < months.len() && months[k - 1]@ == v {
            1int
        } else {
            0int
        }
    }
}

proof fn lemma_count_eq_unique(months: Seq<String>, v: Seq<char>, j: int, k: int)
    requires
        forall|a: int, c: int|
            0 <= a < c < months.len() ==> (#[trigger] months[a])@ != (#[trigger] months[c])@,
        0 <= j < months.len(),
        months[j]@ == v,
    ensures
        count_eq_upto(months, v, k) == if j < k {
            1int
        } else {
            0int
        },
    decreases k,
{
    if k > 0 {
        lemma_count_eq_unique(months, v, j, k - 1);
    }
}

proof fn lemma_sum_push(
    months: Seq<String>,
    fd: Seq<(String, String)>,
    e: (String, String),
    n: int,
    k: int,
)
    ensures
        sum_over_months(months, fd.push(e), n, k) == sum_over_months(months, fd, n, k)
            + count_eq_upto(months, prefix_of(e.1@, n), k),
    decreases k,
{
    if k > 0 {
        lemma_sum_push(months, fd, e, n, k - 1);
        if 0 <= k - 1 < months.len() {
            lemma_count_firsts_bucket_push(fd, e, n, months[k - 1]@);
        }
    }
}

/// Summing the per-bucket counts over a duplicate-free list of buckets that
/// covers every entry's bucket yields the number of entries.
proof fn lemma_sum_firsts(months: Seq<String>, fs: Seq<(String, String)>, n: int)
    requires
        forall|a: int, c: int|
            0 <= a < c < months.len() ==> (#[trigger] months[a])@ != (#[trigger] months[c])@,
        forall|j: int|
            0 <= j < fs.len() ==> contains_view(months, prefix_of((#[trigger] fs[j]).1@, n)),
    ensures
        sum_over_months(months, fs, n, months.len() as int) == fs.len(),
    decreases fs.len(),
{
    if fs.len() == 0 {
        lemma_sum_zero(months, fs, n, months.len() as int);
    } else {
        let fd = fs.drop_last();
        let e = fs.last();
        assert(fd.push(e) =~= fs);
        assert(forall|j: int| 0 <= j < fd.len() ==> #[trigger] fd[j] == fs[j]);
        lemma_sum_firsts(months, fd, n);
        lemma_sum_push(months, fd, e, n, months.len() as int);
        let v = prefix_of(e.1@, n);
        assert(contains_view(months, v));
        let j = choose|j: int| 0 <= j < months.len() && (#[trigger] months[j])@ == v;
        lemma_count_eq_unique(months, v, j, months.len() as int);
    }
}

proof fn lemma_sum_rows(
    rows: Seq<MonthlyNewContributors>,
    months: Seq<String>,
    fs: Seq<(String, String)>,
    n: int,
    k: int,
)
    requires
        rows.len() == months.len(),
        forall|i: int|
            0 <= i < months.len() ==> (#[trigger] rows[i]).count as int == count_firsts_bucket(
                fs,
                n,
                months[i]@,
            ),
    ensures
        sum_counts_upto(rows, k) == sum_over_months(months, fs, n, k),
    decreases k,
{
    if k > 0 {
        lemma_sum_rows(rows, months, fs, n, k - 1);
    }
}

fn firsts_bucket_count(fs: &Vec<(String, String)>, length: usize, b: &String) -> (c: u64)
    requires
        1 <= length,
    ensures
        c as int == count_firsts_bucket(fs@, (length - 1) as int, b@),
{
    let n = fs.len();
    let mut c: u64 = 0;
    let mut i: usize = 0;
    while i < n
        invariant
            n == fs@.len(),
            i <= n,
            1 <= length,
            c as int == count_firsts_bucket_upto(fs@, (length - 1) as int, b@, i as int),
            c <= i,
        decreases n - i,
    {
        let p = str_prefix(fs[i].1.as_str(), length - 1);
        if p == *b {
            c = c + 1;
        }
        i = i + 1;
    }
    c
}

/// Every in-range occurrence has a first occurrence of the same author at or
/// before it.
proof fn lemma_exists_first_occurrence(
    prs: Seq<PullRequest>,
    since: Seq<char>,
    until: Seq<char>,
    t: int,
)
    requires
        0 <= t < prs.len(),
        pr_in_range(prs[t], since, until),
    ensures
        exists|k: int|
            #[trigger] is_first_occurrence(prs, since, until, k)
                && prs[k].username@ == prs[t].username@,
    decreases t,
{
    if is_first_occurrence(prs, since, until, t) {
    } else {
        let j = choose|j: int|
            0 <= j < t && pr_in_range(#[trigger] prs[j], since, until)
                && prs[j].username@ == prs[t].username@;
        lemma_exists_first_occurrence(prs, since, until, j);
        let k = choose|k: int|
            #[trigger] is_first_occurrence(prs, since, until, k)
                && prs[k].username@ == prs[j].username@;
        assert(is_first_occurrence(prs, since, until, k) && prs[k].username@ == prs[t].username@);
    }
}

/// Count, among the first `k` pull requests, those merged in range whose
/// author is a member.
pub open spec fn count_merged_member_upto(
    prs: Seq<PullRequest>,
    members: Seq<Member>,
    since: Seq<char>,
    until: Seq<char>,
    k: int,
) -> int
    decreases k,
{
    if k <= 0 {
        0
    } else {
        count_merged_member_upto(prs, members, since, until, k - 1) + if 0 <= k - 1 < prs.len()
            && pr_in_range(prs[k - 1], since, until) && has_username(
            members,
            prs[k - 1].username@,
        ) {
            1int
        } else {
            0int
        }
    }
}

/// Count, among the first `k` pull requests, those merged in range whose
/// author is not a member.
pub open spec fn count_merged_nonmember_upto(
    prs: Seq<PullRequest>,
    members: Seq<Member>,
    since: Seq<char>,
    until: Seq<char>,
    k: int,
) -> int
    decreases k,
{
    if k <= 0 {
        0
    } else {
        count_merged_nonmember_upto(prs, members, since, until, k - 1) + if 0 <= k - 1 < prs.len()
            && pr_in_range(prs[k - 1], since, until) && !has_username(
            members,
            prs[k - 1].username@,
        ) {
            1int
        } else {
            0int
        }
    }
}

/// Count, among the first `k` pull requests, those merged in range.
pub open spec fn count_merged_upto(
    prs: Seq<PullRequest>,
    since: Seq<char>,
    until: Seq<char>,
    k: int,
) -> int
    decreases k,
{
    if k <= 0 {
        0
    } else {
        count_merged_upto(prs, since, until, k - 1) + if 0 <= k - 1 < prs.len() && pr_in_range(
            prs[k - 1],
            since,
            until,
        ) {
            1int
        } else {
            0int
        }
    }
}

/// Whether author `u` has any pull request whose stored merge timestamp is
/// strictly below `since` (an unmerged pull request's empty timestamp is
/// below every non-empty `since`, as in the store's comparison).
pub open spec fn has_earlier(prs: Seq<PullRequest>, u: Seq<char>, since: Seq<char>) -> bool {
    exists|j: int|
        0 <= j < prs.len() && (#[trigger] prs[j]).username@ == u && lex_lt(
            merged_val(prs[j]),
            since,
        )
}

/// Count, among the first `k` pull requests, the first-time authors: distinct
/// in-range authors with no pull request predating `since`.
pub open spec fn count_new_contributors_upto(
    prs: Seq<PullRequest>,
    since: Seq<char>,
    until: Seq<char>,
    k: int,
) -> int
    decreases k,
{
    if k <= 0 {
        0
    } else {
        count_new_contributors_upto(prs, since, until, k - 1) + if is_first_occurrence(
            prs,
            since,
            until,
            k - 1,
        ) && !has_earlier(prs, prs[k - 1].username@, since) {
            1int
        } else {
            0int
        }
    }
}

/// The first in-range pull request of its repository.
pub open spec fn is_first_repo_occurrence(
    prs: Seq<PullRequest>,
    since: Seq<char>,
    until: Seq<char>,
    k: int,
) -> bool {
    &&& 0 <= k < prs.len()
    &&& pr_in_range(prs[k], since, until)
    &&& forall|j: int|
        0 <= j < k ==> !(pr_in_range(#[trigger] prs[j], since, until)
            && prs[j].repo@ == prs[k].repo@)
}

/// Count, among the first `k` pull requests, the distinct repositories with
/// an in-range merged pull request.
pub open spec fn count_first_repos_upto(
    prs: Seq<PullRequest>,
    since: Seq<char>,
    until: Seq<char>,
    k: int,
) -> int
    decreases k,
{
    if k <= 0 {
        0
    } else {
        count_first_repos_upto(prs, since, until, k - 1) + if is_first_repo_occurrence(
            prs,
            since,
            until,
            k - 1,
        ) {
            1int
        } else {
            0int
        }
    }
}

/// Whether some pull request among the first `k` is in range with repo `x`.
pub open spec fn repo_seen(
    prs: Seq<PullRequest>,
    since: Seq<char>,
    until: Seq<char>,
    x: Seq<char>,
    k: int,
) -> bool {
    exists|t: int| 0 <= t < k && pr_in_range(#[trigger] prs[t], since, until) && prs[t].repo@ == x
}

fn contains_view_exec(v: &Vec<String>, u: &String) -> (r: bool)
    ensures
        r == contains_view(v@, u@),
{
    let n = v.len();
    let mut i: usize = 0;
    while i < n
        invariant
            n == v@.len(),
            i <= n,
            forall|j: int| 0 <= j < i ==> (#[trigger] v@[j])@ != u@,
        decreases n - i,
    {
        if string_eq(&v[i], u) {
            proof {
                assert(0 <= i < v@.len() && v@[i as int]@ == u@);
            }
            return true;
        }
        i = i + 1;
    }
    false
}

fn has_earlier_exec(prs: &Vec<PullRequest>, u: &String, since: &str) -> (r: bool)
    ensures
        r == has_earlier(prs@, u@, since@),
{
    let n = prs.len();
    let mut i: usize = 0;
    while i < n
        invariant
            n == prs@.len(),
            i <= n,
            forall|j: int|
                0 <= j < i ==> !((#[trigger] prs@[j]).username@ == u@ && lex_lt(
                    merged_val(prs@[j]),
                    since@,
                )),
        decreases n - i,
    {
        if string_eq(&prs[i].username, u) {
            let below = match &prs[i].merged_at {
                Some(m) => crate::strings::str_lt(m.as_str(), since),
                None => !since.is_empty(),
            };
            if below {
                return true;
            }
        }
        i = i + 1;
    }
    false
}

/// The summary statistics for a date range.
#[derive(Clone, Copy, PartialEq, Eq, Structural, Debug)]
pub struct SummaryStats {
    pub by_members: u64,
    pub by_non_members: u64,
    pub total: u64,
    pub contributors: u64,
    pub repos: u64,
    pub new_contributors: u64,
}

/// Summary statistics over the range: merged pull requests split by
/// membership, the total, the distinct authors and repositories, and the
/// count of authors with no pull request predating the range start.
pub fn summary_stats(
    prs: &Vec<PullRequest>,
    members: &Vec<Member>,
    since: &str,
    until: &str,
) -> (r: SummaryStats)
    ensures
        r.by_members as int == count_merged_member_upto(
            prs@,
            members@,
            since@,
            until@,
            prs@.len() as int,
        ),
        r.by_non_members as int == count_merged_nonmember_upto(
            prs@,
            members@,
            since@,
            until@,
            prs@.len() as int,
        ),
        r.total as int == count_merged_upto(prs@, since@, until@, prs@.len() as int),
        r.by_members + r.by_non_members == r.total,
        r.contributors as int == count_first_authors(prs@, since@, until@),
        r.repos as int == count_first_repos_upto(prs@, since@, until@, prs@.len() as int),
        r.new_contributors as int == count_new_contributors_upto(
            prs@,
            since@,
            until@,
            prs@.len() as int,
        ),
{
    let n = prs.len();
    let mut cm: u64 = 0;
    let mut cn: u64 = 0;
    let mut ct: u64 = 0;
    let mut i: usize = 0;
    while i < n
        invariant
            n == prs@.len(),
            i <= n,
            cm as int == count_merged_member_upto(prs@, members@, since@, until@, i as int),
            cn as int == count_merged_nonmember_upto(prs@, members@, since@, until@, i as int),
            ct as int == count_merged_upto(prs@, since@, until@, i as int),
            cm <= i,
            cn <= i,
            ct <= i,
        decreases n - i,
    {
        if pr_in_range_exec(&prs[i], since, until) {
            ct = ct + 1;
            if is_member(members, &prs[i].username) {
                cm = cm + 1;
            } else {
                cn = cn + 1;
            }
        }
        i = i + 1;
    }
    let mut seen: Vec<String> = Vec::new();
    let mut cc: u64 = 0;
    let mut nc: u64 = 0;
    let mut k: usize = 0;
    while k < n
        invariant
            n == prs@.len(),
            k <= n,
            seen@.len() == cc,
            cc <= k,
            nc <= k,
            forall|j: int|
                0 <= j < seen@.len() ==> author_seen(
                    prs@,
                    since@,
                    until@,
                    (#[trigger] seen@[j])@,
                    k as int,
                ),
            forall|u: Seq<char>|
                #[trigger] author_seen(prs@, since@, until@, u, k as int) ==> contains_view(
                    seen@,
                    u,
                ),
            cc as int == count_first_authors_upto(prs@, since@, until@, k as int),
            nc as int == count_new_contributors_upto(prs@, since@, until@, k as int),
        decreases n - k,
    {
        let ghost pre = seen@;
        let ghost u = prs@[k as int].username@;
        let in_range = pr_in_range_exec(&prs[k], since, until);
        let present = if in_range {
            contains_view_exec(&seen, &prs[k].username)
        } else {
            false
        };
        if in_range && !present {
            proof {
                assert(!author_seen(prs@, since@, until@, u, k as int));
                assert(is_first_occurrence(prs@, since@, until@, k as int)) by {
                    assert forall|j: int| 0 <= j < k implies !(pr_in_range(
                        #[trigger] prs@[j],
                        since@,
                        until@,
                    ) && prs@[j].username@ == prs@[k as int].username@) by {
                        if pr_in_range(prs@[j], since@, until@) && prs@[j].username@ == u {
                            assert(author_seen(prs@, since@, until@, u, k as int));
                        }
                    }
                }
            }
            seen.push(clone_string(&prs[k].username));
            cc = cc + 1;
            if !has_earlier_exec(prs, &prs[k].username, since) {
                nc = nc + 1;
            }
            proof {
                assert(seen@ == pre.push(seen@.last()));
                assert(seen@.last()@ == u);
                assert forall|j: int| 0 <= j < seen@.len() implies author_seen(
                    prs@,
                    since@,
                    until@,
                    (#[trigger] seen@[j])@,
                    k + 1,
                ) by {
                    if j < pre.len() {
                        assert(author_seen(prs@, since@, until@, pre[j]@, k as int));
                        let t = choose|t: int|
                            0 <= t < k && pr_in_range(#[trigger] prs@[t], since@, until@)
                                && prs@[t].username@ == pre[j]@;
                        assert(0 <= t < k + 1 && pr_in_range(prs@[t], since@, until@)
                            && prs@[t].username@ == seen@[j]@);
                    } else {
                        assert(0 <= k < k + 1 && pr_in_range(prs@[k as int], since@, until@)
                            && prs@[k as int].username@ == seen@[j]@);
                    }
                }
                assert forall|u2: Seq<char>|
                    #[trigger] author_seen(prs@, since@, until@, u2, k + 1) implies contains_view(
                    seen@,
                    u2,
                ) by {
                    let t = choose|t: int|
                        0 <= t < k + 1 && pr_in_range(#[trigger] prs@[t], since@, until@)
                            && prs@[t].username@ == u2;
                    if t < k {
                        assert(author_seen(prs@, since@, until@, u2, k as int));
                        let j = choose|j: int|
                            0 <= j < pre.len() && (#[trigger] pre[j])@ == u2;
                        assert(seen@[j]@ == u2);
                    } else {
                        assert(seen@[seen@.len() - 1]@ == u2);
                    }
                }
            }
        } else {
            proof {
                assert(!is_first_occurrence(prs@, since@, until@, k as int)) by {
                    if is_first_occurrence(prs@, since@, until@, k as int) {
                        assert(in_range);
                        assert(author_seen(prs@, since@, until@, u, k as int)) by {
                            let j = choose|j: int|
                                0 <= j < seen@.len() && (#[trigger] seen@[j])@ == u;
                            assert(author_seen(prs@, since@, until@, seen@[j]@, k as int));
                        }
                        let t = choose|t: int|
                            0 <= t < k && pr_in_range(#[trigger] prs@[t], since@, until@)
                                && prs@[t].username@ == u;
                        assert(!(pr_in_range(prs@[t], since@, until@) && prs@[t].username@
                            == prs@[k as int].username@));
                    }
                }
                assert forall|j: int| 0 <= j < seen@.len() implies author_seen(
                    prs@,
                    since@,
                    until@,
                    (#[trigger] seen@[j])@,
                    k + 1,
                ) by {
                    assert(author_seen(prs@, since@, until@, seen@[j]@, k as int));
                    let t = choose|t: int|
                        0 <= t < k && pr_in_range(#[trigger] prs@[t], since@, until@)
                            && prs@[t].username@ == seen@[j]@;
                    assert(0 <= t < k + 1 && pr_in_range(prs@[t], since@, until@)
                        && prs@[t].username@ == seen@[j]@);
                }
                assert forall|u2: Seq<char>|
                    #[trigger] author_seen(prs@, since@, until@, u2, k + 1) implies contains_view(
                    seen@,
                    u2,
                ) by {
                    let t = choose|t: int|
                        0 <= t < k + 1 && pr_in_range(#[trigger] prs@[t], since@, until@)
                            && prs@[t].username@ == u2;
                    if t < k {
                        assert(author_seen(prs@, since@, until@, u2, k as int));
                    } else {
                        assert(in_range && u2 == u);
                        assert(present);
                    }
                }
            }
        }
        k = k + 1;
    }
    let mut seenr: Vec<String> = Vec::new();
    let mut cr: u64 = 0;
    let mut k2: usize = 0;
    while k2 < n
        invariant
            n == prs@.len(),
            k2 <= n,
            seenr@.len() == cr,
            cr <= k2,
            forall|j: int|
                0 <= j < seenr@.len() ==> repo_seen(
                    prs@,
                    since@,
                    until@,
                    (#[trigger] seenr@[j])@,
                    k2 as int,
                ),
            forall|x: Seq<char>|
                #[trigger] repo_seen(prs@, since@, until@, x, k2 as int) ==> contains_view(
                    seenr@,
                    x,
                ),
            cr as int == count_first_repos_upto(prs@, since@, until@, k2 as int),
        decreases n - k2,
    {
        let ghost pre = seenr@;
        let ghost x = prs@[k2 as int].repo@;
        let in_range = pr_in_range_exec(&prs[k2], since, until);
        let present = if in_range {
            contains_view_exec(&seenr, &prs[k2].repo)
        } else {
            false
        };
        if in_range && !present {
            proof {
                assert(!repo_seen(prs@, since@, until@, x, k2 as int));
                assert(is_first_repo_occurrence(prs@, since@, until@, k2 as int)) by {
                    assert forall|j: int| 0 <= j < k2 implies !(pr_in_range(
                        #[trigger] prs@[j],
                        since@,
                        until@,
                    ) && prs@[j].repo@ == prs@[k2 as int].repo@) by {
                        if pr_in_range(prs@[j], since@, until@) && prs@[j].repo@ == x {
                            assert(repo_seen(prs@, since@, until@, x, k2 as int));
                        }
                    }
                }
            }
            seenr.push(clone_string(&prs[k2].repo));
            cr = cr + 1;
            proof {
                assert(seenr@ == pre.push(seenr@.last()));
                assert(seenr@.last()@ == x);
                assert forall|j: int| 0 <= j < seenr@.len() implies repo_seen(
                    prs@,
                    since@,
                    until@,
                    (#[trigger] seenr@[j])@,
                    k2 + 1,
                ) by {
                    if j < pre.len() {
                        assert(repo_seen(prs@, since@, until@, pre[j]@, k2 as int));
                        let t = choose|t: int|
                            0 <= t < k2 && pr_in_range(#[trigger] prs@[t], since@, until@)
                                && prs@[t].repo@ == pre[j]@;
                        assert(0 <= t < k2 + 1 && pr_in_range(prs@[t], since@, until@)
                            && prs@[t].repo@ == seenr@[j]@);
                    } else {
                        assert(0 <= k2 < k2 + 1 && pr_in_range(prs@[k2 as int], since@, until@)
                            && prs@[k2 as int].repo@ == seenr@[j]@);
                    }
                }
                assert forall|x2: Seq<char>|
                    #[trigger] repo_seen(prs@, since@, until@, x2, k2 + 1) implies contains_view(
                    seenr@,
                    x2,
                ) by {
                    let t = choose|t: int|
                        0 <= t < k2 + 1 && pr_in_range(#[trigger] prs@[t], since@, until@)
                            && prs@[t].repo@ == x2;
                    if t < k2 {
                        assert(repo_seen(prs@, since@, until@, x2, k2 as int));
                        let j = choose|j: int|
                            0 <= j < pre.len() && (#[trigger] pre[j])@ == x2;
                        assert(seenr@[j]@ == x2);
                    } else {
                        assert(seenr@[seenr@.len() - 1]@ == x2);
                    }
                }
            }
        } else {
            proof {
                assert(!is_first_repo_occurrence(prs@, since@, until@, k2 as int)) by {
                    if is_first_repo_occurrence(prs@, since@, until@, k2 as int) {
                        assert(in_range);
                        assert(repo_seen(prs@, since@, until@, x, k2 as int)) by {
                            let j = choose|j: int|
                                0 <= j < seenr@.len() && (#[trigger] seenr@[j])@ == x;
                            assert(repo_seen(prs@, since@, until@, seenr@[j]@, k2 as int));
                        }
                        let t = choose|t: int|
                            0 <= t < k2 && pr_in_range(#[trigger] prs@[t], since@, until@)
                                && prs@[t].repo@ == x;
                        assert(!(pr_in_range(prs@[t], since@, until@) && prs@[t].repo@
                            == prs@[k2 as int].repo@));
                    }
                }
                assert forall|j: int| 0 <= j < seenr@.len() implies repo_seen(
                    prs@,
                    since@,
                    until@,
                    (#[trigger] seenr@[j])@,
                    k2 + 1,
                ) by {
                    assert(repo_seen(prs@, since@, until@, seenr@[j]@, k2 as int));
                    let t = choose|t: int|
                        0 <= t < k2 && pr_in_range(#[trigger] prs@[t], since@, until@)
                            && prs@[t].repo@ == seenr@[j]@;
                    assert(0 <= t < k2 + 1 && pr_in_range(prs@[t], since@, until@)
                        && prs@[t].repo@ == seenr@[j]@);
                }
                assert forall|x2: Seq<char>|
                    #[trigger] repo_seen(prs@, since@, until@, x2, k2 + 1) implies contains_view(
                    seenr@,
                    x2,
                ) by {
                    let t = choose|t: int|
                        0 <= t < k2 + 1 && pr_in_range(#[trigger] prs@[t], since@, until@)
                            && prs@[t].repo@ == x2;
                    if t < k2 {
                        assert(repo_seen(prs@, since@, until@, x2, k2 as int));
                    } else {
                        assert(in_range && x2 == x);
                        assert(present);
                    }
                }
            }
        }
        k2 = k2 + 1;
    }
    proof {
        lemma_merged_partition(prs@, members@, since@, until@, n as int);
    }
    SummaryStats {
        by_members: cm,
        by_non_members: cn,
        total: ct,
        contributors: cc,
        repos: cr,
        new_contributors: nc,
    }
}

proof fn lemma_merged_partition(
    prs: Seq<PullRequest>,
    members: Seq<Member>,
    since: Seq<char>,
    until: Seq<char>,
    k: int,
)
    ensures
        count_merged_member_upto(prs, members, since, until, k) + count_merged_nonmember_upto(
            prs,
            members,
            since,
            until,
            k,
        ) == count_merged_upto(prs, since, until, k),
    decreases k,
{
    if k > 0 {
        lemma_merged_partition(prs, members, since, until, k - 1);
    }
}

/// First-time contributors per bucket: group the pull requests merged in
/// range by author, take each author's least merge timestamp, truncate it to
/// `length - 1` characters (a year bucket for `length` 5, a month bucket for
/// `length` 8, matching the store's one-past truncation convention), and
/// count the authors per bucket. One row per non-empty bucket, in strictly
/// ascending bucket order; the counts sum to the number of distinct in-range
/// authors.
pub fn first_time_contributions(
    prs: &Vec<PullRequest>,
    since: &str,
    until: &str,
    length: usize,
) -> (r: Vec<MonthlyNewContributors>)
    requires
        1 <= length,
    ensures
        forall|i: int, j: int|
            0 <= i < j < r@.len() ==> lex_lt((#[trigger] r@[i]).month@, (#[trigger] r@[j]).month@),
        forall|i: int|
            0 <= i < r@.len() ==> (#[trigger] r@[i]).count as int == count_bucket(
                prs@,
                since@,
                until@,
                (length - 1) as int,
                r@[i].month@,
            ),
        forall|k: int|
            #[trigger] is_first_occurrence(prs@, since@, until@, k) ==> exists|i: int|
                0 <= i < r@.len() && (#[trigger] r@[i]).month@ == author_bucket(
                    prs@,
                    since@,
                    until@,
                    (length - 1) as int,
                    prs@[k].username@,
                ),
        forall|i: int|
            0 <= i < r@.len() ==> exists|k: int|
                #[trigger] is_first_occurrence(prs@, since@, until@, k) && author_bucket(
                    prs@,
                    since@,
                    until@,
                    (length - 1) as int,
                    prs@[k].username@,
                ) == (#[trigger] r@[i]).month@,
        sum_counts(r@) == count_first_authors(prs@, since@, until@),
{
    let ghost gn: int = (length - 1) as int;
    let n = prs.len();
    let mut firsts: Vec<(String, String)> = Vec::new();
    let mut k: usize = 0;
    while k < n
        invariant
            n == prs@.len(),
            1 <= length,
            gn == (length - 1) as int,
            k <= n,
            forall|a: int, c: int|
                0 <= a < c < firsts@.len() ==> (#[trigger] firsts@[a]).0@ != (
                #[trigger] firsts@[c]).0@,
            forall|j: int|
                0 <= j < firsts@.len() ==> author_seen(
                    prs@,
                    since@,
                    until@,
                    (#[trigger] firsts@[j]).0@,
                    k as int,
                ),
            forall|u: Seq<char>|
                #[trigger] author_seen(prs@, since@, until@, u, k as int) ==> exists|j: int|
                    0 <= j < firsts@.len() && (#[trigger] firsts@[j]).0@ == u,
            forall|j: int|
                0 <= j < firsts@.len() ==> Option::Some((#[trigger] firsts@[j]).1@) == first_merge(
                    prs@,
                    firsts@[j].0@,
                    since@,
                    until@,
                ),
            firsts@.len() == count_first_authors_upto(prs@, since@, until@, k as int),
            forall|b: Seq<char>|
                #[trigger] count_firsts_bucket(firsts@, gn, b) == count_bucket_upto(
                    prs@,
                    since@,
                    until@,
                    gn,
                    b,
                    k as int,
                ),
        decreases n - k,
    {
        let ghost pre = firsts@;
        let ghost u = prs@[k as int].username@;
        let in_range = pr_in_range_exec(&prs[k], since, until);
        let present = if in_range {
            contains_first_exec(&firsts, &prs[k].username)
        } else {
            false
        };
        if in_range && !present {
            proof {
                assert(author_seen(prs@, since@, until@, u, n as int)) by {
                    assert(pr_in_range(prs@[k as int], since@, until@));
                }
                lemma_first_merge_some_iff(prs@, u, since@, until@, n as int);
            }
            let mo = min_merged_for(prs, &prs[k].username, since, until);
            let m = match mo {
                Some(m) => m,
                None => vstd::pervasive::unreached(),
            };
            let uname = clone_string(&prs[k].username);
            firsts.push((uname, m));
            proof {
                let e = firsts@.last();
                assert(firsts@ == pre.push(e));
                assert(e.0@ == u);
                assert(!author_seen(prs@, since@, until@, u, k as int)) by {
                    if author_seen(prs@, since@, until@, u, k as int) {
                        assert(exists|j: int|
                            0 <= j < pre.len() && (#[trigger] pre[j]).0@ == u);
                    }
                }
                assert(is_first_occurrence(prs@, since@, until@, k as int)) by {
                    assert forall|j: int| 0 <= j < k implies !(pr_in_range(
                        #[trigger] prs@[j],
                        since@,
                        until@,
                    ) && prs@[j].username@ == prs@[k as int].username@) by {
                        if pr_in_range(prs@[j], since@, until@) && prs@[j].username@ == u {
                            assert(author_seen(prs@, since@, until@, u, k as int));
                        }
                    }
                }
                assert forall|j: int| 0 <= j < firsts@.len() implies author_seen(
                    prs@,
                    since@,
                    until@,
                    (#[trigger] firsts@[j]).0@,
                    k + 1,
                ) by {
                    if j < pre.len() {
                        assert(author_seen(prs@, since@, until@, pre[j].0@, k as int));
                        let t = choose|t: int|
                            0 <= t < k && pr_in_range(#[trigger] prs@[t], since@, until@)
                                && prs@[t].username@ == pre[j].0@;
                        assert(0 <= t < k + 1 && pr_in_range(prs@[t], since@, until@)
                            && prs@[t].username@ == firsts@[j].0@);
                    } else {
                        assert(0 <= k < k + 1 && pr_in_range(prs@[k as int], since@, until@)
                            && prs@[k as int].username@ == firsts@[j].0@);
                    }
                }
                assert forall|u2: Seq<char>|
                    #[trigger] author_seen(prs@, since@, until@, u2, k + 1) implies exists|j: int|
                    0 <= j < firsts@.len() && (#[trigger] firsts@[j]).0@ == u2 by {
                    let t = choose|t: int|
                        0 <= t < k + 1 && pr_in_range(#[trigger] prs@[t], since@, until@)
                            && prs@[t].username@ == u2;
                    if t < k {
                        assert(author_seen(prs@, since@, until@, u2, k as int));
                        let j = choose|j: int|
                            0 <= j < pre.len() && (#[trigger] pre[j]).0@ == u2;
                        assert(firsts@[j].0@ == u2);
                    } else {
                        assert(firsts@[firsts@.len() - 1].0@ == u2);
                    }
                }
                assert(first_merge(prs@, u, since@, until@) == Option::Some(e.1@));
                assert(author_bucket(prs@, since@, until@, gn, u) == prefix_of(e.1@, gn));
                assert forall|b: Seq<char>|
                    #[trigger] count_firsts_bucket(firsts@, gn, b) == count_bucket_upto(
                    prs@,
                    since@,
                    until@,
                    gn,
                    b,
                    k + 1,
                ) by {
                    lemma_count_firsts_bucket_push(pre, e, gn, b);
                }
            }
        } else {
            proof {
                assert(!is_first_occurrence(prs@, since@, until@, k as int)) by {
                    if is_first_occurrence(prs@, since@, until@, k as int) {
                        assert(in_range);
                        let j = choose|j: int|
                            0 <= j < firsts@.len() && (#[trigger] firsts@[j]).0@ == u;
                        assert(author_seen(prs@, since@, until@, firsts@[j].0@, k as int));
                        let t = choose|t: int|
                            0 <= t < k && pr_in_range(#[trigger] prs@[t], since@, until@)
                                && prs@[t].username@ == u;
                        assert(!(pr_in_range(prs@[t], since@, until@) && prs@[t].username@
                            == prs@[k as int].username@));
                    }
                }
                assert forall|j: int| 0 <= j < firsts@.len() implies author_seen(
                    prs@,
                    since@,
                    until@,
                    (#[trigger] firsts@[j]).0@,
                    k + 1,
                ) by {
                    assert(author_seen(prs@, since@, until@, firsts@[j].0@, k as int));
                    let t = choose|t: int|
                        0 <= t < k && pr_in_range(#[trigger] prs@[t], since@, until@)
                            && prs@[t].username@ == firsts@[j].0@;
                    assert(0 <= t < k + 1 && pr_in_range(prs@[t], since@, until@)
                        && prs@[t].username@ == firsts@[j].0@);
                }
                assert forall|u2: Seq<char>|
                    #[trigger] author_seen(prs@, since@, until@, u2, k + 1) implies exists|j: int|
                    0 <= j < firsts@.len() && (#[trigger] firsts@[j]).0@ == u2 by {
                    let t = choose|t: int|
                        0 <= t < k + 1 && pr_in_range(#[trigger] prs@[t], since@, until@)
                            && prs@[t].username@ == u2;
                    if t < k {
                        assert(author_seen(prs@, since@, until@, u2, k as int));
                    } else {
                        assert(in_range && u2 == u);
                        assert(present);
                    }
                }
            }
        }
        k = k + 1;
    }
    let f = firsts.len();
    let mut months: Vec<String> = Vec::new();
    let mut t: usize = 0;
    while t < f
        invariant
            f == firsts@.len(),
            t <= f,
            1 <= length,
            gn == (length - 1) as int,
            sorted_strict(months@),
            forall|x: Seq<char>|
                #[trigger] contains_view(months@, x) == bucket_seen(firsts@, gn, x, t as int),
        decreases f - t,
    {
        let ghost pre = months@;
        let mo = str_prefix(firsts[t].1.as_str(), length - 1);
        insert_sorted_distinct(&mut months, mo);
        proof {
            assert forall|x: Seq<char>|
                #[trigger] contains_view(months@, x) == bucket_seen(firsts@, gn, x, t + 1) by {
                if contains_view(months@, x) {
                    if contains_view(pre, x) {
                        let j = choose|j: int|
                            0 <= j < t && prefix_of((#[trigger] firsts@[j]).1@, gn) == x;
                        assert(0 <= j < t + 1 && prefix_of(firsts@[j].1@, gn) == x);
                    } else {
                        assert(prefix_of(firsts@[t as int].1@, gn) == x);
                    }
                }
                if bucket_seen(firsts@, gn, x, t + 1) {
                    let j = choose|j: int|
                        0 <= j < t + 1 && prefix_of((#[trigger] firsts@[j]).1@, gn) == x;
                    if j < t {
                        assert(bucket_seen(firsts@, gn, x, t as int));
                    }
                }
            }
        }
        t = t + 1;
    }
    let mcount = months.len();
    let mut r: Vec<MonthlyNewContributors> = Vec::new();
    let mut i: usize = 0;
    while i < mcount
        invariant
            mcount == months@.len(),
            i <= mcount,
            r@.len() == i,
            1 <= length,
            gn == (length - 1) as int,
            sorted_strict(months@),
            forall|j: int| 0 <= j < i ==> (#[trigger] r@[j]).month@ == months@[j]@,
            forall|j: int|
                0 <= j < i ==> (#[trigger] r@[j]).count as int == count_firsts_bucket(
                    firsts@,
                    gn,
                    months@[j]@,
                ),
        decreases mcount - i,
    {
        let c = firsts_bucket_count(&firsts, length, &months[i]);
        let month = clone_string(&months[i]);
        r.push(MonthlyNewContributors { month, count: c });
        i = i + 1;
    }
    proof {
        assert forall|a: int, c: int| 0 <= a < c < months@.len() implies (
        #[trigger] months@[a])@ != (#[trigger] months@[c])@ by {
            crate::strings::lemma_lex_le_reflexive(months@[a]@);
        }
        assert forall|k2: int|
            #[trigger] is_first_occurrence(prs@, since@, until@, k2) implies exists|i2: int|
            0 <= i2 < r@.len() && (#[trigger] r@[i2]).month@ == author_bucket(
                prs@,
                since@,
                until@,
                gn,
                prs@[k2].username@,
            ) by {
            let u2 = prs@[k2].username@;
            assert(author_seen(prs@, since@, until@, u2, n as int)) by {
                assert(pr_in_range(prs@[k2], since@, until@));
            }
            let j = choose|j: int| 0 <= j < firsts@.len() && (#[trigger] firsts@[j]).0@ == u2;
            assert(first_merge(prs@, u2, since@, until@) == Option::Some(firsts@[j].1@));
            assert(bucket_seen(firsts@, gn, prefix_of(firsts@[j].1@, gn), f as int)) by {
                assert(0 <= j < f && prefix_of(firsts@[j].1@, gn) == prefix_of(
                    firsts@[j].1@,
                    gn,
                ));
            }
            assert(contains_view(months@, prefix_of(firsts@[j].1@, gn)));
            let i2 = choose|i2: int|
                0 <= i2 < months@.len() && (#[trigger] months@[i2])@ == prefix_of(
                    firsts@[j].1@,
                    gn,
                );
            assert(r@[i2].month@ == author_bucket(prs@, since@, until@, gn, u2));
        }
        assert forall|i2: int| 0 <= i2 < r@.len() implies exists|k2: int|
            #[trigger] is_first_occurrence(prs@, since@, until@, k2) && author_bucket(
                prs@,
                since@,
                until@,
                gn,
                prs@[k2].username@,
            ) == (#[trigger] r@[i2]).month@ by {
            assert(months@[i2]@ == r@[i2].month@);
            assert(contains_view(months@, r@[i2].month@)) by {
                assert(0 <= i2 < months@.len() && months@[i2]@ == r@[i2].month@);
            }
            assert(bucket_seen(firsts@, gn, r@[i2].month@, f as int));
            let j = choose|j: int|
                0 <= j < f && prefix_of((#[trigger] firsts@[j]).1@, gn) == r@[i2].month@;
            assert(author_seen(prs@, since@, until@, firsts@[j].0@, n as int));
            let t2 = choose|t2: int|
                0 <= t2 < n && pr_in_range(#[trigger] prs@[t2], since@, until@)
                    && prs@[t2].username@ == firsts@[j].0@;
            lemma_exists_first_occurrence(prs@, since@, until@, t2);
            let k2 = choose|k2: int|
                #[trigger] is_first_occurrence(prs@, since@, until@, k2) && prs@[k2].username@
                    == prs@[t2].username@;
            assert(first_merge(prs@, firsts@[j].0@, since@, until@) == Option::Some(
                firsts@[j].1@,
            ));
            assert(author_bucket(prs@, since@, until@, gn, prs@[k2].username@) == prefix_of(
                firsts@[j].1@,
                gn,
            ));
        }
        assert forall|j: int| 0 <= j < firsts@.len() implies contains_view(
            months@,
            prefix_of((#[trigger] firsts@[j]).1@, gn),
        ) by {
            assert(bucket_seen(firsts@, gn, prefix_of(firsts@[j].1@, gn), f as int)) by {
                assert(0 <= j < f && prefix_of(firsts@[j].1@, gn) == prefix_of(
                    firsts@[j].1@,
                    gn,
                ));
            }
        }
        lemma_sum_firsts(months@, firsts@, gn);
        lemma_sum_rows(r@, months@, firsts@, gn, months@.len() as int);
    }
    r
}

} // verus!
