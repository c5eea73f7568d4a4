//! The relational model the pipeline works over: members, pull requests and
//! commits, each deduplicated by its natural key (username, (repo, pr_num),
//! sha). Ingestion only ever inserts-if-absent, so re-running it over the
//! same rows leaves the store unchanged; the idempotence lemmas at the end
//! state that law.

use vstd::prelude::*;

verus! {

/// An organization member, identified by username.
#[derive(Debug)]
pub struct Member {
    pub username: String,
}

/// A pull request, identified by (repo, pr_num). `merged_at` is `None`
/// exactly when the pull request was unmerged at fetch time.
#[derive(Debug)]
pub struct PullRequest {
    pub repo: String,
    pub pr_num: u64,
    pub username: String,
    pub title: String,
    pub created_at: String,
    pub merged_at: Option<String>,
}

/// A commit, identified by sha. `author` is `None` when the hosting service
/// reports no author; the renderer decides how to display that.
#[derive(Debug)]
pub struct Commit {
    pub repo: String,
    pub sha: String,
    pub author: Option<String>,
    pub committed_at: String,
    pub message: String,
    pub url: String,
}

pub open spec fn has_username(ms: Seq<Member>, u: Seq<char>) -> bool {
    exists|i: int| 0 <= i < ms.len() && (#[trigger] ms[i]).username@ == u
}

pub open spec fn has_pr_key(ps: Seq<PullRequest>, repo: Seq<char>, pr_num: u64) -> bool {
    exists|i: int|
        0 <= i < ps.len() && (#[trigger] ps[i]).repo@ == repo && ps[i].pr_num == pr_num
}

pub open spec fn has_sha(cs: Seq<Commit>, sha: Seq<char>) -> bool {
    exists|i: int| 0 <= i < cs.len() && (#[trigger] cs[i]).sha@ == sha
}

pub open spec fn members_wf(ms: Seq<Member>) -> bool {
    forall|i: int, j: int|
        0 <= i < j < ms.len() ==> (#[trigger] ms[i]).username@ != (#[trigger] ms[j]).username@
}

pub open spec fn pull_requests_wf(ps: Seq<PullRequest>) -> bool {
    forall|i: int, j: int|
        0 <= i < j < ps.len() ==> !((#[trigger] ps[i]).repo@ == (#[trigger] ps[j]).repo@
            && ps[i].pr_num == ps[j].pr_num)
}

pub open spec fn commits_wf(cs: Seq<Commit>) -> bool {
    forall|i: int, j: int|
        0 <= i < j < cs.len() ==> (#[trigger] cs[i]).sha@ != (#[trigger] cs[j]).sha@
}

/// The store: three append-only tables with uniqueness on the natural keys.
#[derive(Debug)]
pub struct Store {
    pub members: Vec<Member>,
    pub pull_requests: Vec<PullRequest>,
    pub commits: Vec<Commit>,
}

impl Store {
    pub open spec fn wf(&self) -> bool {
        members_wf(self.members@) && pull_requests_wf(self.pull_requests@) && commits_wf(
            self.commits@,
        )
    }

    pub fn new() -> (s: Store)
        ensures
            s.wf(),
            s.members@.len() == 0,
            s.pull_requests@.len() == 0,
            s.commits@.len() == 0,
    {
        Store { members: Vec::new(), pull_requests: Vec::new(), commits: Vec::new() }
    }

    /// Insert-if-absent keyed on username.
    pub fn insert_member(&mut self, username: String) -> (added: bool)
        requires
            old(self).wf(),
        ensures
            final(self).wf(),
            final(self).pull_requests@ == old(self).pull_requests@,
            final(self).commits@ == old(self).commits@,
            final(self).members@ == spec_insert_username(old(self).members@, username),
            added == !has_username(old(self).members@, username@),
    {
        let n = self.members.len();
        let mut i: usize = 0;
        while i < n
            invariant
                *self == *old(self),
                old(self).wf(),
                n == self.members@.len(),
                i <= n,
                forall|k: int| 0 <= k < i ==> (#[trigger] self.members@[k]).username@ != username@,
            decreases n - i,
        {
            if self.members[i].username == username {
                return false;
            }
            i = i + 1;
        }
        self.members.push(Member { username });
        true
    }

    /// Insert-if-absent keyed on (repo, pr_num).
    pub fn insert_pull_request(&mut self, pr: PullRequest) -> (added: bool)
        requires
            old(self).wf(),
        ensures
            final(self).wf(),
            final(self).members@ == old(self).members@,
            final(self).commits@ == old(self).commits@,
            final(self).pull_requests@ == spec_insert_pr(old(self).pull_requests@, pr),
            added == !has_pr_key(old(self).pull_requests@, pr.repo@, pr.pr_num),
    {
        let n = self.pull_requests.len();
        let mut i: usize = 0;
        while i < n
            invariant
                *self == *old(self),
                old(self).wf(),
                n == self.pull_requests@.len(),
                i <= n,
                forall|k: int|
                    0 <= k < i ==> !((#[trigger] self.pull_requests@[k]).repo@ == pr.repo@
                        && self.pull_requests@[k].pr_num == pr.pr_num),
            decreases n - i,
        {
            if self.pull_requests[i].pr_num == pr.pr_num && self.pull_requests[i].repo
                == pr.repo {
                return false;
            }
            i = i + 1;
        }
        self.pull_requests.push(pr);
        true
    }

    /// Insert-if-absent keyed on sha.
    pub fn insert_commit(&mut self, c: Commit) -> (added: bool)
        requires
            old(self).wf(),
        ensures
            final(self).wf(),
            final(self).members@ == old(self).members@,
            final(self).pull_requests@ == old(self).pull_requests@,
            final(self).commits@ == spec_insert_commit(old(self).commits@, c),
            added == !has_sha(old(self).commits@, c.sha@),
    {
        let n = self.commits.len();
        let mut i: usize = 0;
        while i < n
            invariant
                *self == *old(self),
                old(self).wf(),
                n == self.commits@.len(),
                i <= n,
                forall|k: int| 0 <= k < i ==> (#[trigger] self.commits@[k]).sha@ != c.sha@,
            decreases n - i,
        {
            if self.commits[i].sha == c.sha {
                return false;
            }
            i = i + 1;
        }
        self.commits.push(c);
        true
    }

    /// Insert-if-absent for a whole page of member usernames, in order.
    pub fn ingest_member_page(&mut self, names: Vec<String>) -> (added: u64)
        requires
            old(self).wf(),
            old(self).members@.len() + names@.len() <= u64::MAX,
        ensures
            final(self).wf(),
            final(self).pull_requests@ == old(self).pull_requests@,
            final(self).commits@ == old(self).commits@,
            final(self).members@ == spec_ingest_usernames(old(self).members@, names@),
            added == final(self).members@.len() - old(self).members@.len(),
    {
        let n = names.len();
        let mut i: usize = 0;
        let mut added: u64 = 0;
        let ghost ms0 = self.members@;
        while i < n
            invariant
                self.wf(),
                n == names@.len(),
                i <= n,
                self.pull_requests@ == old(self).pull_requests@,
                self.commits@ == old(self).commits@,
                self.members@ == spec_ingest_usernames(ms0, names@.take(i as int)),
                self.members@.len() == ms0.len() + added,
                added <= i,
                ms0 == old(self).members@,
                ms0.len() + names@.len() <= u64::MAX,
            decreases n - i,
        {
            let name = clone_string(&names[i]);
            if self.insert_member(name) {
                added = added + 1;
            }
            proof {
                lemma_ingest_usernames_take_step(ms0, names@, i as int);
            }
            i = i + 1;
        }
        proof {
            assert(names@.take(n as int) =~= names@);
        }
        added
    }

    /// Insert-if-absent for a whole page of pull requests, in order.
    pub fn ingest_pull_request_page(&mut self, prs: Vec<PullRequest>) -> (added: u64)
        requires
            old(self).wf(),
            old(self).pull_requests@.len() + prs@.len() <= u64::MAX,
        ensures
            final(self).wf(),
            final(self).members@ == old(self).members@,
            final(self).commits@ == old(self).commits@,
            final(self).pull_requests@ == spec_ingest_prs(old(self).pull_requests@, prs@),
            added == final(self).pull_requests@.len() - old(self).pull_requests@.len(),
    {
        let n = prs.len();
        let mut i: usize = 0;
        let mut added: u64 = 0;
        let mut rest = prs;
        let ghost ps0 = self.pull_requests@;
        let ghost all = rest@;
        while i < n
            invariant
                self.wf(),
                n == all.len(),
                i <= n,
                rest@ == all.skip(i as int),
                self.members@ == old(self).members@,
                self.commits@ == old(self).commits@,
                self.pull_requests@ == spec_ingest_prs(ps0, all.take(i as int)),
                self.pull_requests@.len() == ps0.len() + added,
                added <= i,
                ps0 == old(self).pull_requests@,
                ps0.len() + all.len() <= u64::MAX,
            decreases n - i,
        {
            let pr = rest.remove(0);
            assert(pr == all[i as int]);
            if self.insert_pull_request(pr) {
                added = added + 1;
            }
            proof {
                lemma_ingest_prs_take_step(ps0, all, i as int);
                assert(rest@ =~= all.skip(i + 1));
            }
            i = i + 1;
        }
        proof {
            assert(all.take(n as int) =~= all);
        }
        added
    }

    /// Insert-if-absent for a whole page of commits, in order.
    pub fn ingest_commit_page(&mut self, commits: Vec<Commit>) -> (added: u64)
        requires
            old(self).wf(),
            old(self).commits@.len() + commits@.len() <= u64::MAX,
        ensures
            final(self).wf(),
            final(self).members@ == old(self).members@,
            final(self).pull_requests@ == old(self).pull_requests@,
            final(self).commits@ == spec_ingest_commits(old(self).commits@, commits@),
            added == final(self).commits@.len() - old(self).commits@.len(),
    {
        let n = commits.len();
        let mut i: usize = 0;
        let mut added: u64 = 0;
        let mut rest = commits;
        let ghost cs0 = self.commits@;
        let ghost all = rest@;
        while i < n
            invariant
                self.wf(),
                n == all.len(),
                i <= n,
                rest@ == all.skip(i as int),
                self.members@ == old(self).members@,
                self.pull_requests@ == old(self).pull_requests@,
                self.commits@ == spec_ingest_commits(cs0, all.take(i as int)),
                self.commits@.len() == cs0.len() + added,
                added <= i,
                cs0 == old(self).commits@,
                cs0.len() + all.len() <= u64::MAX,
            decreases n - i,
        {
            let c = rest.remove(0);
            assert(c == all[i as int]);
            if self.insert_commit(c) {
                added = added + 1;
            }
            proof {
                lemma_ingest_commits_take_step(cs0, all, i as int);
                assert(rest@ =~= all.skip(i + 1));
            }
            i = i + 1;
        }
        proof {
            assert(all.take(n as int) =~= all);
        }
        added
    }
}

pub(crate) fn clone_string(s: &String) -> (r: String)
    ensures
        r == *s,
{
    s.clone()
}

pub open spec fn spec_insert_username(ms: Seq<Member>, username: String) -> Seq<Member> {
    if has_username(ms, username@) {
        ms
    } else {
        ms.push(Member { username })
    }
}

pub open spec fn spec_ingest_usernames(ms: Seq<Member>, names: Seq<String>) -> Seq<Member>
    decreases names.len(),
{
    if names.len() == 0 {
        ms
    } else {
        spec_insert_username(spec_ingest_usernames(ms, names.drop_last()), names.last())
    }
}

pub open spec fn spec_insert_pr(ps: Seq<PullRequest>, pr: PullRequest) -> Seq<PullRequest> {
    if has_pr_key(ps, pr.repo@, pr.pr_num) {
        ps
    } else {
        ps.push(pr)
    }
}

pub open spec fn spec_ingest_prs(ps: Seq<PullRequest>, batch: Seq<PullRequest>) -> Seq<
    PullRequest,
>
    decreases batch.len(),
{
    if batch.len() == 0 {
        ps
    } else {
        spec_insert_pr(spec_ingest_prs(ps, batch.drop_last()), batch.last())
    }
}

pub open spec fn spec_insert_commit(cs: Seq<Commit>, c: Commit) -> Seq<Commit> {
    if has_sha(cs, c.sha@) {
        cs
    } else {
        cs.push(c)
    }
}

pub open spec fn spec_ingest_commits(cs: Seq<Commit>, batch: Seq<Commit>) -> Seq<Commit>
    decreases batch.len(),
{
    if batch.len() == 0 {
        cs
    } else {
        spec_insert_commit(spec_ingest_commits(cs, batch.drop_last()), batch.last())
    }
}

proof fn lemma_ingest_usernames_take_step(ms: Seq<Member>, names: Seq<String>, i: int)
    requires
        0 <= i < names.len(),
    ensures
        spec_ingest_usernames(ms, names.take(i + 1)) == spec_insert_username(
            spec_ingest_usernames(ms, names.take(i)),
            names[i],
        ),
{
    assert(names.take(i + 1).drop_last() =~= names.take(i));
    assert(names.take(i + 1).last() == names[i]);
}

proof fn lemma_ingest_prs_take_step(ps: Seq<PullRequest>, batch: Seq<PullRequest>, i: int)
    requires
        0 <= i < batch.len(),
    ensures
        spec_ingest_prs(ps, batch.take(i + 1)) == spec_insert_pr(
            spec_ingest_prs(ps, batch.take(i)),
            batch[i],
        ),
{
    assert(batch.take(i + 1).drop_last() =~= batch.take(i));
    assert(batch.take(i + 1).last() == batch[i]);
}

proof fn lemma_ingest_commits_take_step(cs: Seq<Commit>, batch: Seq<Commit>, i: int)
    requires
        0 <= i < batch.len(),
    ensures
        spec_ingest_commits(cs, batch.take(i + 1)) == spec_insert_commit(
            spec_ingest_commits(cs, batch.take(i)),
            batch[i],
        ),
{
    assert(batch.take(i + 1).drop_last() =~= batch.take(i));
    assert(batch.take(i + 1).last() == batch[i]);
}

/// After ingesting a batch of usernames, every username of the batch is
/// present in the table.
proof fn lemma_ingest_usernames_covers(ms: Seq<Member>, names: Seq<String>)
    ensures
        forall|j: int|
            0 <= j < names.len() ==> has_username(
                spec_ingest_usernames(ms, names),
                (#[trigger] names[j])@,
            ),
    decreases names.len(),
{
    if names.len() > 0 {
        lemma_ingest_usernames_covers(ms, names.drop_last());
        let prev = spec_ingest_usernames(ms, names.drop_last());
        let full = spec_ingest_usernames(ms, names);
        assert(full == spec_insert_username(prev, names.last()));
        assert forall|j: int| 0 <= j < names.len() implies has_username(
            full,
            (#[trigger] names[j])@,
        ) by {
            if j < names.len() - 1 {
                assert(names.drop_last()[j] == names[j]);
                assert(has_username(prev, names[j]@));
                lemma_has_username_insert(prev, names.last(), names[j]@);
            } else {
                if !has_username(prev, names.last()@) {
                    let pushed = prev.push(Member { username: names.last() });
                    assert(pushed[pushed.len() - 1].username@ == names.last()@);
                }
            }
        }
    }
}

proof fn lemma_has_username_insert(ms: Seq<Member>, x: String, u: Seq<char>)
    requires
        has_username(ms, u),
    ensures
        has_username(spec_insert_username(ms, x), u),
{
    let i = choose|i: int| 0 <= i < ms.len() && (#[trigger] ms[i]).username@ == u;
    if !has_username(ms, x@) {
        assert(ms.push(Member { username: x })[i].username@ == u);
    }
}

/// Inserting a username that is already present changes nothing, so a second
/// ingestion of the same batch leaves the members table as it stood.
pub proof fn lemma_ingest_usernames_idempotent(ms: Seq<Member>, names: Seq<String>)
    ensures
        spec_ingest_usernames(spec_ingest_usernames(ms, names), names) == spec_ingest_usernames(
            ms,
            names,
        ),
{
    lemma_ingest_usernames_covers(ms, names);
    lemma_ingest_usernames_noop(spec_ingest_usernames(ms, names), names);
}

proof fn lemma_ingest_usernames_noop(ms: Seq<Member>, names: Seq<String>)
    requires
        forall|j: int| 0 <= j < names.len() ==> has_username(ms, (#[trigger] names[j])@),
    ensures
        spec_ingest_usernames(ms, names) == ms,
    decreases names.len(),
{
    if names.len() > 0 {
        assert(forall|j: int|
            0 <= j < names.drop_last().len() ==> (#[trigger] names.drop_last()[j]) == names[j]);
        lemma_ingest_usernames_noop(ms, names.drop_last());
    }
}

proof fn lemma_ingest_prs_covers(ps: Seq<PullRequest>, batch: Seq<PullRequest>)
    ensures
        forall|j: int|
            0 <= j < batch.len() ==> has_pr_key(
                spec_ingest_prs(ps, batch),
                (#[trigger] batch[j]).repo@,
                batch[j].pr_num,
            ),
    decreases batch.len(),
{
    if batch.len() > 0 {
        lemma_ingest_prs_covers(ps, batch.drop_last());
        let prev = spec_ingest_prs(ps, batch.drop_last());
        let full = spec_ingest_prs(ps, batch);
        assert(full == spec_insert_pr(prev, batch.last()));
        assert forall|j: int| 0 <= j < batch.len() implies has_pr_key(
            full,
            (#[trigger] batch[j]).repo@,
            batch[j].pr_num,
        ) by {
            if j < batch.len() - 1 {
                assert(batch.drop_last()[j] == batch[j]);
                assert(has_pr_key(prev, batch[j].repo@, batch[j].pr_num));
                lemma_has_pr_key_insert(prev, batch.last(), batch[j].repo@, batch[j].pr_num);
            } else {
                if !has_pr_key(prev, batch.last().repo@, batch.last().pr_num) {
                    let pushed = prev.push(batch.last());
                    assert(pushed[pushed.len() - 1].repo@ == batch.last().repo@);
                }
            }
        }
    }
}

proof fn lemma_has_pr_key_insert(ps: Seq<PullRequest>, x: PullRequest, repo: Seq<char>, num: u64)
    requires
        has_pr_key(ps, repo, num),
    ensures
        has_pr_key(spec_insert_pr(ps, x), repo, num),
{
    let i = choose|i: int|
        0 <= i < ps.len() && (#[trigger] ps[i]).repo@ == repo && ps[i].pr_num == num;
    if !has_pr_key(ps, x.repo@, x.pr_num) {
        assert(ps.push(x)[i].repo@ == repo);
    }
}

/// Re-ingesting the same batch of pull requests leaves the table unchanged.
pub proof fn lemma_ingest_prs_idempotent(ps: Seq<PullRequest>, batch: Seq<PullRequest>)
    ensures
        spec_ingest_prs(spec_ingest_prs(ps, batch), batch) == spec_ingest_prs(ps, batch),
{
    lemma_ingest_prs_covers(ps, batch);
    lemma_ingest_prs_noop(spec_ingest_prs(ps, batch), batch);
}

proof fn lemma_ingest_prs_noop(ps: Seq<PullRequest>, batch: Seq<PullRequest>)
    requires
        forall|j: int|
            0 <= j < batch.len() ==> has_pr_key(ps, (#[trigger] batch[j]).repo@, batch[j].pr_num),
    ensures
        spec_ingest_prs(ps, batch) == ps,
    decreases batch.len(),
{
    if batch.len() > 0 {
        assert(forall|j: int|
            0 <= j < batch.drop_last().len() ==> (#[trigger] batch.drop_last()[j]) == batch[j]);
        lemma_ingest_prs_noop(ps, batch.drop_last());
    }
}

proof fn lemma_ingest_commits_covers(cs: Seq<Commit>, batch: Seq<Commit>)
    ensures
        forall|j: int|
            0 <= j < batch.len() ==> has_sha(
                spec_ingest_commits(cs, batch),
                (#[trigger] batch[j]).sha@,
            ),
    decreases batch.len(),
{
    if batch.len() > 0 {
        lemma_ingest_commits_covers(cs, batch.drop_last());
        let prev = spec_ingest_commits(cs, batch.drop_last());
        let full = spec_ingest_commits(cs, batch);
        assert(full == spec_insert_commit(prev, batch.last()));
        assert forall|j: int| 0 <= j < batch.len() implies has_sha(
            full,
            (#[trigger] batch[j]).sha@,
        ) by {
            if j < batch.len() - 1 {
                assert(batch.drop_last()[j] == batch[j]);
                assert(has_sha(prev, batch[j].sha@));
                lemma_has_sha_insert(prev, batch.last(), batch[j].sha@);
            } else {
                if !has_sha(prev, batch.last().sha@) {
                    let pushed = prev.push(batch.last());
                    assert(pushed[pushed.len() - 1].sha@ == batch.last().sha@);
                }
            }
        }
    }
}

proof fn lemma_has_sha_insert(cs: Seq<Commit>, x: Commit, sha: Seq<char>)
    requires
        has_sha(cs, sha),
    ensures
        has_sha(spec_insert_commit(cs, x), sha),
{
    let i = choose|i: int| 0 <= i < cs.len() && (#[trigger] cs[i]).sha@ == sha;
    if !has_sha(cs, x.sha@) {
        assert(cs.push(x)[i].sha@ == sha);
    }
}

/// Re-ingesting the same batch of commits leaves the table unchanged.
pub proof fn lemma_ingest_commits_idempotent(cs: Seq<Commit>, batch: Seq<Commit>)
    ensures
        spec_ingest_commits(spec_ingest_commits(cs, batch), batch) == spec_ingest_commits(
            cs,
            batch,
        ),
{
    lemma_ingest_commits_covers(cs, batch);
    lemma_ingest_commits_noop(spec_ingest_commits(cs, batch), batch);
}

proof fn lemma_ingest_commits_noop(cs: Seq<Commit>, batch: Seq<Commit>)
    requires
        forall|j: int| 0 <= j < batch.len() ==> has_sha(cs, (#[trigger] batch[j]).sha@),
    ensures
        spec_ingest_commits(cs, batch) == cs,
    decreases batch.len(),
{
    if batch.len() > 0 {
        assert(forall|j: int|
            0 <= j < batch.drop_last().len() ==> (#[trigger] batch.drop_last()[j]) == batch[j]);
        lemma_ingest_commits_noop(cs, batch.drop_last());
    }
}

/// Why a fetched pull request or commit was rejected during normalization.
#[derive(Clone, Copy, PartialEq, Eq, Structural, Debug)]
pub enum IngestError {
    MissingAuthor,
    MissingTitle,
    MissingCreatedAt,
    MissingCommitDate,
}

/// A pull request as fetched must carry an author, a title and a creation
/// timestamp; a missing field is a hard error. `merged_at` stays optional:
/// `None` records an unmerged pull request.
pub fn normalize_pull_request(
    repo: String,
    pr_num: u64,
    username: Option<String>,
    title: Option<String>,
    created_at: Option<String>,
    merged_at: Option<String>,
) -> (r: Result<PullRequest, IngestError>)
    ensures
        username is None ==> r == Result::<PullRequest, IngestError>::Err(
            IngestError::MissingAuthor,
        ),
        username is Some && title is None ==> r == Result::<PullRequest, IngestError>::Err(
            IngestError::MissingTitle,
        ),
        username is Some && title is Some && created_at is None ==> r == Result::<
            PullRequest,
            IngestError,
        >::Err(IngestError::MissingCreatedAt),
        username is Some && title is Some && created_at is Some ==> r == Result::<
            PullRequest,
            IngestError,
        >::Ok(
            (PullRequest {
                repo,
                pr_num,
                username: username.unwrap(),
                title: title.unwrap(),
                created_at: created_at.unwrap(),
                merged_at,
            }),
        ),
{
    let username = match username {
        Some(u) => u,
        None => {
            return Err(IngestError::MissingAuthor);
        },
    };
    let title = match title {
        Some(t) => t,
        None => {
            return Err(IngestError::MissingTitle);
        },
    };
    let created_at = match created_at {
        Some(c) => c,
        None => {
            return Err(IngestError::MissingCreatedAt);
        },
    };
    Ok(PullRequest { repo, pr_num, username, title, created_at, merged_at })
}

/// A commit must carry a committer date; the author may be absent and is
/// then kept as `None` (displayed as "n/a" by the renderer).
pub fn normalize_commit(
    repo: String,
    sha: String,
    author: Option<String>,
    committed_at: Option<String>,
    message: String,
    url: String,
) -> (r: Result<Commit, IngestError>)
    ensures
        committed_at is None ==> r == Result::<Commit, IngestError>::Err(
            IngestError::MissingCommitDate,
        ),
        committed_at is Some ==> r == Result::<Commit, IngestError>::Ok(
            (Commit { repo, sha, author, committed_at: committed_at.unwrap(), message, url }),
        ),
{
    let committed_at = match committed_at {
        Some(c) => c,
        None => {
            return Err(IngestError::MissingCommitDate);
        },
    };
    Ok(Commit { repo, sha, author, committed_at, message, url })
}

} // verus!
