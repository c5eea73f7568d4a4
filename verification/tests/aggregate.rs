use orgstats::aggregate::{
    first_time_contributions, merged_pull_requests, monthly_pull_requests, summary_stats,
};
use orgstats::model::{Member, PullRequest};

fn pr(repo: &str, num: u64, user: &str, merged: Option<&str>) -> PullRequest {
    PullRequest {
        repo: repo.to_string(),
        pr_num: num,
        username: user.to_string(),
        title: format!("Change {num}"),
        created_at: "2024-01-01T00:00:00+00:00".to_string(),
        merged_at: merged.map(|m| m.to_string()),
    }
}

fn member(name: &str) -> Member {
    Member { username: name.to_string() }
}

fn sample() -> (Vec<PullRequest>, Vec<Member>) {
    let prs = vec![
        pr("lila", 1, "alice", Some("2023-11-01T00:00:00+00:00")),
        pr("lila", 2, "alice", Some("2024-01-10T12:00:00+00:00")),
        pr("mobile", 3, "alice", Some("2024-02-05T09:00:00+00:00")),
        pr("lila", 4, "bob", Some("2024-02-10T08:00:00+00:00")),
        pr("lila", 5, "bob", None),
        pr("lila", 6, "carol", Some("2024-02-15T10:00:00+00:00")),
        pr("lila", 7, "erin", Some("2023-12-01T00:00:00+00:00")),
    ];
    let members = vec![member("alice"), member("bob")];
    (prs, members)
}

const SINCE: &str = "2024-01-01";
const UNTIL: &str = "2025-01-01";

#[test]
fn bucket_completeness_monthly() {
    let (prs, _) = sample();
    let rows = first_time_contributions(&prs, SINCE, UNTIL, 8);
    assert_eq!(rows.len(), 2);
    assert_eq!(rows[0].month, "2024-01");
    assert_eq!(rows[0].count, 1);
    assert_eq!(rows[1].month, "2024-02");
    assert_eq!(rows[1].count, 2);
    // strictly ascending buckets, counts sum to the distinct in-range authors
    assert!(rows[0].month < rows[1].month);
    let total: u64 = rows.iter().map(|r| r.count).sum();
    assert_eq!(total, 3);
}

#[test]
fn bucket_completeness_yearly() {
    let (prs, _) = sample();
    let rows = first_time_contributions(&prs, SINCE, UNTIL, 5);
    assert_eq!(rows.len(), 1);
    assert_eq!(rows[0].month, "2024");
    assert_eq!(rows[0].count, 3);
}

#[test]
fn first_time_empty_store() {
    let rows = first_time_contributions(&Vec::new(), SINCE, UNTIL, 8);
    assert!(rows.is_empty());
}

#[test]
fn membership_partition() {
    let (prs, members) = sample();
    let rows = monthly_pull_requests(&prs, &members, SINCE, UNTIL);
    assert_eq!(rows.len(), 2);
    assert_eq!(rows[0].month, "2024-01");
    assert_eq!(rows[0].by_members, 1);
    assert_eq!(rows[0].by_non_members, 0);
    assert_eq!(rows[0].total, 1);
    assert_eq!(rows[1].month, "2024-02");
    assert_eq!(rows[1].by_members, 2);
    assert_eq!(rows[1].by_non_members, 1);
    assert_eq!(rows[1].total, 3);
    for row in &rows {
        assert_eq!(row.by_members + row.by_non_members, row.total);
    }
}

#[test]
fn summary_counts() {
    let (prs, members) = sample();
    let s = summary_stats(&prs, &members, SINCE, UNTIL);
    assert_eq!(s.by_members, 3);
    assert_eq!(s.by_non_members, 1);
    assert_eq!(s.total, 4);
    assert_eq!(s.by_members + s.by_non_members, s.total);
    assert_eq!(s.contributors, 3);
    assert_eq!(s.repos, 2);
    // alice has a merge before the range; bob has an unmerged pull request,
    // whose empty stored timestamp sorts below the range start: only carol
    // counts as a first-time contributor.
    assert_eq!(s.new_contributors, 1);
}

#[test]
fn changelog_selection_keeps_order() {
    let (prs, members) = sample();
    let by_members = merged_pull_requests(&prs, &members, SINCE, UNTIL, true);
    let nums: Vec<u64> = by_members.iter().map(|p| p.pr_num).collect();
    assert_eq!(nums, vec![2, 3, 4]);
    let by_others = merged_pull_requests(&prs, &members, SINCE, UNTIL, false);
    let nums: Vec<u64> = by_others.iter().map(|p| p.pr_num).collect();
    assert_eq!(nums, vec![6]);
}

#[test]
fn unmerged_is_out_of_range() {
    let (prs, members) = sample();
    let rows = monthly_pull_requests(&prs, &members, SINCE, UNTIL);
    let total: u64 = rows.iter().map(|r| r.total).sum();
    // the unmerged pull request (empty timestamp) is never in a bucket
    assert_eq!(total, 4);
}
