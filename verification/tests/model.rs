use orgstats::model::{normalize_commit, normalize_pull_request, IngestError, PullRequest, Store};

fn pr(repo: &str, num: u64, user: &str, title: &str, created: &str, merged: Option<&str>) -> PullRequest {
    PullRequest {
        repo: repo.to_string(),
        pr_num: num,
        username: user.to_string(),
        title: title.to_string(),
        created_at: created.to_string(),
        merged_at: merged.map(|m| m.to_string()),
    }
}

fn sample_members() -> Vec<String> {
    vec!["alice".to_string(), "bob".to_string(), "alice".to_string()]
}

fn sample_prs() -> Vec<PullRequest> {
    vec![
        pr("lila", 1, "alice", "One", "2024-01-01T00:00:00+00:00", Some("2024-01-02T00:00:00+00:00")),
        pr("lila", 2, "carol", "Two", "2024-01-03T00:00:00+00:00", None),
        pr("lila", 1, "alice", "Duplicate", "2024-01-01T00:00:00+00:00", None),
    ]
}

fn sample_commits() -> Vec<orgstats::model::Commit> {
    vec![
        orgstats::model::Commit {
            repo: "lila".to_string(),
            sha: "abc123def456".to_string(),
            author: Some("alice".to_string()),
            committed_at: "2024-01-05T10:00:00+00:00".to_string(),
            message: "fix engine".to_string(),
            url: "https://example.org/c/abc123def456".to_string(),
        },
        orgstats::model::Commit {
            repo: "lila".to_string(),
            sha: "abc123def456".to_string(),
            author: Some("alice".to_string()),
            committed_at: "2024-01-05T10:00:00+00:00".to_string(),
            message: "fix engine".to_string(),
            url: "https://example.org/c/abc123def456".to_string(),
        },
    ]
}

#[test]
fn idempotent_ingestion() {
    let mut store = Store::new();
    store.ingest_member_page(sample_members());
    store.ingest_pull_request_page(sample_prs());
    store.ingest_commit_page(sample_commits());
    let members_once = store.members.len();
    let prs_once = store.pull_requests.len();
    let commits_once = store.commits.len();

    store.ingest_member_page(sample_members());
    store.ingest_pull_request_page(sample_prs());
    store.ingest_commit_page(sample_commits());
    assert_eq!(store.members.len(), members_once);
    assert_eq!(store.pull_requests.len(), prs_once);
    assert_eq!(store.commits.len(), commits_once);
}

#[test]
fn natural_key_dedup_counts() {
    let mut store = Store::new();
    let added = store.ingest_member_page(sample_members());
    assert_eq!(added, 2);
    let added = store.ingest_pull_request_page(sample_prs());
    assert_eq!(added, 2);
    let added = store.ingest_commit_page(sample_commits());
    assert_eq!(added, 1);
}

#[test]
fn first_observation_is_frozen() {
    let mut store = Store::new();
    store.ingest_pull_request_page(sample_prs());
    // The duplicate (lila, 1) row must not overwrite the first observation.
    assert_eq!(store.pull_requests[0].title, "One");
    assert_eq!(
        store.pull_requests[0].merged_at.as_deref(),
        Some("2024-01-02T00:00:00+00:00")
    );
}

#[test]
fn insert_member_reports_newness() {
    let mut store = Store::new();
    assert!(store.insert_member("alice".to_string()));
    assert!(!store.insert_member("alice".to_string()));
    assert_eq!(store.members.len(), 1);
}

#[test]
fn normalize_pull_request_requires_fields() {
    let err = normalize_pull_request(
        "lila".to_string(),
        9,
        None,
        Some("t".to_string()),
        Some("c".to_string()),
        None,
    );
    assert!(matches!(err, Err(IngestError::MissingAuthor)));
    let err = normalize_pull_request(
        "lila".to_string(),
        9,
        Some("u".to_string()),
        None,
        Some("c".to_string()),
        None,
    );
    assert!(matches!(err, Err(IngestError::MissingTitle)));
    let err = normalize_pull_request(
        "lila".to_string(),
        9,
        Some("u".to_string()),
        Some("t".to_string()),
        None,
        None,
    );
    assert!(matches!(err, Err(IngestError::MissingCreatedAt)));
    let ok = normalize_pull_request(
        "lila".to_string(),
        9,
        Some("u".to_string()),
        Some("t".to_string()),
        Some("c".to_string()),
        Some("m".to_string()),
    )
    .unwrap();
    assert_eq!(ok.repo, "lila");
    assert_eq!(ok.pr_num, 9);
    assert_eq!(ok.username, "u");
    assert_eq!(ok.title, "t");
    assert_eq!(ok.created_at, "c");
    assert_eq!(ok.merged_at.as_deref(), Some("m"));
}

#[test]
fn normalize_commit_requires_date() {
    let err = normalize_commit(
        "lila".to_string(),
        "sha".to_string(),
        None,
        None,
        "msg".to_string(),
        "url".to_string(),
    );
    assert!(matches!(err, Err(IngestError::MissingCommitDate)));
    let ok = normalize_commit(
        "lila".to_string(),
        "sha".to_string(),
        None,
        Some("2024-01-01T00:00:00+00:00".to_string()),
        "msg".to_string(),
        "url".to_string(),
    )
    .unwrap();
    assert!(ok.author.is_none());
    assert_eq!(ok.committed_at, "2024-01-01T00:00:00+00:00");
}
