use orgstats::aggregate::{MonthlyNewContributors, MonthlyPullRequests};
use orgstats::model::{Commit, PullRequest};
use orgstats::render::{
    render_changelog, render_changelog_line, render_commit_digest, render_commit_line,
    render_contributors_json, render_volume_json,
};
use orgstats::strings::capitalize_first_letter;

fn pr(repo: &str, num: u64, user: &str, title: &str) -> PullRequest {
    PullRequest {
        repo: repo.to_string(),
        pr_num: num,
        username: user.to_string(),
        title: title.to_string(),
        created_at: "2024-01-01T00:00:00+00:00".to_string(),
        merged_at: Some("2024-01-02T00:00:00+00:00".to_string()),
    }
}

#[test]
fn contributors_json_bytes() {
    let rows = vec![
        MonthlyNewContributors { month: "2024-01".to_string(), count: 1 },
        MonthlyNewContributors { month: "2024-02".to_string(), count: 12 },
    ];
    let expected = "[\n  {\n    \"month\": \"2024-01\",\n    \"count\": 1\n  },\n  {\n    \"month\": \"2024-02\",\n    \"count\": 12\n  }\n]";
    assert_eq!(render_contributors_json(&rows), expected);
    // re-rendering the same rows is byte-identical
    assert_eq!(render_contributors_json(&rows), render_contributors_json(&rows));
}

#[test]
fn contributors_json_empty() {
    assert_eq!(render_contributors_json(&Vec::new()), "[]");
}

#[test]
fn volume_json_bytes() {
    let rows = vec![MonthlyPullRequests {
        month: "2024-03".to_string(),
        by_members: 2,
        by_non_members: 3,
        total: 5,
    }];
    let expected = "[\n  {\n    \"month\": \"2024-03\",\n    \"by_members\": 2,\n    \"by_non_members\": 3,\n    \"total\": 5\n  }\n]";
    assert_eq!(render_volume_json(&rows), expected);
    assert_eq!(render_volume_json(&rows), render_volume_json(&rows));
}

#[test]
fn json_escapes_strings() {
    let rows = vec![MonthlyNewContributors { month: "a\"b\\c\nd".to_string(), count: 0 }];
    let expected = "[\n  {\n    \"month\": \"a\\\"b\\\\c\\nd\",\n    \"count\": 0\n  }\n]";
    assert_eq!(render_contributors_json(&rows), expected);
}

#[test]
fn changelog_line_api_repo() {
    let line = render_changelog_line(&pr("api", 42, "user", "fix thing"));
    assert_eq!(
        line,
        "-   API Docs: Fix thing [#42](https://github.com/lichess-org/api/pull/42) (thanks [user](https://github.com/user))\n"
    );
}

#[test]
fn changelog_line_core_repo_has_no_prefix() {
    let line = render_changelog_line(&pr("lila", 7, "dev", "improve search"));
    assert_eq!(
        line,
        "-   Improve search [#7](https://github.com/lichess-org/lila/pull/7) (thanks [dev](https://github.com/dev))\n"
    );
    let line = render_changelog_line(&pr("lila-ws", 8, "dev", "reconnect"));
    assert!(line.starts_with("-   Reconnect [#8]"));
    let line = render_changelog_line(&pr("lifat", 9, "dev", "assets"));
    assert!(line.starts_with("-   Assets [#9]"));
}

#[test]
fn changelog_line_other_repo_is_capitalized() {
    let line = render_changelog_line(&pr("mobile", 3, "dev", "new board"));
    assert_eq!(
        line,
        "-   Mobile: New board [#3](https://github.com/lichess-org/mobile/pull/3) (thanks [dev](https://github.com/dev))\n"
    );
}

#[test]
fn changelog_joins_lines_in_order() {
    let prs = vec![pr("lila", 1, "a", "one"), pr("lila", 2, "b", "two")];
    let text = render_changelog(&prs);
    let expected = format!(
        "{}{}",
        render_changelog_line(&prs[0]),
        render_changelog_line(&prs[1])
    );
    assert_eq!(text, expected);
}

#[test]
fn commit_line_format() {
    let c = Commit {
        repo: "lila".to_string(),
        sha: "0123456789abcdef".to_string(),
        author: Some("ornicar".to_string()),
        committed_at: "2024-03-04T10:20:30+00:00".to_string(),
        message: "fix a\nmulti-line message".to_string(),
        url: "https://example.org/c/0123456".to_string(),
    };
    let line = render_commit_line(&c);
    assert_eq!(
        line,
        "-   2024-03-04 - lila ornicar - fix a multi-line message [0123456](https://example.org/c/0123456)\n"
    );
}

#[test]
fn commit_line_unknown_author() {
    let c = Commit {
        repo: "lila".to_string(),
        sha: "abcdef012345".to_string(),
        author: None,
        committed_at: "2024-03-04T10:20:30+00:00".to_string(),
        message: "work".to_string(),
        url: "https://example.org/c/abcdef0".to_string(),
    };
    let line = render_commit_line(&c);
    assert_eq!(
        line,
        "-   2024-03-04 - lila n/a - work [abcdef0](https://example.org/c/abcdef0)\n"
    );
}

#[test]
fn commit_digest_joins_lines() {
    let c1 = Commit {
        repo: "lila".to_string(),
        sha: "1111111222".to_string(),
        author: Some("ornicar".to_string()),
        committed_at: "2024-03-04T10:20:30+00:00".to_string(),
        message: "first".to_string(),
        url: "u1".to_string(),
    };
    let c2 = Commit {
        repo: "mobile".to_string(),
        sha: "2222222333".to_string(),
        author: Some("veloce".to_string()),
        committed_at: "2024-03-05T10:20:30+00:00".to_string(),
        message: "second".to_string(),
        url: "u2".to_string(),
    };
    let commits = vec![c1, c2];
    let text = render_commit_digest(&commits);
    let expected = format!(
        "{}{}",
        render_commit_line(&commits[0]),
        render_commit_line(&commits[1])
    );
    assert_eq!(text, expected);
}

#[test]
fn contributions_filenames() {
    assert_eq!(
        orgstats::render::contributions_filename(5),
        "web/results_first_time_contributions_5.json"
    );
    assert_eq!(
        orgstats::render::contributions_filename(8),
        "web/results_first_time_contributions_8.json"
    );
}

#[test]
fn capitalization_changes_first_letter() {
    assert_eq!(capitalize_first_letter("fix thing"), "Fix thing");
    assert_eq!(capitalize_first_letter(""), "");
    assert_eq!(capitalize_first_letter("Already"), "Already");
    assert_eq!(capitalize_first_letter("ärger"), "Ärger");
}
