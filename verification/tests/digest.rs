use orgstats::digest::curated_commits;
use orgstats::model::Commit;

fn commit(sha: &str, author: Option<&str>, message: &str) -> Commit {
    Commit {
        repo: "lila".to_string(),
        sha: sha.to_string(),
        author: author.map(|a| a.to_string()),
        committed_at: "2024-03-04T10:20:30+00:00".to_string(),
        message: message.to_string(),
        url: format!("https://example.org/c/{sha}"),
    }
}

#[test]
fn merge_commits_never_appear() {
    let commits = vec![
        commit("aaa0000", Some("ornicar"), "Merge branch 'master'"),
        commit("bbb0000", Some("ornicar"), "fix clock drift"),
    ];
    let digest = curated_commits(&commits);
    assert_eq!(digest.len(), 1);
    assert_eq!(digest[0].sha, "bbb0000");
}

#[test]
fn outside_authors_never_appear() {
    let commits = vec![
        commit("ccc0000", Some("mallory"), "useful work"),
        commit("ddd0000", None, "anonymous work"),
        commit("eee0000", Some("schlawg"), "useful work"),
    ];
    let digest = curated_commits(&commits);
    assert_eq!(digest.len(), 1);
    assert_eq!(digest[0].sha, "eee0000");
}

#[test]
fn routine_messages_are_filtered() {
    let commits = vec![
        commit("a000001", Some("niklasf"), "New Crowdin updates: sync"),
        commit("a000002", Some("niklasf"), "New translations via tool"),
        commit("a000003", Some("niklasf"), "code golf the parser"),
        commit("a000004", Some("niklasf"), "tweak colors"),
        commit("a000005", Some("niklasf"), "refactor module layout"),
        commit("a000006", Some("niklasf"), "add puzzle mode"),
    ];
    let digest = curated_commits(&commits);
    assert_eq!(digest.len(), 1);
    assert_eq!(digest[0].sha, "a000006");
}

#[test]
fn order_is_kept() {
    let commits = vec![
        commit("c000001", Some("fitztrev"), "first"),
        commit("c000002", Some("kraktus"), "second"),
        commit("c000003", Some("fituby"), "third"),
    ];
    let digest = curated_commits(&commits);
    let shas: Vec<&str> = digest.iter().map(|c| c.sha.as_str()).collect();
    assert_eq!(shas, vec!["c000001", "c000002", "c000003"]);
}
