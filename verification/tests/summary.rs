use orgstats::aggregate::SummaryStats;
use orgstats::summary::{
    blog_prompt, feed_prompt, narrative_action, skip_notice, summary_text, tweet_prompt,
    NarrativeAction,
};

fn stats() -> SummaryStats {
    SummaryStats {
        by_members: 30,
        by_non_members: 12,
        total: 42,
        contributors: 17,
        repos: 4,
        new_contributors: 5,
    }
}

#[test]
fn summary_block_format() {
    let text = summary_text("lichess-org", "2024-01-01", "2024-02-01", &stats());
    let expected = "```\n        lichess-org Github Summary for 2024-01-01 to 2024-02-01\n        ---------------------------------------------------\n\n        Total merged pull requests: 42\n        Total repos with pull requests: 4\n        Total contributors: 17\n        First time contributors: 5\n\n        Merged pull requests (from team members): 30\n        Merged pull requests (from community members): 12```";
    assert_eq!(text, expected);
}

#[test]
fn prompts_embed_summary() {
    let p = blog_prompt("SUMMARY");
    assert_eq!(
        p,
        "Write a short paragraph summarizing this data for the intro of a blog post: SUMMARY"
    );
    let p = tweet_prompt("SUMMARY");
    assert_eq!(
        p,
        "Write 5 ideas for Twitter posts about this summary. Do not use emojis or hash tags. SUMMARY"
    );
    let p = feed_prompt("SUMMARY");
    assert_eq!(
        p,
        "Write 5 ideas for short blurbs about this summary. Do not use emojis or hash tags. Include a markdown link for reading more to https://lichess.org/changelog : SUMMARY"
    );
}

#[test]
fn unconfigured_narrative_skips() {
    // without the credential the stage must not fail: it skips with a notice
    assert_eq!(narrative_action(false), NarrativeAction::Skip);
    assert_eq!(
        skip_notice(),
        "Skipping OpenAI API call until OPENAI_API_KEY is set"
    );
}

#[test]
fn configured_narrative_sends() {
    assert_eq!(narrative_action(true), NarrativeAction::Send);
}
