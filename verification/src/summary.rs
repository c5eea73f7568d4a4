//! The summary stage's text artifacts: the operator-facing summary block,
//! the three narrative prompts derived from it, and the decision whether the
//! narrative stage runs at all. Without a text-completion credential the
//! stage is skipped with a notice, never an error.

use crate::aggregate::SummaryStats;
use crate::strings::dec_of;
use crate::strings::u64_to_string;
use vstd::prelude::*;
use vstd::string::*;

verus! {

/// The summary block printed for a date range.
pub open spec fn summary_text_spec(
    org: Seq<char>,
    since: Seq<char>,
    until: Seq<char>,
    s: SummaryStats,
) -> Seq<char> {
    "```\n        "@ + org + " Github Summary for "@ + since + " to "@ + until
        + "\n        ---------------------------------------------------\n\n        Total merged pull requests: "@
        + dec_of(s.total as int) + "\n        Total repos with pull requests: "@ + dec_of(
        s.repos as int,
    ) + "\n        Total contributors: "@ + dec_of(s.contributors as int)
        + "\n        First time contributors: "@ + dec_of(s.new_contributors as int)
        + "\n\n        Merged pull requests (from team members): "@ + dec_of(s.by_members as int)
        + "\n        Merged pull requests (from community members): "@ + dec_of(
        s.by_non_members as int,
    ) + "```"@
}

#[verifier::rlimit(60)]
pub fn summary_text(org: &str, since: &str, until: &str, s: &SummaryStats) -> (r: String)
    ensures
        r@ == summary_text_spec(org@, since@, until@, *s),
{
    let mut out = String::new();
    out.append("```\n        ");
    out.append(org);
    out.append(" Github Summary for ");
    out.append(since);
    out.append(" to ");
    out.append(until);
    out.append("\n        ---------------------------------------------------\n\n        Total merged pull requests: ");
    let num = u64_to_string(s.total);
    out.append(num.as_str());
    out.append("\n        Total repos with pull requests: ");
    let num = u64_to_string(s.repos);
    out.append(num.as_str());
    out.append("\n        Total contributors: ");
    let num = u64_to_string(s.contributors);
    out.append(num.as_str());
    out.append("\n        First time contributors: ");
    let num = u64_to_string(s.new_contributors);
    out.append(num.as_str());
    out.append("\n\n        Merged pull requests (from team members): ");
    let num = u64_to_string(s.by_members);
    out.append(num.as_str());
    out.append("\n        Merged pull requests (from community members): ");
    let num = u64_to_string(s.by_non_members);
    out.append(num.as_str());
    out.append("```");
    proof {
        assert(out@ =~= summary_text_spec(org@, since@, until@, *s));
    }
    out
}

pub open spec fn blog_prompt_spec(summary: Seq<char>) -> Seq<char> {
    "Write a short paragraph summarizing this data for the intro of a blog post: "@ + summary
}

pub open spec fn tweet_prompt_spec(summary: Seq<char>) -> Seq<char> {
    "Write 5 ideas for Twitter posts about this summary. Do not use emojis or hash tags. "@
        + summary
}

pub open spec fn feed_prompt_spec(summary: Seq<char>) -> Seq<char> {
    "Write 5 ideas for short blurbs about this summary. Do not use emojis or hash tags. Include a markdown link for reading more to https://lichess.org/changelog : "@
        + summary
}

/// The prompt for the blog-intro paragraph.
pub fn blog_prompt(summary: &str) -> (r: String)
    ensures
        r@ == blog_prompt_spec(summary@),
{
    let mut out = String::new();
    out.append("Write a short paragraph summarizing this data for the intro of a blog post: ");
    out.append(summary);
    out
}

/// The prompt for the social-post ideas.
pub fn tweet_prompt(summary: &str) -> (r: String)
    ensures
        r@ == tweet_prompt_spec(summary@),
{
    let mut out = String::new();
    out.append(
        "Write 5 ideas for Twitter posts about this summary. Do not use emojis or hash tags. ",
    );
    out.append(summary);
    out
}

/// The prompt for the feed blurbs.
pub fn feed_prompt(summary: &str) -> (r: String)
    ensures
        r@ == feed_prompt_spec(summary@),
{
    let mut out = String::new();
    out.append(
        "Write 5 ideas for short blurbs about this summary. Do not use emojis or hash tags. Include a markdown link for reading more to https://lichess.org/changelog : ",
    );
    out.append(summary);
    out
}

/// What the narrative stage does with a prompt.
#[derive(Clone, Copy, PartialEq, Eq, Structural, Debug)]
pub enum NarrativeAction {
    /// Send the prompt to the text-completion service.
    Send,
    /// Print the skip notice and go on without an error.
    Skip,
}

/// The narrative stage runs only when the text-completion credential is
/// configured; without it the stage is a skip, never a failure.
pub fn narrative_action(has_credential: bool) -> (r: NarrativeAction)
    ensures
        r == (if has_credential {
            NarrativeAction::Send
        } else {
            NarrativeAction::Skip
        }),
{
    if has_credential {
        NarrativeAction::Send
    } else {
        NarrativeAction::Skip
    }
}

/// The notice printed when the narrative stage is skipped.
pub fn skip_notice() -> (r: String)
    ensures
        r@ == "Skipping OpenAI API call until OPENAI_API_KEY is set"@,
{
    let mut out = String::new();
    out.append("Skipping OpenAI API call until OPENAI_API_KEY is set");
    out
}

} // verus!
