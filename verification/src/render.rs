//! The report renderer: pretty-printed JSON arrays for the bucketed counts,
//! a Markdown changelog for merged pull requests, and a Markdown digest for
//! curated commits. Every renderer's output is pinned down character for
//! character as a function of its input, so re-rendering the same rows gives
//! byte-identical artifacts, with field and element order preserved.

use crate::aggregate::MonthlyNewContributors;
use crate::aggregate::MonthlyPullRequests;
use crate::model::Commit;
use crate::model::PullRequest;
use crate::strings::capitalize_first_letter;
use crate::strings::capitalized;
use crate::strings::dec_of;
use crate::strings::flatten_newlines;
use crate::strings::prefix_of;
use crate::strings::push_char;
use crate::strings::replace_newlines;
use crate::strings::str_eq;
use crate::strings::str_prefix;
use crate::strings::u64_to_string;
use vstd::prelude::*;
use vstd::string::*;

verus! {

/// The hexadecimal digit character for `d`.
pub open spec fn hex_digit(d: int) -> char {
    if d < 10 {
        crate::strings::dec_digit(d)
    } else if d == 10 {
        'a'
    } else if d == 11 {
        'b'
    } else if d == 12 {
        'c'
    } else if d == 13 {
        'd'
    } else if d == 14 {
        'e'
    } else {
        'f'
    }
}

/// How a character is written inside a JSON string: quote and backslash are
/// escaped, control characters get their short escapes or a `\u00XX` form,
/// everything else stands as itself.
pub open spec fn json_escape_char(c: char) -> Seq<char> {
    if c == '"' {
        "\\\""@
    } else if c == '\\' {
        "\\\\"@
    } else if c == '\n' {
        "\\n"@
    } else if c == '\r' {
        "\\r"@
    } else if c == '\t' {
        "\\t"@
    } else if c as u32 == 8 {
        "\\b"@
    } else if c as u32 == 12 {
        "\\f"@
    } else if (c as u32) < 32 {
        "\\u00"@ + seq![hex_digit((c as u32) as int / 16), hex_digit((c as u32) as int % 16)]
    } else {
        seq![c]
    }
}

pub open spec fn json_escaped_upto(s: Seq<char>, k: int) -> Seq<char>
    decreases k,
{
    if k <= 0 {
        Seq::<char>::empty()
    } else {
        json_escaped_upto(s, k - 1) + if 0 <= k - 1 < s.len() {
            json_escape_char(s[k - 1])
        } else {
            Seq::<char>::empty()
        }
    }
}

/// The JSON-escaped form of a string's characters.
pub open spec fn json_escaped(s: Seq<char>) -> Seq<char> {
    json_escaped_upto(s, s.len() as int)
}

fn hex_digit_exec(d: u32) -> (r: char)
    requires
        d < 16,
    ensures
        r == hex_digit(d as int),
{
    if d < 10 {
        crate::strings::digit_char(d as u64)
    } else if d == 10 {
        'a'
    } else if d == 11 {
        'b'
    } else if d == 12 {
        'c'
    } else if d == 13 {
        'd'
    } else if d == 14 {
        'e'
    } else {
        'f'
    }
}

fn append_json_escaped(out: &mut String, s: &str)
    ensures
        final(out)@ == old(out)@ + json_escaped(s@),
{
    let len = s.unicode_len();
    let mut i: usize = 0;
    while i < len
        invariant
            len == s@.len(),
            i <= len,
            out@ == old(out)@ + json_escaped_upto(s@, i as int),
        decreases len - i,
    {
        let c = s.get_char(i);
        if c == '"' {
            out.append("\\\"");
        } else if c == '\\' {
            out.append("\\\\");
        } else if c == '\n' {
            out.append("\\n");
        } else if c == '\r' {
            out.append("\\r");
        } else if c == '\t' {
            out.append("\\t");
        } else if c as u32 == 8 {
            out.append("\\b");
        } else if c as u32 == 12 {
            out.append("\\f");
        } else if (c as u32) < 32 {
            out.append("\\u00");
            push_char(out, hex_digit_exec((c as u32) / 16));
            push_char(out, hex_digit_exec((c as u32) % 16));
            proof {
                assert(json_escape_char(c) =~= "\\u00"@ + seq![
                    hex_digit((c as u32) as int / 16),
                    hex_digit((c as u32) as int % 16),
                ]);
                assert(out@ =~= old(out)@ + json_escaped_upto(s@, i as int) + json_escape_char(
                    c,
                ));
            }
        } else {
            push_char(out, c);
            proof {
                assert(json_escape_char(c) =~= seq![c]);
                assert(out@ =~= old(out)@ + json_escaped_upto(s@, i as int) + json_escape_char(
                    c,
                ));
            }
        }
        proof {
            assert(out@ =~= old(out)@ + json_escaped_upto(s@, i + 1));
        }
        i = i + 1;
    }
}

/// One pretty-printed array element for a first-time-contributor row, with
/// the fields in the fixed order `month`, `count`.
pub open spec fn json_contrib_item(r: MonthlyNewContributors) -> Seq<char> {
    "  {\n    \"month\": \""@ + json_escaped(r.month@) + "\",\n    \"count\": "@ + dec_of(
        r.count as int,
    ) + "\n  }"@
}

pub open spec fn json_contrib_items(rows: Seq<MonthlyNewContributors>, k: int) -> Seq<char>
    decreases k,
{
    if k <= 0 || rows.len() == 0 {
        Seq::<char>::empty()
    } else if k == 1 {
        json_contrib_item(rows[0])
    } else {
        json_contrib_items(rows, k - 1) + if 1 <= k - 1 < rows.len() {
            ",\n"@ + json_contrib_item(rows[k - 1])
        } else {
            Seq::<char>::empty()
        }
    }
}

/// The pretty-printed JSON array for the first-time-contributor rows, in row
/// order.
pub open spec fn json_contributors(rows: Seq<MonthlyNewContributors>) -> Seq<char> {
    if rows.len() == 0 {
        "[]"@
    } else {
        "[\n"@ + json_contrib_items(rows, rows.len() as int) + "\n]"@
    }
}

/// Render the first-time-contributor rows as pretty-printed JSON. The output
/// is a function of the rows alone: the same rows give the same bytes.
pub fn render_contributors_json(rows: &Vec<MonthlyNewContributors>) -> (r: String)
    ensures
        r@ == json_contributors(rows@),
{
    let n = rows.len();
    if n == 0 {
        let mut out = String::new();
        out.append("[]");
        proof {
            assert(out@ =~= json_contributors(rows@));
        }
        return out;
    }
    let mut out = String::new();
    out.append("[\n");
    let mut i: usize = 0;
    while i < n
        invariant
            n == rows@.len(),
            n > 0,
            i <= n,
            out@ == "[\n"@ + json_contrib_items(rows@, i as int),
        decreases n - i,
    {
        if i > 0 {
            out.append(",\n");
        }
        out.append("  {\n    \"month\": \"");
        append_json_escaped(&mut out, rows[i].month.as_str());
        out.append("\",\n    \"count\": ");
        let num = u64_to_string(rows[i].count);
        out.append(num.as_str());
        out.append("\n  }");
        proof {
            if i == 0 {
                assert(out@ =~= "[\n"@ + json_contrib_items(rows@, 1));
            } else {
                assert(out@ =~= "[\n"@ + json_contrib_items(rows@, i + 1));
            }
        }
        i = i + 1;
    }
    out.append("\n]");
    proof {
        assert(out@ =~= json_contributors(rows@));
    }
    out
}

/// One pretty-printed array element for a monthly-volume row, with the
/// fields in the fixed order `month`, `by_members`, `by_non_members`,
/// `total`.
pub open spec fn json_volume_item(r: MonthlyPullRequests) -> Seq<char> {
    "  {\n    \"month\": \""@ + json_escaped(r.month@) + "\",\n    \"by_members\": "@ + dec_of(
        r.by_members as int,
    ) + ",\n    \"by_non_members\": "@ + dec_of(r.by_non_members as int) + ",\n    \"total\": "@
        + dec_of(r.total as int) + "\n  }"@
}

pub open spec fn json_volume_items(rows: Seq<MonthlyPullRequests>, k: int) -> Seq<char>
    decreases k,
{
    if k <= 0 || rows.len() == 0 {
        Seq::<char>::empty()
    } else if k == 1 {
        json_volume_item(rows[0])
    } else {
        json_volume_items(rows, k - 1) + if 1 <= k - 1 < rows.len() {
            ",\n"@ + json_volume_item(rows[k - 1])
        } else {
            Seq::<char>::empty()
        }
    }
}

/// The pretty-printed JSON array for the monthly-volume rows, in row order.
pub open spec fn json_volume(rows: Seq<MonthlyPullRequests>) -> Seq<char> {
    if rows.len() == 0 {
        "[]"@
    } else {
        "[\n"@ + json_volume_items(rows, rows.len() as int) + "\n]"@
    }
}

/// Render the monthly-volume rows as pretty-printed JSON. The output is a
/// function of the rows alone: the same rows give the same bytes.
#[verifier::rlimit(60)]
pub fn render_volume_json(rows: &Vec<MonthlyPullRequests>) -> (r: String)
    ensures
        r@ == json_volume(rows@),
{
    let n = rows.len();
    if n == 0 {
        let mut out = String::new();
        out.append("[]");
        proof {
            assert(out@ =~= json_volume(rows@));
        }
        return out;
    }
    let mut out = String::new();
    out.append("[\n");
    let mut i: usize = 0;
    while i < n
        invariant
            n == rows@.len(),
            n > 0,
            i <= n,
            out@ == "[\n"@ + json_volume_items(rows@, i as int),
        decreases n - i,
    {
        if i > 0 {
            out.append(",\n");
        }
        out.append("  {\n    \"month\": \"");
        append_json_escaped(&mut out, rows[i].month.as_str());
        out.append("\",\n    \"by_members\": ");
        let num = u64_to_string(rows[i].by_members);
        out.append(num.as_str());
        out.append(",\n    \"by_non_members\": ");
        let num = u64_to_string(rows[i].by_non_members);
        out.append(num.as_str());
        out.append(",\n    \"total\": ");
        let num = u64_to_string(rows[i].total);
        out.append(num.as_str());
        out.append("\n  }");
        proof {
            if i == 0 {
                assert(out@ =~= "[\n"@ + json_volume_items(rows@, 1));
            } else {
                assert(out@ =~= "[\n"@ + json_volume_items(rows@, i + 1));
            }
        }
        i = i + 1;
    }
    out.append("\n]");
    proof {
        assert(out@ =~= json_volume(rows@));
    }
    out
}

/// The artifact path of a first-time-contributions render at the given
/// truncation length.
pub open spec fn contributions_filename_spec(length: int) -> Seq<char> {
    "web/results_first_time_contributions_"@ + dec_of(length) + ".json"@
}

pub fn contributions_filename(length: usize) -> (r: String)
    ensures
        r@ == contributions_filename_spec(length as int),
{
    let mut out = String::new();
    out.append("web/results_first_time_contributions_");
    let num = u64_to_string(length as u64);
    out.append(num.as_str());
    out.append(".json");
    out
}

/// The display prefix of a repository in the changelog: nothing for the core
/// repositories, a fixed label for the API repository, the capitalized name
/// with a colon for every other one.
pub open spec fn repo_prefix(repo: Seq<char>) -> Seq<char> {
    if repo == "lila"@ || repo == "lila-ws"@ || repo == "lifat"@ {
        Seq::<char>::empty()
    } else if repo == "api"@ {
        "API Docs: "@
    } else {
        capitalized(repo) + ": "@
    }
}

/// One changelog bullet: prefix and capitalized title, a link to the pull
/// request, and a thanks link to the author's profile.
pub open spec fn changelog_line(pr: PullRequest) -> Seq<char> {
    "-   "@ + repo_prefix(pr.repo@) + capitalized(pr.title@) + " [#"@ + dec_of(pr.pr_num as int)
        + "](https://github.com/lichess-org/"@ + pr.repo@ + "/pull/"@ + dec_of(pr.pr_num as int)
        + ") (thanks ["@ + pr.username@ + "](https://github.com/"@ + pr.username@ + "))\n"@
}

fn append_repo_prefix(out: &mut String, repo: &String)
    ensures
        final(out)@ == old(out)@ + repo_prefix(repo@),
{
    let s = repo.as_str();
    if str_eq(s, "lila") || str_eq(s, "lila-ws") || str_eq(s, "lifat") {
        proof {
            assert(out@ =~= old(out)@ + repo_prefix(repo@));
        }
    } else if str_eq(s, "api") {
        out.append("API Docs: ");
    } else {
        let cap = capitalize_first_letter(s);
        out.append(cap.as_str());
        out.append(": ");
        proof {
            assert(out@ =~= old(out)@ + repo_prefix(repo@));
        }
    }
}

/// Render one changelog line.
pub fn render_changelog_line(pr: &PullRequest) -> (r: String)
    ensures
        r@ == changelog_line(*pr),
{
    let mut out = String::new();
    out.append("-   ");
    append_repo_prefix(&mut out, &pr.repo);
    let cap = capitalize_first_letter(pr.title.as_str());
    out.append(cap.as_str());
    out.append(" [#");
    let num = u64_to_string(pr.pr_num);
    out.append(num.as_str());
    out.append("](https://github.com/lichess-org/");
    out.append(pr.repo.as_str());
    out.append("/pull/");
    out.append(num.as_str());
    out.append(") (thanks [");
    out.append(pr.username.as_str());
    out.append("](https://github.com/");
    out.append(pr.username.as_str());
    out.append("))\n");
    proof {
        assert(out@ =~= changelog_line(*pr));
    }
    out
}

pub open spec fn changelog_text_upto(prs: Seq<PullRequest>, k: int) -> Seq<char>
    decreases k,
{
    if k <= 0 {
        Seq::<char>::empty()
    } else {
        changelog_text_upto(prs, k - 1) + if 0 <= k - 1 < prs.len() {
            changelog_line(prs[k - 1])
        } else {
            Seq::<char>::empty()
        }
    }
}

/// The whole changelog: one line per pull request, in row order.
pub open spec fn changelog_text(prs: Seq<PullRequest>) -> Seq<char> {
    changelog_text_upto(prs, prs.len() as int)
}

/// Render the changelog for a list of pull requests.
pub fn render_changelog(prs: &Vec<PullRequest>) -> (r: String)
    ensures
        r@ == changelog_text(prs@),
{
    let n = prs.len();
    let mut out = String::new();
    let mut i: usize = 0;
    while i < n
        invariant
            n == prs@.len(),
            i <= n,
            out@ == changelog_text_upto(prs@, i as int),
        decreases n - i,
    {
        let line = render_changelog_line(&prs[i]);
        out.append(line.as_str());
        i = i + 1;
    }
    out
}

/// The display name of a commit's author: the username, or "n/a" when the
/// hosting service reported none.
pub open spec fn author_display(a: Option<String>) -> Seq<char> {
    match a {
        Option::Some(u) => u@,
        Option::None => "n/a"@,
    }
}

/// One digest bullet: the timestamp's first ten characters (the day), the
/// repository, the author, the message on a single line, and a link labelled
/// with the sha's first seven characters.
pub open spec fn commit_line(c: Commit) -> Seq<char> {
    "-   "@ + prefix_of(c.committed_at@, 10) + " - "@ + c.repo@ + " "@ + author_display(c.author)
        + " - "@ + flatten_newlines(c.message@) + " ["@ + prefix_of(c.sha@, 7) + "]("@ + c.url@
        + ")\n"@
}

/// Render one digest line.
pub fn render_commit_line(c: &Commit) -> (r: String)
    ensures
        r@ == commit_line(*c),
{
    let mut out = String::new();
    out.append("-   ");
    let day = str_prefix(c.committed_at.as_str(), 10);
    out.append(day.as_str());
    out.append(" - ");
    out.append(c.repo.as_str());
    out.append(" ");
    match &c.author {
        Some(u) => out.append(u.as_str()),
        None => out.append("n/a"),
    }
    out.append(" - ");
    let msg = replace_newlines(c.message.as_str());
    out.append(msg.as_str());
    out.append(" [");
    let sha = str_prefix(c.sha.as_str(), 7);
    out.append(sha.as_str());
    out.append("](");
    out.append(c.url.as_str());
    out.append(")\n");
    proof {
        assert(out@ =~= commit_line(*c));
    }
    out
}

pub open spec fn commit_digest_upto(cs: Seq<Commit>, k: int) -> Seq<char>
    decreases k,
{
    if k <= 0 {
        Seq::<char>::empty()
    } else {
        commit_digest_upto(cs, k - 1) + if 0 <= k - 1 < cs.len() {
            commit_line(cs[k - 1])
        } else {
            Seq::<char>::empty()
        }
    }
}

/// The whole digest: one line per commit, in row order.
pub open spec fn commit_digest(cs: Seq<Commit>) -> Seq<char> {
    commit_digest_upto(cs, cs.len() as int)
}

/// Render the digest for a list of commits.
pub fn render_commit_digest(cs: &Vec<Commit>) -> (r: String)
    ensures
        r@ == commit_digest(cs@),
{
    let n = cs.len();
    let mut out = String::new();
    let mut i: usize = 0;
    while i < n
        invariant
            n == cs@.len(),
            i <= n,
            out@ == commit_digest_upto(cs@, i as int),
        decreases n - i,
    {
        let line = render_commit_line(&cs[i]);
        out.append(line.as_str());
        i = i + 1;
    }
    out
}

} // verus!
