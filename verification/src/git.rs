//! What git's answers mean: the repository context, recent commits and commit links.
//! Running git is left to the caller; these functions read what it printed.

use vstd::prelude::*;

use crate::task::{LinkedCommit, LinkedCommitView};
use crate::text;

verus! {

/// The git situation of the working directory.
#[derive(Debug, Clone)]
pub struct GitContext {
    pub is_repo: bool,
    pub repo_root: Option<String>,
    pub branch: Option<String>,
}

/// One line of `git log --pretty=format:%h|%s`.
#[derive(Debug, Clone)]
pub struct CommitSummary {
    pub sha: String,
    pub message: String,
}

/// The context from the repository top level (when the directory is inside one) and the
/// branch git reports there; the branch is only kept inside a repository.
pub fn detect(repo_root: Option<String>, branch: Option<String>) -> (r: GitContext)
    ensures
        r.is_repo == repo_root is Some,
        r.repo_root.deep_view() == repo_root.deep_view(),
        r.branch.deep_view() == if repo_root is Some { branch.deep_view() } else { None },
{
    let is_repo = repo_root.is_some();
    let branch = if is_repo { branch } else { None };
    GitContext { is_repo, repo_root, branch }
}

/// The trimmed output of a successful git command, when it is not empty.
pub open spec fn answer_of(success: bool, stdout: Seq<char>) -> Option<Seq<char>> {
    if success && text::trimmed(stdout).len() > 0 {
        Some(text::trimmed(stdout))
    } else {
        None
    }
}

/// The repository top level from `git rev-parse --show-toplevel`: its trimmed output
/// when the command succeeded and printed something.
pub fn parse_repo_root(success: bool, stdout: &str) -> (r: Option<String>)
    ensures
        r.deep_view() == answer_of(success, stdout@),
{
    if !success {
        return None;
    }
    let t = text::trim_text(stdout);
    if t.unicode_len() == 0 {
        None
    } else {
        Some(t)
    }
}

/// The subject line from `git log -1 --pretty=format:%s <sha>`: its trimmed output when
/// the command succeeded and printed something.
pub fn parse_commit_message(success: bool, stdout: &str) -> (r: Option<String>)
    ensures
        r.deep_view() == answer_of(success, stdout@),
{
    parse_repo_root(success, stdout)
}

/// The branch from `git rev-parse --abbrev-ref HEAD`: as for `answer_of`, except that a
/// detached head (`HEAD`) has no branch.
pub open spec fn branch_of(success: bool, stdout: Seq<char>) -> Option<Seq<char>> {
    match answer_of(success, stdout) {
        Some(b) => if b == "HEAD"@ { None } else { Some(b) },
        None => None,
    }
}

pub fn parse_branch(success: bool, stdout: &str) -> (r: Option<String>)
    ensures
        r.deep_view() == branch_of(success, stdout@),
{
    match parse_repo_root(success, stdout) {
        Some(b) => {
            let head = String::from_str("HEAD");
            if b == head {
                None
            } else {
                Some(b)
            }
        },
        None => None,
    }
}

/// A line without the `\r` of a `\r\n` ending.
pub open spec fn strip_cr(line: Seq<char>) -> Seq<char> {
    if line.len() > 0 && line.last() == '\r' {
        line.drop_last()
    } else {
        line
    }
}

/// The lines of `s` as `str::lines` yields them: split at `\n`, a `\r` before the `\n`
/// removed, no empty line after a final `\n`.
pub open spec fn lines_of(s: Seq<char>) -> Seq<Seq<char>> {
    let p = text::split_on(s, '\n');
    let init = p.drop_last().map_values(|x: Seq<char>| strip_cr(x));
    if p.last().len() > 0 {
        init.push(p.last())
    } else {
        init
    }
}

/// The position of the first `c` in `s`, or its length when there is none.
pub open spec fn first_index_of(s: Seq<char>, c: char) -> int
    decreases s.len(),
{
    if s.len() == 0 {
        0
    } else if s[0] == c {
        0
    } else {
        1 + first_index_of(s.drop_first(), c)
    }
}

proof fn lemma_first_index_of(s: Seq<char>, c: char, p: int)
    requires
        0 <= p <= s.len(),
        forall|k: int| 0 <= k < p ==> #[trigger] s[k] != c,
        p == s.len() || s[p] == c,
    ensures
        first_index_of(s, c) == p,
    decreases p,
{
    if p > 0 {
        let t = s.drop_first();
        assert forall|k: int| 0 <= k < p - 1 implies #[trigger] t[k] != c by {
            assert(t[k] == s[k + 1]);
        }
        lemma_first_index_of(t, c, p - 1);
    }
}

/// A log line split at its first `|` into abbreviated hash and subject
/// (`str::split_once('|')`); lines without `|` give nothing.
pub open spec fn commit_of(line: Seq<char>) -> Option<(Seq<char>, Seq<char>)> {
    let p = first_index_of(line, '|');
    if p < line.len() {
        Some((line.take(p), line.skip(p + 1)))
    } else {
        None
    }
}

/// The commits of a list of log lines, in order.
pub open spec fn commits_of(lines: Seq<Seq<char>>) -> Seq<(Seq<char>, Seq<char>)>
    decreases lines.len(),
{
    if lines.len() == 0 {
        Seq::empty()
    } else {
        let rest = commits_of(lines.drop_last());
        match commit_of(lines.last()) {
            Some(c) => rest.push(c),
            None => rest,
        }
    }
}

/// The recent commits from the output of `git log -<n> --pretty=format:%h|%s`:
/// nothing when the command failed.
pub open spec fn log_commits(success: bool, stdout: Seq<char>) -> Seq<(Seq<char>, Seq<char>)> {
    if success {
        commits_of(lines_of(stdout))
    } else {
        Seq::empty()
    }
}

pub open spec fn commit_views(v: Seq<CommitSummary>) -> Seq<(Seq<char>, Seq<char>)> {
    v.map_values(|c: CommitSummary| (c.sha@, c.message@))
}

proof fn lemma_commits_push(lines: Seq<Seq<char>>, line: Seq<char>)
    ensures
        commits_of(lines.push(line)) == match commit_of(line) {
            Some(c) => commits_of(lines).push(c),
            None => commits_of(lines),
        },
{
    assert(lines.push(line).drop_last() =~= lines);
}

/// Adds the commit on `line` (the characters `chars[start..end]` of `s`) to `out`.
fn add_commit_line(s: &str, chars: &Vec<char>, start: usize, end: usize, out: &mut Vec<CommitSummary>)
    requires
        chars@ == s@,
        start <= end <= s@.len(),
    ensures
        commit_views(final(out)@) == match commit_of(s@.subrange(start as int, end as int)) {
            Some(c) => commit_views(old(out)@).push(c),
            None => commit_views(old(out)@),
        },
{
    let ghost line = s@.subrange(start as int, end as int);
    let mut p: usize = start;
    while p < end && chars[p] != '|'
        invariant
            chars@ == s@,
            start <= p <= end,
            end <= s@.len(),
            line == s@.subrange(start as int, end as int),
            forall|k: int| 0 <= k < p - start ==> #[trigger] line[k] != '|',
        decreases end - p,
    {
        p += 1;
    }
    proof {
        lemma_first_index_of(line, '|', p - start);
    }
    if p < end {
        let sha = s.substring_char(start, p).to_owned();
        let message = s.substring_char(p + 1, end).to_owned();
        assert(sha@ =~= line.take(p - start));
        assert(message@ =~= line.skip(p - start + 1));
        out.push(CommitSummary { sha, message });
        assert(commit_views(out@) =~= commit_views(old(out)@).push((sha@, message@)));
    }
}

/// The commits listed by `git log -<n> --pretty=format:%h|%s`; none when git failed.
pub fn parse_commit_log(success: bool, stdout: &str) -> (r: Vec<CommitSummary>)
    ensures
        commit_views(r@) == log_commits(success, stdout@),
{
    let mut out: Vec<CommitSummary> = Vec::new();
    if !success {
        assert(commit_views(out@) =~= Seq::<(Seq<char>, Seq<char>)>::empty());
        return out;
    }
    let s = stdout;
    let chars = text::chars_of(s);
    let n = chars.len();
    let mut start: usize = 0;
    let mut i: usize = 0;
    let ghost mut done: Seq<Seq<char>> = Seq::empty();
    proof {
        assert(s@.take(0) =~= Seq::<char>::empty());
        assert(s@.subrange(0, 0) =~= Seq::<char>::empty());
        assert(done.push(s@.subrange(0, 0)) =~= seq![Seq::<char>::empty()]);
        assert(commit_views(out@) =~= commits_of(done.map_values(|x: Seq<char>| strip_cr(x))));
    }
    while i < n
        invariant
            chars@ == s@,
            n == s@.len(),
            start <= i <= n,
            text::split_on(s@.take(i as int), '\n') == done.push(s@.subrange(start as int, i as int)),
            commit_views(out@) == commits_of(done.map_values(|x: Seq<char>| strip_cr(x))),
        decreases n - i,
    {
        proof {
            text::lemma_split_on_step(s@, '\n', i as int, start as int, done);
        }
        if chars[i] == '\n' {
            let ghost piece = s@.subrange(start as int, i as int);
            let end: usize = if i > start && chars[i - 1] == '\r' { i - 1 } else { i };
            proof {
                assert(s@.subrange(start as int, end as int) =~= strip_cr(piece));
                lemma_commits_push(done.map_values(|x: Seq<char>| strip_cr(x)), strip_cr(piece));
                assert(done.push(piece).map_values(|x: Seq<char>| strip_cr(x)) =~= done.map_values(|x: Seq<char>| strip_cr(x)).push(strip_cr(piece)));
            }
            add_commit_line(s, &chars, start, end, &mut out);
            proof {
                done = done.push(piece);
            }
            start = i + 1;
        }
        i += 1;
    }
    proof {
        assert(s@.take(n as int) =~= s@);
        let p = done.push(s@.subrange(start as int, n as int));
        assert(p.drop_last() =~= done);
        lemma_commits_push(done.map_values(|x: Seq<char>| strip_cr(x)), s@.subrange(start as int, n as int));
    }
    if start < n {
        add_commit_line(s, &chars, start, n, &mut out);
    }
    out
}

/// The commit link for `sha` on `branch`: none when git does not know the commit,
/// otherwise with the commit's subject, or `(no message)` when it has none.
pub open spec fn link_of(sha: Seq<char>, branch: Option<Seq<char>>, valid: bool, message: Option<Seq<char>>) -> Option<LinkedCommitView> {
    if valid {
        Some(LinkedCommitView {
            sha,
            message: match message {
                Some(m) => m,
                None => "(no message)"@,
            },
            branch,
        })
    } else {
        None
    }
}

/// Links `sha` once git has said whether it names a commit (`valid`) and, for a valid
/// one, what its subject is.
pub fn linked_commit_from_sha(sha: &str, branch: Option<&str>, valid: bool, message: Option<String>) -> (r: Option<LinkedCommit>)
    ensures
        r.deep_view() == link_of(sha@, match branch { Some(b) => Some(b@), None => None }, valid, message.deep_view()),
{
    if !valid {
        return None;
    }
    let message = match message {
        Some(m) => m,
        None => String::from_str("(no message)"),
    };
    let branch = match branch {
        Some(b) => Some(b.to_owned()),
        None => None,
    };
    Some(LinkedCommit { sha: sha.to_owned(), message, branch })
}

} // verus!
