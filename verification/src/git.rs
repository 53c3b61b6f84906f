//! The data handed over by the `git` queries, and the parsers for their
//! textual output.
//!
//! The queries themselves (listing branches, reading the rebase state,
//! looking up configuration) run `git` and read files, so they live outside
//! this crate's verified core; what stands here is the part of each query
//! that turns the text they obtain into values, with exact contracts.

use vstd::prelude::*;
use vstd::string::StrSliceExecFns;
use vstd::string::StringExecFns;

use crate::text::find_char;
use crate::text::has_prefix;
use crate::text::spec_find_char;
use crate::text::spec_has_prefix;
use crate::text::spec_strip_prefix;
use crate::text::spec_trim;
use crate::text::spec_trim_end_ascii;
use crate::text::str_eq;
use crate::text::strip_prefix_or_self;
use crate::text::trim;
use crate::text::trim_end_ascii;

verus! {

/// A branch in the repository.
pub struct Branch {
    /// Name of the branch.
    pub name: String,
    /// Abbreviated hash of the branch commit.
    pub shorthash: String,
}

/// The mathematical view of a [`Branch`]: both fields as character
/// sequences.
#[verifier::ext_equal]
pub struct BranchSpec {
    pub name: Seq<char>,
    pub hash: Seq<char>,
}

impl View for Branch {
    type V = BranchSpec;

    open spec fn view(&self) -> BranchSpec {
        BranchSpec { name: self.name@, hash: self.shorthash@ }
    }
}

impl Clone for Branch {
    fn clone(&self) -> (r: Self)
        ensures
            r@ == self@,
    {
        Branch { name: self.name.clone(), shorthash: self.shorthash.clone() }
    }
}

/// The views of a sequence of branches, in order.
pub open spec fn branch_views(s: Seq<Branch>) -> Seq<BranchSpec> {
    s.map_values(|b: Branch| b.view())
}

/// Names the `git` command-line interface; the operations that actually
/// spawn `git` take their inputs from outside the verified core.
pub struct Shell {}

impl Shell {
    /// Builds a new Shell, relying on `$PATH` holding a git executable.
    pub fn new() -> Self {
        Self {  }
    }
}

// ---------------------------------------------------------------------------
// Parsing the output of `git show-ref --heads --abbrev`.
// ---------------------------------------------------------------------------

/// What one line of `git show-ref` output denotes.
///
/// A line of the shape `<hash> refs/heads/<name>` denotes the branch
/// `<name>` at `<hash>`; any other line (no second field, or a reference
/// outside `refs/heads/`) denotes nothing and is skipped.
pub open spec fn spec_show_ref_line(line: Seq<char>) -> Option<BranchSpec> {
    let f0 = spec_find_char(line, ' ', 0);
    if f0 == line.len() {
        Option::None
    } else {
        let hash = line.subrange(0, f0);
        let refname = line.subrange(f0 + 1, spec_find_char(line, ' ', f0 + 1));
        if spec_has_prefix(refname, "refs/heads/"@) {
            Option::Some(
                BranchSpec { name: refname.skip("refs/heads/"@.len() as int), hash: hash },
            )
        } else {
            Option::None
        }
    }
}

/// Parses one line of `git show-ref` output.
pub fn parse_show_ref_line(line: &str) -> (r: Option<Branch>)
    ensures
        match r {
            Option::Some(b) => spec_show_ref_line(line@) == Option::Some(b@),
            Option::None => spec_show_ref_line(line@) is None,
        },
{
    let n = line.unicode_len();
    let f0 = find_char(line, ' ', 0);
    proof {
        crate::text::lemma_find_char(line@, ' ', 0);
    }
    if f0 == n {
        return None;
    }
    let hash = line.substring_char(0, f0);
    let f1 = find_char(line, ' ', f0 + 1);
    proof {
        crate::text::lemma_find_char(line@, ' ', f0 as int + 1);
    }
    let refname = line.substring_char(f0 + 1, f1);
    if !has_prefix(refname, "refs/heads/") {
        return None;
    }
    let name = refname.substring_char("refs/heads/".unicode_len(), refname.unicode_len());
    proof {
        assert(name@ =~= refname@.skip("refs/heads/"@.len() as int));
    }
    Some(Branch { name: String::from_str(name), shorthash: String::from_str(hash) })
}

/// The branches denoted by a whole `git show-ref` output, in order.
pub open spec fn spec_show_ref_output(lines: Seq<Seq<char>>) -> Seq<BranchSpec>
    decreases lines.len(),
{
    if lines.len() == 0 {
        Seq::empty()
    } else {
        let rest = spec_show_ref_output(lines.drop_last());
        match spec_show_ref_line(lines.last()) {
            Option::Some(b) => rest.push(b),
            Option::None => rest,
        }
    }
}

/// Parses the lines of `git show-ref --heads --abbrev` output into the
/// branch list, skipping lines that denote no branch.
pub fn parse_show_ref_output(lines: &Vec<String>) -> (r: Vec<Branch>)
    ensures
        branch_views(r@) == spec_show_ref_output(crate::restack::line_views(lines@)),
{
    let mut r: Vec<Branch> = Vec::new();
    let n = lines.len();
    let mut i: usize = 0;
    proof {
        assert(branch_views(r@) =~= spec_show_ref_output(
            crate::restack::line_views(lines@).take(0),
        ));
    }
    while i < n
        invariant
            i <= n,
            n == lines.len(),
            branch_views(r@) == spec_show_ref_output(
                crate::restack::line_views(lines@).take(i as int),
            ),
        decreases n - i,
    {
        proof {
            crate::restack::lemma_take_succ(crate::restack::line_views(lines@), i as int);
        }
        match parse_show_ref_line(lines[i].as_str()) {
            Some(b) => {
                proof {
                    crate::restack::lemma_branch_views_push(r@, b);
                }
                r.push(b);
            },
            None => {
            },
        }
        i = i + 1;
    }
    proof {
        assert(crate::restack::line_views(lines@).take(n as int) =~= crate::restack::line_views(
            lines@,
        ));
    }
    r
}

// ---------------------------------------------------------------------------
// Interpreting the rebase-state file and `git rev-parse --git-dir`.
// ---------------------------------------------------------------------------

/// The branch name held in a `head-name` rebase-state file: its content
/// without surrounding white space and without a `refs/heads/` prefix.
pub open spec fn spec_rebase_head(content: Seq<char>) -> Seq<char> {
    spec_strip_prefix(spec_trim(content), "refs/heads/"@)
}

/// Extracts the branch name from the content of a `head-name` file.
pub fn parse_rebase_head(content: &str) -> (r: String)
    ensures
        r@ == spec_rebase_head(content@),
{
    let trimmed = trim(content);
    let name = strip_prefix_or_self(trimmed, "refs/heads/");
    String::from_str(name)
}

/// The `.git` directory denoted by `git rev-parse --git-dir` output: the
/// output without trailing ASCII white space, resolved against `dir` when
/// it is relative (it does not start with `/`).
pub open spec fn spec_resolve_git_dir(dir: Seq<char>, raw: Seq<char>) -> Seq<char> {
    let out = spec_trim_end_ascii(raw);
    if out.len() > 0 && out[0] == '/' {
        out
    } else if dir.len() == 0 {
        out
    } else if dir.last() == '/' {
        dir + out
    } else {
        dir + seq!['/'] + out
    }
}

/// Resolves the output of `git rev-parse --git-dir` against the directory
/// the query ran in.
pub fn resolve_git_dir(dir: &str, raw: &str) -> (r: String)
    ensures
        r@ == spec_resolve_git_dir(dir@, raw@),
{
    let out = trim_end_ascii(raw);
    if out.unicode_len() > 0 && out.get_char(0) == '/' {
        String::from_str(out)
    } else if dir.unicode_len() == 0 {
        String::from_str(out)
    } else if dir.get_char(dir.unicode_len() - 1) == '/' {
        let mut s = String::from_str(dir);
        s.append(out);
        s
    } else {
        let mut s = String::from_str(dir);
        s.append("/");
        s.append(out);
        proof {
            reveal_strlit("/");
            assert(s@ =~= dir@ + seq!['/'] + spec_trim_end_ascii(raw@));
        }
        s
    }
}

// ---------------------------------------------------------------------------
// Interpreting the configured comment marker.
// ---------------------------------------------------------------------------

/// Why a configured comment marker cannot be used.
#[derive(Debug)]
pub enum CommentStringError {
    /// `core.commentChar` is set to `auto`, which this tool does not
    /// support.
    AutoUnsupported,
}

/// What a configured comment-marker value means: `auto` is unsupported, an
/// unset or empty value falls back to `#`, anything else is used as is.
pub open spec fn spec_comment_string(value: Seq<char>) -> Result<Seq<char>, CommentStringError> {
    if value == "auto"@ {
        Result::Err(CommentStringError::AutoUnsupported)
    } else if value.len() == 0 {
        Result::Ok("#"@)
    } else {
        Result::Ok(value)
    }
}

/// Interprets the configured comment marker, already trimmed of trailing
/// white space by the caller's query.
pub fn interpret_comment_string(value: &str) -> (r: Result<String, CommentStringError>)
    ensures
        match r {
            Result::Ok(s) => spec_comment_string(value@) == Result::<Seq<char>,
                CommentStringError>::Ok(s@),
            Result::Err(e) => spec_comment_string(value@) == Result::<Seq<char>,
                CommentStringError>::Err(e),
        },
{
    if str_eq(value, "auto") {
        Err(CommentStringError::AutoUnsupported)
    } else if value.is_empty() {
        Ok(String::from_str("#"))
    } else {
        Ok(String::from_str(value))
    }
}

} // verus!
