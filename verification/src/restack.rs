//! The instruction-list rewriter: the verified core of the crate.
//!
//! [`restack`] consumes the instruction list of an interactive rebase
//! together with the branch set obtained from `git`, and emits the same
//! list with `exec git branch -f` instructions inserted after each run of
//! instructions whose commits known branches point at, plus an optional
//! commented `git push` section.
//!
//! The whole transformation has a functional model — [`spec_restack`],
//! built from [`spec_process_line`], [`spec_flush`] and
//! [`spec_push_section`] — and every executable piece is proved to follow
//! it exactly. The laws stated in [`crate::laws`] are proved of the model.

use vstd::prelude::*;
use vstd::string::StrSliceExecFns;
use vstd::string::StringExecFns;

use crate::git::Branch;
use crate::git::BranchSpec;
use crate::git::branch_views;
use crate::text::find_char;
use crate::text::spec_find_char;
use crate::text::str_eq;

verus! {

/// The views of a sequence of owned lines, in order.
pub open spec fn line_views(s: Seq<String>) -> Seq<Seq<char>> {
    s.map_values(|x: String| x@)
}

// ---------------------------------------------------------------------------
// The functional model.
// ---------------------------------------------------------------------------

/// The read-only data of one rewrite operation: the remote to publish to (if
/// any), the name of the branch being rebased, and the known branches in the
/// order `git` listed them.
#[verifier::ext_equal]
pub struct RewriteCtx {
    pub remote: Option<Seq<char>>,
    pub rebase_name: Seq<char>,
    pub branches: Seq<BranchSpec>,
}

/// The mutable state of one rewrite operation: the branches attached to the
/// most recent run of instructions, the branches already relocated, the
/// one-shot flag for the push section, and the output emitted so far.
#[verifier::ext_equal]
pub struct RewriteState {
    pub pending: Seq<BranchSpec>,
    pub updated: Seq<BranchSpec>,
    pub wrote_push: bool,
    pub out: Seq<Seq<char>>,
}

/// The state at the start of a rewrite: nothing pending, nothing updated,
/// no push section written, no output.
pub open spec fn init_state() -> RewriteState {
    RewriteState {
        pending: Seq::empty(),
        updated: Seq::empty(),
        wrote_push: false,
        out: Seq::empty(),
    }
}

/// A blank output line.
pub open spec fn blank_line() -> Seq<char> {
    Seq::empty()
}

/// The relocation instruction emitted for a branch.
pub open spec fn reloc_line(name: Seq<char>) -> Seq<char> {
    "exec git branch -f "@ + name
}

/// The header comment of the push section.
pub open spec fn push_header() -> Seq<char> {
    "# Uncomment this section to push the changes."@
}

/// The commented push instruction emitted for a branch.
pub open spec fn push_line(remote: Seq<char>, name: Seq<char>) -> Seq<char> {
    "# exec git push -f "@ + remote + " "@ + name
}

/// The branches of `pending`, in order, without those named like the branch
/// being rebased: exactly the branches a flush emits instructions for.
pub open spec fn kept(rebase_name: Seq<char>, pending: Seq<BranchSpec>) -> Seq<BranchSpec>
    decreases pending.len(),
{
    if pending.len() == 0 {
        Seq::empty()
    } else {
        let rest = kept(rebase_name, pending.drop_last());
        if pending.last().name == rebase_name {
            rest
        } else {
            rest.push(pending.last())
        }
    }
}

/// One relocation instruction per branch, in order.
pub open spec fn reloc_lines(bs: Seq<BranchSpec>) -> Seq<Seq<char>> {
    bs.map_values(|b: BranchSpec| reloc_line(b.name))
}

/// One commented push instruction per branch, in order.
pub open spec fn push_lines(remote: Seq<char>, bs: Seq<BranchSpec>) -> Seq<Seq<char>> {
    bs.map_values(|b: BranchSpec| push_line(remote, b.name))
}

/// Whether a flush of `s` emits at least one relocation instruction.
pub open spec fn flush_emits(c: RewriteCtx, s: RewriteState) -> bool {
    kept(c.rebase_name, s.pending).len() > 0
}

/// A flush point: every pending branch not named like the rebased branch
/// yields a relocation instruction and is recorded as updated; a trailing
/// blank line closes the group if anything was emitted.
pub open spec fn spec_flush(c: RewriteCtx, s: RewriteState) -> RewriteState {
    let k = kept(c.rebase_name, s.pending);
    RewriteState {
        pending: Seq::empty(),
        updated: s.updated + k,
        wrote_push: s.wrote_push,
        out: if k.len() == 0 {
            s.out
        } else {
            s.out + reloc_lines(k) + seq![blank_line()]
        },
    }
}

/// The push section: written at most once (the flag is set on the first
/// attempt even when nothing is written), and only when a branch has been
/// relocated and a remote name was supplied.
pub open spec fn spec_push_section(
    c: RewriteCtx,
    s: RewriteState,
    pad_before: bool,
    pad_after: bool,
) -> RewriteState {
    if s.wrote_push {
        s
    } else if s.updated.len() == 0 {
        RewriteState { wrote_push: true, ..s }
    } else {
        match c.remote {
            Option::None => RewriteState { wrote_push: true, ..s },
            Option::Some(remote) => {
                let before = if pad_before {
                    seq![blank_line()]
                } else {
                    Seq::<Seq<char>>::empty()
                };
                let after = if pad_after {
                    seq![blank_line()]
                } else {
                    Seq::<Seq<char>>::empty()
                };
                RewriteState {
                    wrote_push: true,
                    out: s.out + before + seq![push_header()] + push_lines(remote, s.updated)
                        + after,
                    ..s
                }
            },
        }
    }
}

// ---------------------------------------------------------------------------
// The line format.
// ---------------------------------------------------------------------------

/// Index just past the command token: the first space of the line, or its
/// length if the line has a single field.
pub open spec fn cmd_end(line: Seq<char>) -> int {
    spec_find_char(line, ' ', 0)
}

/// The command token: the characters before the first space.
pub open spec fn spec_cmd(line: Seq<char>) -> Seq<char> {
    line.subrange(0, cmd_end(line))
}

/// Whether the line has a second field (a first space exists).
pub open spec fn has_second_field(line: Seq<char>) -> bool {
    cmd_end(line) < line.len()
}

/// Index just past the second field.
pub open spec fn hash_end(line: Seq<char>) -> int {
    spec_find_char(line, ' ', cmd_end(line) + 1)
}

/// The second field of the line: the commit identifier of a command line.
pub open spec fn spec_hash(line: Seq<char>) -> Seq<char> {
    line.subrange(cmd_end(line) + 1, hash_end(line))
}

/// Whether `cmd` folds its commit into the previous one (`fixup`/`squash`):
/// such a line must not flush the branches of the instructions before it.
pub open spec fn is_squash_cmd(cmd: Seq<char>) -> bool {
    cmd == "f"@ || cmd == "fixup"@ || cmd == "s"@ || cmd == "squash"@
}

/// Whether `cmd` keeps its commit as a distinct position (`pick`/`reword`/
/// `edit`): the branches at such a commit are tracked for relocation.
pub open spec fn is_pick_cmd(cmd: Seq<char>) -> bool {
    cmd == "p"@ || cmd == "pick"@ || cmd == "r"@ || cmd == "reword"@ || cmd == "e"@
        || cmd == "edit"@
}

/// The branches pointing at `hash`, in the order of the branch list.
pub open spec fn branches_at(branches: Seq<BranchSpec>, hash: Seq<char>) -> Seq<BranchSpec>
    decreases branches.len(),
{
    if branches.len() == 0 {
        Seq::empty()
    } else {
        let rest = branches_at(branches.drop_last(), hash);
        if branches.last().hash == hash {
            rest.push(branches.last())
        } else {
            rest
        }
    }
}

/// The branches tracked by one input line: those at the commit identifier
/// of a position-preserving command line, and none otherwise.
pub open spec fn line_tracks(c: RewriteCtx, line: Seq<char>) -> Seq<BranchSpec> {
    if line.len() != 0 && is_pick_cmd(spec_cmd(line)) && has_second_field(line) {
        branches_at(c.branches, spec_hash(line))
    } else {
        Seq::empty()
    }
}

// ---------------------------------------------------------------------------
// One line of input.
// ---------------------------------------------------------------------------

/// The effect of one input line.
///
/// A blank line flushes, re-emitting the blank separator only when the
/// flush produced no group of its own. A comment line flushes and then
/// writes the push section. A command line flushes first unless the
/// command is squash-like; the line itself always passes through
/// unchanged, and a position-preserving command with a commit identifier
/// appends the branches at that commit to the pending list.
pub open spec fn spec_process_line(c: RewriteCtx, s: RewriteState, line: Seq<char>) -> RewriteState {
    if line.len() == 0 {
        let s1 = spec_flush(c, s);
        if flush_emits(c, s) {
            s1
        } else {
            RewriteState { out: s1.out.push(blank_line()), ..s1 }
        }
    } else {
        let s1 = if line[0] == '#' {
            spec_push_section(c, spec_flush(c, s), false, true)
        } else {
            s
        };
        let cmd = spec_cmd(line);
        let s2 = if is_squash_cmd(cmd) {
            s1
        } else {
            spec_flush(c, s1)
        };
        let s3 = RewriteState { out: s2.out.push(line), ..s2 };
        if is_pick_cmd(cmd) && has_second_field(line) {
            RewriteState { pending: s3.pending + branches_at(c.branches, spec_hash(line)), ..s3 }
        } else {
            s3
        }
    }
}

/// The state after processing every line of `lines`, in order, from `s`.
pub open spec fn spec_process_all(c: RewriteCtx, s: RewriteState, lines: Seq<Seq<char>>) -> RewriteState
    decreases lines.len(),
{
    if lines.len() == 0 {
        s
    } else {
        spec_process_line(c, spec_process_all(c, s, lines.drop_last()), lines.last())
    }
}

/// The whole transformation: process every line, flush once more, and
/// write the push section with leading padding and no trailing padding.
pub open spec fn spec_restack(c: RewriteCtx, lines: Seq<Seq<char>>) -> Seq<Seq<char>> {
    spec_push_section(c, spec_flush(c, spec_process_all(c, init_state(), lines)), true, false).out
}

// ---------------------------------------------------------------------------
// Small lemmas the implementation and the laws share.
// ---------------------------------------------------------------------------

pub proof fn lemma_take_succ<A>(s: Seq<A>, i: int)
    requires
        0 <= i < s.len(),
    ensures
        s.take(i + 1).drop_last() == s.take(i),
        s.take(i + 1).last() == s[i],
        s.take(i + 1) == s.take(i).push(s[i]),
{
    assert(s.take(i + 1).drop_last() =~= s.take(i));
    assert(s.take(i + 1) =~= s.take(i).push(s[i]));
}

pub proof fn lemma_kept_push(rebase_name: Seq<char>, p: Seq<BranchSpec>, b: BranchSpec)
    ensures
        kept(rebase_name, p.push(b)) == if b.name == rebase_name {
            kept(rebase_name, p)
        } else {
            kept(rebase_name, p).push(b)
        },
{
    assert(p.push(b).drop_last() =~= p);
    assert(p.push(b).last() == b);
}

pub proof fn lemma_branches_at_push(branches: Seq<BranchSpec>, b: BranchSpec, hash: Seq<char>)
    ensures
        branches_at(branches.push(b), hash) == if b.hash == hash {
            branches_at(branches, hash).push(b)
        } else {
            branches_at(branches, hash)
        },
{
    assert(branches.push(b).drop_last() =~= branches);
    assert(branches.push(b).last() == b);
}

pub proof fn lemma_branch_views_push(s: Seq<Branch>, b: Branch)
    ensures
        branch_views(s.push(b)) == branch_views(s).push(b.view()),
{
    assert(branch_views(s.push(b)) =~= branch_views(s).push(b.view()));
}

pub proof fn lemma_line_views_push(s: Seq<String>, x: String)
    ensures
        line_views(s.push(x)) == line_views(s).push(x@),
{
    assert(line_views(s.push(x)) =~= line_views(s).push(x@));
}

pub proof fn lemma_branch_views_add(a: Seq<Branch>, b: Seq<Branch>)
    ensures
        branch_views(a + b) == branch_views(a) + branch_views(b),
{
    assert(branch_views(a + b) =~= branch_views(a) + branch_views(b));
}

pub proof fn lemma_reloc_lines_push(u: Seq<BranchSpec>, b: BranchSpec)
    ensures
        reloc_lines(u.push(b)) == reloc_lines(u).push(reloc_line(b.name)),
{
    assert(reloc_lines(u.push(b)) =~= reloc_lines(u).push(reloc_line(b.name)));
}

pub proof fn lemma_add_push<A>(a: Seq<A>, b: Seq<A>, x: A)
    ensures
        a + b.push(x) == (a + b).push(x),
{
    assert(a + b.push(x) =~= (a + b).push(x));
}

pub proof fn lemma_push_lines_take_succ(remote: Seq<char>, u: Seq<BranchSpec>, i: int)
    requires
        0 <= i < u.len(),
    ensures
        push_lines(remote, u.take(i + 1)) == push_lines(remote, u.take(i)).push(
            push_line(remote, u[i].name),
        ),
{
    assert(push_lines(remote, u.take(i + 1)) =~= push_lines(remote, u.take(i)).push(
        push_line(remote, u[i].name),
    ));
}

// ---------------------------------------------------------------------------
// The executable pieces.
// ---------------------------------------------------------------------------

/// Whether `cmd` is a squash-like command token.
pub fn is_squash(cmd: &str) -> (r: bool)
    ensures
        r == is_squash_cmd(cmd@),
{
    str_eq(cmd, "f") || str_eq(cmd, "fixup") || str_eq(cmd, "s") || str_eq(cmd, "squash")
}

/// Whether `cmd` is a position-preserving command token.
pub fn is_pick(cmd: &str) -> (r: bool)
    ensures
        r == is_pick_cmd(cmd@),
{
    str_eq(cmd, "p") || str_eq(cmd, "pick") || str_eq(cmd, "r") || str_eq(cmd, "reword") || str_eq(
        cmd,
        "e",
    ) || str_eq(cmd, "edit")
}

/// Builds the relocation instruction for a branch name.
pub fn make_reloc_line(name: &str) -> (r: String)
    ensures
        r@ == reloc_line(name@),
{
    let mut s = String::from_str("exec git branch -f ");
    s.append(name);
    s
}

/// Builds the commented push instruction for a remote and a branch name.
pub fn make_push_line(remote: &str, name: &str) -> (r: String)
    ensures
        r@ == push_line(remote@, name@),
{
    let mut s = String::from_str("# exec git push -f ");
    s.append(remote);
    s.append(" ");
    s.append(name);
    proof {
        assert(s@ =~= push_line(remote@, name@));
    }
    s
}

/// The commit-to-branch index: the branch list in its original order,
/// looked up by commit identifier. A lookup returns every branch at the
/// identifier, preserving the list's relative order.
pub struct CommitIndex {
    branches: Vec<Branch>,
}

impl View for CommitIndex {
    type V = Seq<BranchSpec>;

    closed spec fn view(&self) -> Seq<BranchSpec> {
        branch_views(self.branches@)
    }
}

impl CommitIndex {
    /// Builds the index over the given branch list.
    pub fn new(branches: Vec<Branch>) -> (r: CommitIndex)
        ensures
            r@ == branch_views(branches@),
    {
        CommitIndex { branches }
    }

    /// Every branch whose commit identifier equals `hash`, in list order.
    pub fn lookup(&self, hash: &str) -> (r: Vec<Branch>)
        ensures
            branch_views(r@) == branches_at(self@, hash@),
    {
        let mut r: Vec<Branch> = Vec::new();
        let n = self.branches.len();
        let mut i: usize = 0;
        while i < n
            invariant
                i <= n,
                n == self.branches.len(),
                branch_views(r@) == branches_at(branch_views(self.branches@.take(i as int)), hash@),
            decreases n - i,
        {
            let b = &self.branches[i];
            proof {
                lemma_take_succ(self.branches@, i as int);
                lemma_branch_views_push(self.branches@.take(i as int), self.branches@[i as int]);
                lemma_branches_at_push(
                    branch_views(self.branches@.take(i as int)),
                    self.branches@[i as int].view(),
                    hash@,
                );
            }
            if str_eq(b.shorthash.as_str(), hash) {
                let cloned = b.clone();
                proof {
                    lemma_branch_views_push(r@, cloned);
                }
                r.push(cloned);
            }
            i = i + 1;
        }
        proof {
            assert(self.branches@.take(n as int) =~= self.branches@);
        }
        r
    }
}

/// Holds the state of an ongoing rewrite, mirroring [`RewriteState`]; the
/// output is accumulated in `out` rather than streamed.
pub struct Restack {
    /// Name of the remote, if any.
    pub remote_name: Option<String>,
    /// Name of the branch being rebased.
    pub rebase_branch_name: String,
    /// Known branches, looked up by their short hashes.
    pub index: CommitIndex,
    /// Branches attached to the most recent run of instructions.
    pub last_line_branches: Vec<Branch>,
    /// Branches a relocation instruction was emitted for, in order.
    pub updated_branches: Vec<Branch>,
    /// One-shot flag: the push section has been written (or skipped).
    pub wrote_push: bool,
    /// The output emitted so far.
    pub out: Vec<String>,
}

impl Restack {
    /// The read-only data of this rewrite.
    pub open spec fn ctx(&self) -> RewriteCtx {
        RewriteCtx {
            remote: match self.remote_name {
                Option::None => Option::None,
                Option::Some(r) => Option::Some(r@),
            },
            rebase_name: self.rebase_branch_name@,
            branches: self.index@,
        }
    }

    /// The mutable state of this rewrite.
    pub open spec fn st(&self) -> RewriteState {
        RewriteState {
            pending: branch_views(self.last_line_branches@),
            updated: branch_views(self.updated_branches@),
            wrote_push: self.wrote_push,
            out: line_views(self.out@),
        }
    }

    /// Builds the state for one rewrite over the given branch list.
    pub fn new(
        remote_name: Option<String>,
        rebase_branch_name: String,
        branches: Vec<Branch>,
    ) -> (r: Restack)
        ensures
            r.ctx() == (RewriteCtx {
                remote: match remote_name {
                    Option::None => Option::None,
                    Option::Some(s) => Option::Some(s@),
                },
                rebase_name: rebase_branch_name@,
                branches: branch_views(branches@),
            }),
            r.st() == init_state(),
    {
        let r = Restack {
            remote_name,
            rebase_branch_name,
            index: CommitIndex::new(branches),
            last_line_branches: Vec::new(),
            updated_branches: Vec::new(),
            wrote_push: false,
            out: Vec::new(),
        };
        proof {
            assert(r.st() =~= init_state());
        }
        r
    }

    /// Appends one line, unchanged, to the output.
    pub fn write_line(&mut self, line: &str)
        ensures
            final(self).ctx() == old(self).ctx(),
            final(self).st() == (RewriteState { out: old(self).st().out.push(line@), ..old(self).st() }),
    {
        let owned = line.to_owned();
        proof {
            lemma_line_views_push(self.out@, owned);
        }
        self.out.push(owned);
    }

    /// Appends a blank line to the output.
    fn write_blank(&mut self)
        ensures
            final(self).ctx() == old(self).ctx(),
            final(self).st() == (RewriteState {
                out: old(self).st().out.push(blank_line()),
                ..old(self).st()
            }),
    {
        let owned = String::new();
        proof {
            lemma_line_views_push(self.out@, owned);
        }
        self.out.push(owned);
    }

    /// Emits the pending relocation instructions: one `exec git branch -f`
    /// line per pending branch not named like the rebased branch, a blank
    /// line after the group if it is non-empty. Reports whether any
    /// instruction was emitted.
    pub fn update_previous_branches(&mut self) -> (updated: bool)
        ensures
            final(self).ctx() == old(self).ctx(),
            final(self).st() == spec_flush(old(self).ctx(), old(self).st()),
            updated == flush_emits(old(self).ctx(), old(self).st()),
    {
        let ghost c = self.ctx();
        let ghost s0 = self.st();
        let mut updated = false;
        let n = self.last_line_branches.len();
        let mut i: usize = 0;
        while i < n
            invariant
                i <= n,
                n == self.last_line_branches.len(),
                self.ctx() == c,
                self.last_line_branches@ == old(self).last_line_branches@,
                self.wrote_push == s0.wrote_push,
                s0 == old(self).st(),
                c == old(self).ctx(),
                branch_views(self.updated_branches@) == s0.updated + kept(
                    c.rebase_name,
                    branch_views(self.last_line_branches@.take(i as int)),
                ),
                line_views(self.out@) == s0.out + reloc_lines(
                    kept(c.rebase_name, branch_views(self.last_line_branches@.take(i as int))),
                ),
                updated == (kept(
                    c.rebase_name,
                    branch_views(self.last_line_branches@.take(i as int)),
                ).len() > 0),
            decreases n - i,
        {
            proof {
                lemma_take_succ(self.last_line_branches@, i as int);
                lemma_branch_views_push(
                    self.last_line_branches@.take(i as int),
                    self.last_line_branches@[i as int],
                );
                lemma_kept_push(
                    c.rebase_name,
                    branch_views(self.last_line_branches@.take(i as int)),
                    self.last_line_branches@[i as int].view(),
                );
            }
            let ghost k_i = kept(c.rebase_name, branch_views(self.last_line_branches@.take(i as int)));
            let b = &self.last_line_branches[i];
            let is_rebased = str_eq(b.name.as_str(), self.rebase_branch_name.as_str());
            if !is_rebased {
                let line = make_reloc_line(self.last_line_branches[i].name.as_str());
                proof {
                    lemma_line_views_push(self.out@, line);
                    lemma_reloc_lines_push(k_i, self.last_line_branches@[i as int].view());
                    lemma_add_push(
                        s0.out,
                        reloc_lines(k_i),
                        reloc_line(self.last_line_branches@[i as int].view().name),
                    );
                }
                self.out.push(line);
                let cloned = self.last_line_branches[i].clone();
                proof {
                    lemma_branch_views_push(self.updated_branches@, cloned);
                    lemma_add_push(s0.updated, k_i, cloned.view());
                }
                self.updated_branches.push(cloned);
                updated = true;
            }
            i = i + 1;
        }
        proof {
            assert(self.last_line_branches@.take(n as int) =~= self.last_line_branches@);
        }
        if updated {
            self.write_blank();
        }
        self.last_line_branches.clear();
        proof {
            assert(branch_views(Seq::<Branch>::empty()) =~= Seq::<BranchSpec>::empty());
            if !updated {
                assert(line_views(self.out@) =~= spec_flush(c, s0).out);
            }
            assert(self.st() =~= spec_flush(old(self).ctx(), old(self).st()));
        }
        updated
    }

    /// Writes the commented push section, at most once, and only when a
    /// branch was relocated and a remote name was supplied.
    pub fn write_push_section(&mut self, pad_before: bool, pad_after: bool)
        ensures
            final(self).ctx() == old(self).ctx(),
            final(self).st() == spec_push_section(
                old(self).ctx(),
                old(self).st(),
                pad_before,
                pad_after,
            ),
    {
        if self.wrote_push {
            return ;
        }
        self.wrote_push = true;
        if self.updated_branches.len() == 0 {
            proof {
                assert(self.st() =~= spec_push_section(
                    old(self).ctx(),
                    old(self).st(),
                    pad_before,
                    pad_after,
                ));
            }
            return ;
        }
        let remote = match &self.remote_name {
            Option::Some(r) => r.clone(),
            Option::None => {
                proof {
                    assert(self.st() =~= spec_push_section(
                        old(self).ctx(),
                        old(self).st(),
                        pad_before,
                        pad_after,
                    ));
                }
                return ;
            },
        };
        let ghost c = old(self).ctx();
        let ghost s0 = old(self).st();
        let ghost pre = s0.out + if pad_before {
            seq![blank_line()]
        } else {
            Seq::<Seq<char>>::empty()
        } + seq![push_header()];
        if pad_before {
            self.write_blank();
        }
        let header = String::from_str("# Uncomment this section to push the changes.");
        proof {
            lemma_line_views_push(self.out@, header);
        }
        self.out.push(header);
        proof {
            assert(line_views(self.out@) =~= pre);
            assert(pre + push_lines(remote@, s0.updated.take(0)) =~= pre);
        }
        let n = self.updated_branches.len();
        let mut i: usize = 0;
        while i < n
            invariant
                i <= n,
                n == self.updated_branches.len(),
                self.ctx() == c,
                branch_views(self.updated_branches@) == s0.updated,
                branch_views(self.last_line_branches@) == s0.pending,
                self.wrote_push,
                c.remote == Option::Some(remote@),
                c == old(self).ctx(),
                s0 == old(self).st(),
                pre == s0.out + (if pad_before {
                    seq![blank_line()]
                } else {
                    Seq::<Seq<char>>::empty()
                }) + seq![push_header()],
                line_views(self.out@) == pre + push_lines(remote@, s0.updated.take(i as int)),
            decreases n - i,
        {
            proof {
                assert(branch_views(self.updated_branches@)[i as int]
                    == self.updated_branches@[i as int].view());
                lemma_push_lines_take_succ(remote@, s0.updated, i as int);
                lemma_add_push(
                    pre,
                    push_lines(remote@, s0.updated.take(i as int)),
                    push_line(remote@, s0.updated[i as int].name),
                );
            }
            let line = make_push_line(remote.as_str(), self.updated_branches[i].name.as_str());
            proof {
                lemma_line_views_push(self.out@, line);
            }
            self.out.push(line);
            i = i + 1;
        }
        if pad_after {
            self.write_blank();
        }
        proof {
            assert(s0.updated.take(n as int) =~= s0.updated);
            assert(self.st() =~= spec_push_section(
                old(self).ctx(),
                old(self).st(),
                pad_before,
                pad_after,
            ));
        }
    }

    /// Processes one input line as [`spec_process_line`] describes.
    pub fn process(&mut self, line: &str)
        ensures
            final(self).ctx() == old(self).ctx(),
            final(self).st() == spec_process_line(old(self).ctx(), old(self).st(), line@),
    {
        let ghost c = old(self).ctx();
        let ghost s0 = old(self).st();
        if line.is_empty() {
            // Blank lines delineate sections: flush pending relocation
            // instructions before going on to the next section, and keep
            // the separator when the flush added none of its own.
            let updated = self.update_previous_branches();
            if !updated {
                self.write_blank();
            }
            return ;
        }
        // A comment usually marks the end of the instructions: flush, then
        // write the optional push section.
        if line.get_char(0) == '#' {
            self.update_previous_branches();
            self.write_push_section(false, true);
        }
        let n = line.unicode_len();
        let first_space = find_char(line, ' ', 0);
        proof {
            crate::text::lemma_find_char(line@, ' ', 0);
        }
        let cmd = line.substring_char(0, first_space);
        proof {
            assert(cmd@ == spec_cmd(line@));
        }
        // A squash-like command folds into the commit before it, so it must
        // not flush that commit's branches; every other command does.
        if !is_squash(cmd) {
            self.update_previous_branches();
        }
        // The original line always passes through unchanged.
        self.write_line(line);
        if is_pick(cmd) && first_space < n {
            let hash_start = first_space + 1;
            let hash_stop = find_char(line, ' ', hash_start);
            proof {
                crate::text::lemma_find_char(line@, ' ', hash_start as int);
            }
            let hash = line.substring_char(hash_start, hash_stop);
            proof {
                assert(hash@ == spec_hash(line@));
            }
            let mut found = self.index.lookup(hash);
            proof {
                lemma_branch_views_add(self.last_line_branches@, found@);
            }
            self.last_line_branches.append(&mut found);
            proof {
                assert(self.st() =~= spec_process_line(c, s0, line@));
            }
        } else {
            proof {
                assert(self.st() =~= spec_process_line(c, s0, line@));
            }
        }
    }
}

/// Rewrites a whole instruction list: processes every line in order, then
/// flushes once more and writes the push section with leading padding.
///
/// The output is exactly [`spec_restack`] of the inputs' views.
pub fn restack(
    remote_name: Option<String>,
    rebase_branch_name: String,
    branches: Vec<Branch>,
    lines: &Vec<String>,
) -> (out: Vec<String>)
    ensures
        line_views(out@) == spec_restack(
            RewriteCtx {
                remote: match remote_name {
                    Option::None => Option::None,
                    Option::Some(s) => Option::Some(s@),
                },
                rebase_name: rebase_branch_name@,
                branches: branch_views(branches@),
            },
            line_views(lines@),
        ),
{
    let mut r = Restack::new(remote_name, rebase_branch_name, branches);
    let ghost c = r.ctx();
    let n = lines.len();
    let mut i: usize = 0;
    while i < n
        invariant
            i <= n,
            n == lines.len(),
            r.ctx() == c,
            c == (RewriteCtx {
                remote: match remote_name {
                    Option::None => Option::None,
                    Option::Some(s) => Option::Some(s@),
                },
                rebase_name: rebase_branch_name@,
                branches: branch_views(branches@),
            }),
            r.st() == spec_process_all(c, init_state(), line_views(lines@).take(i as int)),
        decreases n - i,
    {
        proof {
            lemma_take_succ(line_views(lines@), i as int);
        }
        r.process(lines[i].as_str());
        i = i + 1;
    }
    proof {
        assert(line_views(lines@).take(n as int) =~= line_views(lines@));
    }
    r.update_previous_branches();
    r.write_push_section(true, false);
    r.out
}

} // verus!
