//! The guarantees of the rewriter, proved of its functional model.
//!
//! Each public proof function states one law of [`crate::restack`]'s
//! transformation over every input the law speaks of.

use vstd::prelude::*;

use crate::git::BranchSpec;
use crate::restack::RewriteCtx;
use crate::restack::RewriteState;
use crate::restack::blank_line;
use crate::restack::branches_at;
use crate::restack::flush_emits;
use crate::restack::init_state;
use crate::restack::kept;
use crate::restack::line_tracks;
use crate::restack::push_header;
use crate::restack::push_line;
use crate::restack::push_lines;
use crate::restack::reloc_line;
use crate::restack::reloc_lines;
use crate::restack::spec_flush;
use crate::restack::spec_process_all;
use crate::restack::spec_process_line;
use crate::restack::spec_push_section;
use crate::restack::spec_restack;
use crate::text::spec_has_prefix;

verus! {

// ---------------------------------------------------------------------------
// Plumbing shared by the laws.
// ---------------------------------------------------------------------------

proof fn lemma_process_all_take_succ(
    c: RewriteCtx,
    s0: RewriteState,
    lines: Seq<Seq<char>>,
    j: int,
)
    requires
        0 <= j < lines.len(),
    ensures
        spec_process_all(c, s0, lines.take(j + 1)) == spec_process_line(
            c,
            spec_process_all(c, s0, lines.take(j)),
            lines[j],
        ),
{
    crate::restack::lemma_take_succ(lines, j);
    assert(lines.take(j + 1).len() == j + 1);
    assert(lines.take(j + 1).drop_last() == lines.take(j));
    assert(lines.take(j + 1).last() == lines[j]);
}

/// A flush of a state with nothing pending changes nothing.
proof fn lemma_flush_no_pending(c: RewriteCtx, s: RewriteState)
    requires
        s.pending.len() == 0,
    ensures
        spec_flush(c, s) == s,
{
    assert(s.pending =~= Seq::<BranchSpec>::empty());
    assert(kept(c.rebase_name, s.pending).len() == 0);
    assert(s.updated + kept(c.rebase_name, s.pending) =~= s.updated);
    assert(spec_flush(c, s) =~= s);
}

/// Membership in a concatenation splits over the two halves.
proof fn lemma_contains_add<A>(a: Seq<A>, b: Seq<A>, x: A)
    ensures
        (a + b).contains(x) <==> (a.contains(x) || b.contains(x)),
{
    if (a + b).contains(x) {
        let i = choose|i: int| 0 <= i < (a + b).len() && (a + b)[i] == x;
        if i < a.len() {
            assert(a[i] == x);
        } else {
            assert(b[i - a.len()] == x);
        }
    }
    if a.contains(x) {
        let i = choose|i: int| 0 <= i < a.len() && a[i] == x;
        assert((a + b)[i] == x);
    }
    if b.contains(x) {
        let i = choose|i: int| 0 <= i < b.len() && b[i] == x;
        assert((a + b)[a.len() + i] == x);
    }
}

/// The lines a flush emits, and the push section's lines, are never
/// confused with one another, with a blank line, or with the section
/// header: the first characters and lengths of the fixed prefixes differ.
proof fn lemma_line_shapes(n: Seq<char>, r: Seq<char>, m: Seq<char>)
    ensures
        reloc_line(n) != blank_line(),
        push_line(r, m) != blank_line(),
        push_header() != blank_line(),
        reloc_line(n) != push_header(),
        push_line(r, m) != reloc_line(n),
        push_line(r, m) != push_header(),
{
    reveal_strlit("exec git branch -f ");
    reveal_strlit("# exec git push -f ");
    reveal_strlit(" ");
    reveal_strlit("# Uncomment this section to push the changes.");
    assert(reloc_line(n).len() >= 19);
    assert(push_line(r, m).len() >= 20);
    assert(push_header().len() == 45);
    assert(reloc_line(n)[0] == 'e');
    assert(push_line(r, m)[0] == '#');
    assert(push_header()[0] == '#');
    assert(push_line(r, m)[2] == 'e');
    assert(push_header()[2] == 'U');
}

/// Two relocation instructions agree only on the same branch name.
proof fn lemma_reloc_line_injective(a: Seq<char>, b: Seq<char>)
    requires
        reloc_line(a) == reloc_line(b),
    ensures
        a == b,
{
    let p = "exec git branch -f "@;
    assert(reloc_line(a).len() == reloc_line(b).len());
    assert((p + a).len() == p.len() + a.len());
    assert((p + b).len() == p.len() + b.len());
    assert(a.len() == b.len());
    assert(forall|i: int| 0 <= i < a.len() ==> a[i] == b[i]) by {
        assert(forall|i: int| 0 <= i < a.len() ==> a[i] == (p + a)[p.len() + i]
            && b[i] == (p + b)[p.len() + i]);
    }
    assert(a =~= b);
}

/// Every branch a flush keeps came from the pending list and is not named
/// like the rebased branch.
proof fn lemma_kept_names(r: Seq<char>, p: Seq<BranchSpec>)
    ensures
        forall|i: int| 0 <= i < kept(r, p).len() ==> #[trigger] kept(r, p)[i].name != r,
        forall|i: int| 0 <= i < kept(r, p).len() ==> p.contains(#[trigger] kept(r, p)[i]),
    decreases p.len(),
{
    if p.len() > 0 {
        lemma_kept_names(r, p.drop_last());
        let rest = kept(r, p.drop_last());
        assert forall|i: int|
            0 <= i < kept(r, p).len() implies kept(r, p)[i].name != r && p.contains(
            kept(r, p)[i],
        ) by {
            if p.last().name == r || i < rest.len() {
                assert(kept(r, p)[i] == rest[i]);
                assert(p.drop_last().contains(rest[i]));
                let j = choose|j: int|
                    0 <= j < p.drop_last().len() && p.drop_last()[j] == rest[i];
                assert(p[j] == rest[i]);
            } else {
                assert(kept(r, p)[i] == p.last());
                assert(p[p.len() - 1] == p.last());
            }
        }
    }
}

/// A branch of the pending list that is not named like the rebased branch
/// is kept by the flush.
proof fn lemma_kept_contains(r: Seq<char>, p: Seq<BranchSpec>, b: BranchSpec)
    requires
        p.contains(b),
        b.name != r,
    ensures
        kept(r, p).contains(b),
    decreases p.len(),
{
    let i = choose|i: int| 0 <= i < p.len() && p[i] == b;
    if i == p.len() - 1 {
        assert(kept(r, p).last() == b);
    } else {
        assert(p.drop_last()[i] == b);
        lemma_kept_contains(r, p.drop_last(), b);
        let k = kept(r, p.drop_last());
        let j = choose|j: int| 0 <= j < k.len() && k[j] == b;
        assert(kept(r, p)[j] == b);
    }
}

/// What the relocation lines of a branch group contain.
proof fn lemma_reloc_lines_contains(k: Seq<BranchSpec>, x: Seq<char>)
    ensures
        reloc_lines(k).contains(x) <==> exists|i: int|
            0 <= i < k.len() && x == reloc_line(#[trigger] k[i].name),
{
    if reloc_lines(k).contains(x) {
        let i = choose|i: int| 0 <= i < reloc_lines(k).len() && reloc_lines(k)[i] == x;
        assert(x == reloc_line(k[i].name));
    }
    if exists|i: int| 0 <= i < k.len() && x == reloc_line(#[trigger] k[i].name) {
        let i = choose|i: int| 0 <= i < k.len() && x == reloc_line(#[trigger] k[i].name);
        assert(reloc_lines(k)[i] == x);
    }
}

/// What the push lines of a branch group contain.
proof fn lemma_push_lines_contains(r: Seq<char>, k: Seq<BranchSpec>, x: Seq<char>)
    ensures
        push_lines(r, k).contains(x) <==> exists|i: int|
            0 <= i < k.len() && x == push_line(r, #[trigger] k[i].name),
{
    if push_lines(r, k).contains(x) {
        let i = choose|i: int| 0 <= i < push_lines(r, k).len() && push_lines(r, k)[i] == x;
        assert(x == push_line(r, k[i].name));
    }
    if exists|i: int| 0 <= i < k.len() && x == push_line(r, #[trigger] k[i].name) {
        let i = choose|i: int| 0 <= i < k.len() && x == push_line(r, #[trigger] k[i].name);
        assert(push_lines(r, k)[i] == x);
    }
}

// ---------------------------------------------------------------------------
// Pass-through: an input that references no known branch's commit comes out
// unchanged.
// ---------------------------------------------------------------------------

proof fn lemma_passthrough_all(c: RewriteCtx, lines: Seq<Seq<char>>)
    requires
        forall|i: int| 0 <= i < lines.len() ==> #[trigger] line_tracks(c, lines[i]).len() == 0,
    ensures
        spec_process_all(c, init_state(), lines).pending == Seq::<BranchSpec>::empty(),
        spec_process_all(c, init_state(), lines).updated == Seq::<BranchSpec>::empty(),
        spec_process_all(c, init_state(), lines).out == lines,
    decreases lines.len(),
{
    if lines.len() == 0 {
        assert(spec_process_all(c, init_state(), lines).out =~= lines);
    } else {
        let prefix = lines.drop_last();
        let line = lines.last();
        assert(forall|i: int|
            0 <= i < prefix.len() ==> #[trigger] line_tracks(c, prefix[i]).len() == 0) by {
            assert(forall|i: int| 0 <= i < prefix.len() ==> prefix[i] == lines[i]);
        }
        lemma_passthrough_all(c, prefix);
        let s = spec_process_all(c, init_state(), prefix);
        lemma_flush_no_pending(c, s);
        assert(line_tracks(c, line).len() == 0) by {
            assert(lines[lines.len() - 1] == line);
        }
        let s1 = spec_process_line(c, s, line);
        if line.len() == 0 {
            assert(!flush_emits(c, s));
            assert(line =~= blank_line());
            assert(s1.out =~= lines);
        } else {
            let after_comment = if line[0] == '#' {
                spec_push_section(c, spec_flush(c, s), false, true)
            } else {
                s
            };
            assert(after_comment.pending == s.pending);
            assert(after_comment.updated == s.updated);
            assert(after_comment.out == s.out);
            lemma_flush_no_pending(c, after_comment);
            assert(s1.pending =~= Seq::<BranchSpec>::empty());
            assert(s1.out =~= lines);
        }
    }
}

// ---------------------------------------------------------------------------
// More membership and counting helpers.
// ---------------------------------------------------------------------------

proof fn lemma_contains_push<A>(s: Seq<A>, x: A, y: A)
    ensures
        s.push(x).contains(y) <==> (s.contains(y) || x == y),
{
    assert(s.push(x) =~= s + seq![x]);
    lemma_contains_add(s, seq![x], y);
    assert(seq![x][0] == x);
    if seq![x].contains(y) {
        let i = choose|i: int| 0 <= i < seq![x].len() && seq![x][i] == y;
        assert(i == 0);
    }
    if x == y {
        assert(seq![x].contains(y));
    }
}

/// How often `x` occurs among the lines of `out`.
pub open spec fn count_of(out: Seq<Seq<char>>, x: Seq<char>) -> int
    decreases out.len(),
{
    if out.len() == 0 {
        0
    } else {
        count_of(out.drop_last(), x) + if out.last() == x {
            1int
        } else {
            0int
        }
    }
}

proof fn lemma_count_add(a: Seq<Seq<char>>, b: Seq<Seq<char>>, x: Seq<char>)
    ensures
        count_of(a + b, x) == count_of(a, x) + count_of(b, x),
    decreases b.len(),
{
    if b.len() == 0 {
        assert(a + b =~= a);
    } else {
        lemma_count_add(a, b.drop_last(), x);
        assert((a + b).drop_last() =~= a + b.drop_last());
        assert((a + b).last() == b.last());
    }
}

proof fn lemma_count_push(s: Seq<Seq<char>>, y: Seq<char>, x: Seq<char>)
    ensures
        count_of(s.push(y), x) == count_of(s, x) + if y == x {
            1int
        } else {
            0int
        },
{
    assert(s.push(y).drop_last() =~= s);
    assert(s.push(y).last() == y);
}

proof fn lemma_count_zero(s: Seq<Seq<char>>, x: Seq<char>)
    requires
        forall|i: int| 0 <= i < s.len() ==> s[i] != x,
    ensures
        count_of(s, x) == 0,
        !s.contains(x),
    decreases s.len(),
{
    if s.len() > 0 {
        assert(forall|i: int| 0 <= i < s.drop_last().len() ==> s.drop_last()[i] == s[i]);
        lemma_count_zero(s.drop_last(), x);
    }
}

// ---------------------------------------------------------------------------
// How one transition changes the output: monotonicity and what is added.
// ---------------------------------------------------------------------------

/// A flush never removes an output line.
proof fn lemma_flush_mono(c: RewriteCtx, s: RewriteState, x: Seq<char>)
    requires
        s.out.contains(x),
    ensures
        spec_flush(c, s).out.contains(x),
{
    let k = kept(c.rebase_name, s.pending);
    if k.len() > 0 {
        lemma_contains_add(s.out, reloc_lines(k), x);
        lemma_contains_add(s.out + reloc_lines(k), seq![blank_line()], x);
    }
}

/// The push section never removes an output line.
proof fn lemma_push_section_mono(
    c: RewriteCtx,
    s: RewriteState,
    pb: bool,
    pa: bool,
    x: Seq<char>,
)
    requires
        s.out.contains(x),
    ensures
        spec_push_section(c, s, pb, pa).out.contains(x),
{
    if !s.wrote_push && s.updated.len() > 0 && c.remote is Some {
        let r = c.remote->Some_0;
        let before = if pb {
            seq![blank_line()]
        } else {
            Seq::<Seq<char>>::empty()
        };
        let after = if pa {
            seq![blank_line()]
        } else {
            Seq::<Seq<char>>::empty()
        };
        lemma_contains_add(s.out, before, x);
        lemma_contains_add(s.out + before, seq![push_header()], x);
        lemma_contains_add(s.out + before + seq![push_header()], push_lines(r, s.updated), x);
        lemma_contains_add(
            s.out + before + seq![push_header()] + push_lines(r, s.updated),
            after,
            x,
        );
    }
}

/// Processing a line never removes an output line.
proof fn lemma_process_mono(c: RewriteCtx, s: RewriteState, l: Seq<char>, x: Seq<char>)
    requires
        s.out.contains(x),
    ensures
        spec_process_line(c, s, l).out.contains(x),
{
    if l.len() == 0 {
        lemma_flush_mono(c, s, x);
        lemma_contains_push(spec_flush(c, s).out, blank_line(), x);
    } else {
        let s1 = if l[0] == '#' {
            spec_push_section(c, spec_flush(c, s), false, true)
        } else {
            s
        };
        if l[0] == '#' {
            lemma_flush_mono(c, s, x);
            lemma_push_section_mono(c, spec_flush(c, s), false, true, x);
        }
        let s2 = if crate::restack::is_squash_cmd(crate::restack::spec_cmd(l)) {
            s1
        } else {
            spec_flush(c, s1)
        };
        lemma_flush_mono(c, s1, x);
        lemma_contains_push(s2.out, l, x);
    }
}

/// A flush emits the relocation instruction of every pending branch not
/// named like the rebased branch.
proof fn lemma_flush_emits_reloc(c: RewriteCtx, s: RewriteState, b: BranchSpec)
    requires
        s.pending.contains(b),
        b.name != c.rebase_name,
    ensures
        spec_flush(c, s).out.contains(reloc_line(b.name)),
{
    lemma_kept_contains(c.rebase_name, s.pending, b);
    let k = kept(c.rebase_name, s.pending);
    let i = choose|i: int| 0 <= i < k.len() && k[i] == b;
    assert(reloc_lines(k)[i] == reloc_line(b.name));
    assert(reloc_lines(k).contains(reloc_line(b.name)));
    lemma_contains_add(s.out, reloc_lines(k), reloc_line(b.name));
    lemma_contains_add(s.out + reloc_lines(k), seq![blank_line()], reloc_line(b.name));
}

/// Pass-through law: when no command line of the input references the commit
/// of any known branch, the rewriter emits the input exactly, unchanged.
pub proof fn lemma_pass_through(c: RewriteCtx, lines: Seq<Seq<char>>)
    requires
        forall|i: int| 0 <= i < lines.len() ==> #[trigger] line_tracks(c, lines[i]).len() == 0,
    ensures
        spec_restack(c, lines) == lines,
{
    lemma_passthrough_all(c, lines);
    let s = spec_process_all(c, init_state(), lines);
    lemma_flush_no_pending(c, s);
    assert(spec_push_section(c, spec_flush(c, s), true, false).out == lines);
}

// ---------------------------------------------------------------------------
// Self-bookmark suppression: no relocation instruction is ever emitted for
// the branch under rebase.
// ---------------------------------------------------------------------------

proof fn lemma_flush_no_self(c: RewriteCtx, s: RewriteState)
    requires
        !s.out.contains(reloc_line(c.rebase_name)),
    ensures
        !spec_flush(c, s).out.contains(reloc_line(c.rebase_name)),
{
    let target = reloc_line(c.rebase_name);
    let k = kept(c.rebase_name, s.pending);
    if k.len() > 0 {
        lemma_kept_names(c.rebase_name, s.pending);
        assert(!reloc_lines(k).contains(target)) by {
            lemma_reloc_lines_contains(k, target);
            if exists|i: int| 0 <= i < k.len() && target == reloc_line(#[trigger] k[i].name) {
                let i = choose|i: int|
                    0 <= i < k.len() && target == reloc_line(#[trigger] k[i].name);
                lemma_reloc_line_injective(k[i].name, c.rebase_name);
                assert(false);
            }
        }
        assert(!seq![blank_line()].contains(target)) by {
            lemma_line_shapes(c.rebase_name, Seq::empty(), Seq::empty());
            if seq![blank_line()].contains(target) {
                let i = choose|i: int|
                    0 <= i < seq![blank_line()].len() && seq![blank_line()][i] == target;
                assert(i == 0);
            }
        }
        lemma_contains_add(s.out, reloc_lines(k), target);
        lemma_contains_add(s.out + reloc_lines(k), seq![blank_line()], target);
    }
}

proof fn lemma_push_section_no_self(c: RewriteCtx, s: RewriteState, pb: bool, pa: bool)
    requires
        !s.out.contains(reloc_line(c.rebase_name)),
    ensures
        !spec_push_section(c, s, pb, pa).out.contains(reloc_line(c.rebase_name)),
{
    let target = reloc_line(c.rebase_name);
    if !s.wrote_push && s.updated.len() > 0 && c.remote is Some {
        let r = c.remote->Some_0;
        let before = if pb {
            seq![blank_line()]
        } else {
            Seq::<Seq<char>>::empty()
        };
        let after = if pa {
            seq![blank_line()]
        } else {
            Seq::<Seq<char>>::empty()
        };
        lemma_line_shapes(c.rebase_name, r, c.rebase_name);
        assert(!before.contains(target) && !after.contains(target) && !seq![push_header()]
            .contains(target)) by {
            if before.contains(target) {
                let i = choose|i: int| 0 <= i < before.len() && before[i] == target;
                assert(i == 0);
            }
            if after.contains(target) {
                let i = choose|i: int| 0 <= i < after.len() && after[i] == target;
                assert(i == 0);
            }
            if seq![push_header()].contains(target) {
                let i = choose|i: int|
                    0 <= i < seq![push_header()].len() && seq![push_header()][i] == target;
                assert(i == 0);
            }
        }
        assert(!push_lines(r, s.updated).contains(target)) by {
            lemma_push_lines_contains(r, s.updated, target);
            if exists|i: int|
                0 <= i < s.updated.len() && target == push_line(r, #[trigger] s.updated[i].name) {
                let i = choose|i: int|
                    0 <= i < s.updated.len() && target == push_line(
                        r,
                        #[trigger] s.updated[i].name,
                    );
                lemma_line_shapes(c.rebase_name, r, s.updated[i].name);
                assert(false);
            }
        }
        lemma_contains_add(s.out, before, target);
        lemma_contains_add(s.out + before, seq![push_header()], target);
        lemma_contains_add(s.out + before + seq![push_header()], push_lines(r, s.updated), target);
        lemma_contains_add(
            s.out + before + seq![push_header()] + push_lines(r, s.updated),
            after,
            target,
        );
    }
}

proof fn lemma_process_no_self(c: RewriteCtx, s: RewriteState, l: Seq<char>)
    requires
        !s.out.contains(reloc_line(c.rebase_name)),
        l != reloc_line(c.rebase_name),
    ensures
        !spec_process_line(c, s, l).out.contains(reloc_line(c.rebase_name)),
{
    let target = reloc_line(c.rebase_name);
    if l.len() == 0 {
        lemma_flush_no_self(c, s);
        lemma_line_shapes(c.rebase_name, Seq::empty(), Seq::empty());
        lemma_contains_push(spec_flush(c, s).out, blank_line(), target);
    } else {
        let s1 = if l[0] == '#' {
            spec_push_section(c, spec_flush(c, s), false, true)
        } else {
            s
        };
        if l[0] == '#' {
            lemma_flush_no_self(c, s);
            lemma_push_section_no_self(c, spec_flush(c, s), false, true);
        }
        let s2 = if crate::restack::is_squash_cmd(crate::restack::spec_cmd(l)) {
            s1
        } else {
            spec_flush(c, s1)
        };
        lemma_flush_no_self(c, s1);
        lemma_contains_push(s2.out, l, target);
    }
}

proof fn lemma_no_self_all(c: RewriteCtx, lines: Seq<Seq<char>>)
    requires
        forall|i: int| 0 <= i < lines.len() ==> lines[i] != reloc_line(c.rebase_name),
    ensures
        !spec_process_all(c, init_state(), lines).out.contains(reloc_line(c.rebase_name)),
    decreases lines.len(),
{
    if lines.len() > 0 {
        let prefix = lines.drop_last();
        assert(forall|i: int| 0 <= i < prefix.len() ==> prefix[i] == lines[i]);
        lemma_no_self_all(c, prefix);
        assert(lines[lines.len() - 1] == lines.last());
        lemma_process_no_self(c, spec_process_all(c, init_state(), prefix), lines.last());
    }
}

/// Self-bookmark suppression law: as long as the input itself holds no line
/// spelled like a relocation of the branch under rebase, the output holds
/// none either — the rewriter never relocates that branch.
pub proof fn lemma_self_bookmark_suppressed(c: RewriteCtx, lines: Seq<Seq<char>>)
    requires
        forall|i: int| 0 <= i < lines.len() ==> lines[i] != reloc_line(c.rebase_name),
    ensures
        !spec_restack(c, lines).contains(reloc_line(c.rebase_name)),
{
    lemma_no_self_all(c, lines);
    let s = spec_process_all(c, init_state(), lines);
    lemma_flush_no_self(c, s);
    lemma_push_section_no_self(c, spec_flush(c, s), true, false);
}

// ---------------------------------------------------------------------------
// The push section is written at most once, and only when a relocation was
// emitted and a remote name was supplied.
// ---------------------------------------------------------------------------

/// What every reachable state satisfies about the push section.
spec fn publish_inv(c: RewriteCtx, s: RewriteState) -> bool {
    &&& count_of(s.out, push_header()) <= 1
    &&& (!s.wrote_push ==> count_of(s.out, push_header()) == 0)
    &&& (s.out.contains(push_header()) ==> c.remote is Some)
    &&& (s.out.contains(push_header()) ==> exists|b: BranchSpec| s.updated.contains(b))
    &&& (forall|b: BranchSpec|
        s.updated.contains(b) ==> s.out.contains(reloc_line(b.name)) && b.name != c.rebase_name)
}

proof fn lemma_publish_flush(c: RewriteCtx, s: RewriteState)
    requires
        publish_inv(c, s),
    ensures
        publish_inv(c, spec_flush(c, s)),
{
    let h = push_header();
    let k = kept(c.rebase_name, s.pending);
    let s1 = spec_flush(c, s);
    lemma_kept_names(c.rebase_name, s.pending);
    if k.len() > 0 {
        assert(forall|i: int| 0 <= i < reloc_lines(k).len() ==> reloc_lines(k)[i] != h) by {
            assert forall|i: int| 0 <= i < reloc_lines(k).len() implies reloc_lines(k)[i] != h by {
                lemma_line_shapes(k[i].name, Seq::empty(), Seq::empty());
            }
        }
        lemma_count_zero(reloc_lines(k), h);
        assert(forall|i: int| 0 <= i < seq![blank_line()].len() ==> seq![blank_line()][i] != h) by {
            lemma_line_shapes(Seq::empty(), Seq::empty(), Seq::empty());
            assert(seq![blank_line()][0] == blank_line());
        }
        lemma_count_zero(seq![blank_line()], h);
        lemma_count_add(s.out, reloc_lines(k), h);
        lemma_count_add(s.out + reloc_lines(k), seq![blank_line()], h);
        lemma_contains_add(s.out, reloc_lines(k), h);
        lemma_contains_add(s.out + reloc_lines(k), seq![blank_line()], h);
    }
    if s1.out.contains(h) {
        let b = choose|b: BranchSpec| s.updated.contains(b);
        lemma_contains_add(s.updated, k, b);
        assert(s1.updated.contains(b));
    }
    assert forall|b: BranchSpec| s1.updated.contains(b) implies s1.out.contains(reloc_line(b.name))
        && b.name != c.rebase_name by {
        lemma_contains_add(s.updated, k, b);
        if s.updated.contains(b) {
            lemma_flush_mono(c, s, reloc_line(b.name));
        } else {
            let i = choose|i: int| 0 <= i < k.len() && k[i] == b;
            assert(b.name != c.rebase_name);
            assert(reloc_lines(k)[i] == reloc_line(b.name));
            assert(reloc_lines(k).contains(reloc_line(b.name)));
            lemma_contains_add(s.out, reloc_lines(k), reloc_line(b.name));
            lemma_contains_add(s.out + reloc_lines(k), seq![blank_line()], reloc_line(b.name));
        }
    }
}

proof fn lemma_publish_push_section(c: RewriteCtx, s: RewriteState, pb: bool, pa: bool)
    requires
        publish_inv(c, s),
    ensures
        publish_inv(c, spec_push_section(c, s, pb, pa)),
{
    let h = push_header();
    let s1 = spec_push_section(c, s, pb, pa);
    if !s.wrote_push && s.updated.len() > 0 && c.remote is Some {
        let r = c.remote->Some_0;
        let before = if pb {
            seq![blank_line()]
        } else {
            Seq::<Seq<char>>::empty()
        };
        let after = if pa {
            seq![blank_line()]
        } else {
            Seq::<Seq<char>>::empty()
        };
        lemma_line_shapes(Seq::empty(), r, Seq::empty());
        assert(forall|i: int| 0 <= i < before.len() ==> before[i] != h);
        assert(forall|i: int| 0 <= i < after.len() ==> after[i] != h);
        lemma_count_zero(before, h);
        lemma_count_zero(after, h);
        assert(forall|i: int| 0 <= i < push_lines(r, s.updated).len() ==> push_lines(r, s.updated)[i]
            != h) by {
            assert forall|i: int|
                0 <= i < push_lines(r, s.updated).len() implies push_lines(r, s.updated)[i]
                != h by {
                lemma_line_shapes(Seq::empty(), r, s.updated[i].name);
            }
        }
        lemma_count_zero(push_lines(r, s.updated), h);
        assert(count_of(seq![h], h) == 1) by {
            assert(seq![h] =~= Seq::<Seq<char>>::empty().push(h));
            lemma_count_push(Seq::<Seq<char>>::empty(), h, h);
        }
        lemma_count_add(s.out, before, h);
        lemma_count_add(s.out + before, seq![h], h);
        lemma_count_add(s.out + before + seq![h], push_lines(r, s.updated), h);
        lemma_count_add(s.out + before + seq![h] + push_lines(r, s.updated), after, h);
        assert(count_of(s1.out, h) == 1);
        assert(s1.updated[0] == s.updated[0]);
        assert(s1.updated.contains(s.updated[0]));
        assert forall|b: BranchSpec| s1.updated.contains(b) implies s1.out.contains(
            reloc_line(b.name),
        ) && b.name != c.rebase_name by {
            lemma_push_section_mono(c, s, pb, pa, reloc_line(b.name));
        }
    } else {
        assert forall|b: BranchSpec| s1.updated.contains(b) implies s1.out.contains(
            reloc_line(b.name),
        ) && b.name != c.rebase_name by {
            assert(s.updated.contains(b));
        }
        if s1.out.contains(h) {
            assert(s.out.contains(h));
            let w = choose|w: BranchSpec| s.updated.contains(w);
            let j = choose|j: int| 0 <= j < s.updated.len() && s.updated[j] == w;
            assert(s1.updated[j] == w);
            assert(s1.updated.contains(w));
        }
    }
}

proof fn lemma_exists_transfer(u: Seq<BranchSpec>, v: Seq<BranchSpec>)
    requires
        u == v,
        exists|b: BranchSpec| u.contains(b),
    ensures
        exists|b: BranchSpec| v.contains(b),
{
    let w = choose|w: BranchSpec| u.contains(w);
    assert(v.contains(w));
}

proof fn lemma_publish_process(c: RewriteCtx, s: RewriteState, l: Seq<char>)
    requires
        publish_inv(c, s),
        l != push_header(),
    ensures
        publish_inv(c, spec_process_line(c, s, l)),
{
    let h = push_header();
    if l.len() == 0 {
        lemma_publish_flush(c, s);
        let s1 = spec_flush(c, s);
        if !flush_emits(c, s) {
            let r = spec_process_line(c, s, l);
            lemma_count_push(s1.out, blank_line(), h);
            lemma_line_shapes(Seq::empty(), Seq::empty(), Seq::empty());
            lemma_contains_push(s1.out, blank_line(), h);
            assert forall|b: BranchSpec|
                s1.updated.contains(b) implies s1.out.push(blank_line()).contains(
                reloc_line(b.name),
            ) && b.name != c.rebase_name by {
                lemma_contains_push(s1.out, blank_line(), reloc_line(b.name));
            }
            if r.out.contains(h) {
                lemma_exists_transfer(s1.updated, r.updated);
            }
        }
    } else {
        let s1 = if l[0] == '#' {
            spec_push_section(c, spec_flush(c, s), false, true)
        } else {
            s
        };
        if l[0] == '#' {
            lemma_publish_flush(c, s);
            lemma_publish_push_section(c, spec_flush(c, s), false, true);
        }
        let s2 = if crate::restack::is_squash_cmd(crate::restack::spec_cmd(l)) {
            s1
        } else {
            spec_flush(c, s1)
        };
        lemma_publish_flush(c, s1);
        let s3 = RewriteState { out: s2.out.push(l), ..s2 };
        let r = spec_process_line(c, s, l);
        lemma_count_push(s2.out, l, h);
        lemma_contains_push(s2.out, l, h);
        assert forall|b: BranchSpec| s3.updated.contains(b) implies s3.out.contains(
            reloc_line(b.name),
        ) && b.name != c.rebase_name by {
            lemma_contains_push(s2.out, l, reloc_line(b.name));
        }
        if s3.out.contains(h) {
            lemma_exists_transfer(s2.updated, s3.updated);
        }
        assert(publish_inv(c, s3));
        if r.out.contains(h) {
            lemma_exists_transfer(s3.updated, r.updated);
        }
        assert forall|b: BranchSpec| r.updated.contains(b) implies r.out.contains(
            reloc_line(b.name),
        ) && b.name != c.rebase_name by {
            assert(s3.updated.contains(b));
        }
    }
}

proof fn lemma_publish_all(c: RewriteCtx, lines: Seq<Seq<char>>)
    requires
        forall|i: int| 0 <= i < lines.len() ==> lines[i] != push_header(),
    ensures
        publish_inv(c, spec_process_all(c, init_state(), lines)),
    decreases lines.len(),
{
    if lines.len() == 0 {
        assert(count_of(Seq::<Seq<char>>::empty(), push_header()) == 0);
    } else {
        let prefix = lines.drop_last();
        assert(forall|i: int| 0 <= i < prefix.len() ==> prefix[i] == lines[i]);
        lemma_publish_all(c, prefix);
        assert(lines[lines.len() - 1] == lines.last());
        lemma_publish_process(c, spec_process_all(c, init_state(), prefix), lines.last());
    }
}

/// Publish-section law: provided the input itself holds no line spelled
/// like the section header, the output holds the header at most once, holds
/// it only when a remote name was supplied, and holds it only together with
/// a relocation instruction for some branch other than the one under
/// rebase.
pub proof fn lemma_publish_once(c: RewriteCtx, lines: Seq<Seq<char>>)
    requires
        forall|i: int| 0 <= i < lines.len() ==> lines[i] != push_header(),
    ensures
        count_of(spec_restack(c, lines), push_header()) <= 1,
        spec_restack(c, lines).contains(push_header()) ==> c.remote is Some,
        spec_restack(c, lines).contains(push_header()) ==> exists|n: Seq<char>|
            n != c.rebase_name && #[trigger] spec_restack(c, lines).contains(reloc_line(n)),
{
    lemma_publish_all(c, lines);
    let s = spec_process_all(c, init_state(), lines);
    lemma_publish_flush(c, s);
    lemma_publish_push_section(c, spec_flush(c, s), true, false);
    let out = spec_restack(c, lines);
    let s_end = spec_push_section(c, spec_flush(c, s), true, false);
    if out.contains(push_header()) {
        let b = choose|b: BranchSpec| s_end.updated.contains(b);
        assert(out.contains(reloc_line(b.name)) && b.name != c.rebase_name);
    }
}

// ---------------------------------------------------------------------------
// No bookmark loses its relocation: a branch tracked by some command line,
// and not under rebase, has a relocation instruction in the output.
// ---------------------------------------------------------------------------

/// Processing one more line keeps the claim "the relocation is already
/// emitted, or the branch is still pending".
proof fn lemma_process_keeps_claim(c: RewriteCtx, s: RewriteState, l: Seq<char>, b: BranchSpec)
    requires
        b.name != c.rebase_name,
        s.out.contains(reloc_line(b.name)) || s.pending.contains(b),
    ensures
        spec_process_line(c, s, l).out.contains(reloc_line(b.name)) || spec_process_line(
            c,
            s,
            l,
        ).pending.contains(b),
{
    let t = reloc_line(b.name);
    if s.out.contains(t) {
        lemma_process_mono(c, s, l, t);
    } else {
        if l.len() == 0 {
            lemma_flush_emits_reloc(c, s, b);
            lemma_contains_push(spec_flush(c, s).out, blank_line(), t);
        } else {
            let s1 = if l[0] == '#' {
                spec_push_section(c, spec_flush(c, s), false, true)
            } else {
                s
            };
            if l[0] == '#' {
                lemma_flush_emits_reloc(c, s, b);
                lemma_push_section_mono(c, spec_flush(c, s), false, true, t);
            }
            let squash = crate::restack::is_squash_cmd(crate::restack::spec_cmd(l));
            let s2 = if squash {
                s1
            } else {
                spec_flush(c, s1)
            };
            if l[0] == '#' || !squash {
                // a flush happened at or before this point: the line is out
                if l[0] != '#' {
                    lemma_flush_emits_reloc(c, s1, b);
                } else {
                    lemma_flush_mono(c, s1, t);
                }
                lemma_contains_push(s2.out, l, t);
            } else {
                // squash-like command, no comment: the branch stays pending
                assert(s2.pending.contains(b));
                if crate::restack::is_pick_cmd(crate::restack::spec_cmd(l))
                    && crate::restack::has_second_field(l) {
                    lemma_contains_add(
                        s2.pending,
                        branches_at(c.branches, crate::restack::spec_hash(l)),
                        b,
                    );
                }
                lemma_contains_push(s2.out, l, t);
            }
        }
    }
}

proof fn lemma_claim_at(c: RewriteCtx, lines: Seq<Seq<char>>, i: int, b: BranchSpec, j: int)
    requires
        0 <= i < lines.len(),
        i < j <= lines.len(),
        line_tracks(c, lines[i]).contains(b),
        b.name != c.rebase_name,
    ensures
        spec_process_all(c, init_state(), lines.take(j)).out.contains(reloc_line(b.name))
            || spec_process_all(c, init_state(), lines.take(j)).pending.contains(b),
    decreases j,
{
    if j == i + 1 {
        lemma_process_all_take_succ(c, init_state(), lines, i);
        let s_prev = spec_process_all(c, init_state(), lines.take(i));
        let l = lines[i];
        assert(line_tracks(c, l).len() > 0) by {
            let w = choose|w: int| 0 <= w < line_tracks(c, l).len() && line_tracks(c, l)[w] == b;
        }
        let s1 = if l[0] == '#' {
            spec_push_section(c, spec_flush(c, s_prev), false, true)
        } else {
            s_prev
        };
        let s2 = if crate::restack::is_squash_cmd(crate::restack::spec_cmd(l)) {
            s1
        } else {
            spec_flush(c, s1)
        };
        lemma_contains_add(s2.pending, branches_at(c.branches, crate::restack::spec_hash(l)), b);
    } else {
        lemma_claim_at(c, lines, i, b, j - 1);
        lemma_process_all_take_succ(c, init_state(), lines, j - 1);
        lemma_process_keeps_claim(
            c,
            spec_process_all(c, init_state(), lines.take(j - 1)),
            lines[j - 1],
            b,
        );
    }
}

// ---------------------------------------------------------------------------
// Ordering: the relocation lines of the output list the touched branches in
// order, and the push section lists a prefix of them, in the same order.
// ---------------------------------------------------------------------------

/// The fixed prefix of every relocation instruction.
pub open spec fn reloc_prefix() -> Seq<char> {
    "exec git branch -f "@
}

/// The fixed prefix of every commented push instruction.
pub open spec fn push_prefix() -> Seq<char> {
    "# exec git push -f "@
}

/// The lines of `out` that carry the prefix `p`, in order.
pub open spec fn sel_prefix(out: Seq<Seq<char>>, p: Seq<char>) -> Seq<Seq<char>>
    decreases out.len(),
{
    if out.len() == 0 {
        Seq::empty()
    } else {
        let rest = sel_prefix(out.drop_last(), p);
        if spec_has_prefix(out.last(), p) {
            rest.push(out.last())
        } else {
            rest
        }
    }
}

/// The branches the whole run relocates, in emission order.
pub open spec fn spec_touched(c: RewriteCtx, lines: Seq<Seq<char>>) -> Seq<BranchSpec> {
    spec_push_section(c, spec_flush(c, spec_process_all(c, init_state(), lines)), true, false)
        .updated
}

proof fn lemma_sel_add(a: Seq<Seq<char>>, b: Seq<Seq<char>>, p: Seq<char>)
    ensures
        sel_prefix(a + b, p) == sel_prefix(a, p) + sel_prefix(b, p),
    decreases b.len(),
{
    if b.len() == 0 {
        assert(a + b =~= a);
        assert(sel_prefix(a, p) + sel_prefix(b, p) =~= sel_prefix(a, p));
    } else {
        lemma_sel_add(a, b.drop_last(), p);
        assert((a + b).drop_last() =~= a + b.drop_last());
        assert((a + b).last() == b.last());
        if spec_has_prefix(b.last(), p) {
            assert(sel_prefix(a, p) + sel_prefix(b.drop_last(), p).push(b.last()) =~= (sel_prefix(
                a,
                p,
            ) + sel_prefix(b.drop_last(), p)).push(b.last()));
        }
    }
}

proof fn lemma_sel_push(s: Seq<Seq<char>>, y: Seq<char>, p: Seq<char>)
    ensures
        sel_prefix(s.push(y), p) == if spec_has_prefix(y, p) {
            sel_prefix(s, p).push(y)
        } else {
            sel_prefix(s, p)
        },
{
    assert(s.push(y).drop_last() =~= s);
    assert(s.push(y).last() == y);
}

/// A group of lines none of which carries the prefix adds nothing to the
/// selection.
proof fn lemma_sel_none(s: Seq<Seq<char>>, p: Seq<char>)
    requires
        forall|i: int| 0 <= i < s.len() ==> !spec_has_prefix(#[trigger] s[i], p),
    ensures
        sel_prefix(s, p) == Seq::<Seq<char>>::empty(),
    decreases s.len(),
{
    if s.len() > 0 {
        assert(forall|i: int| 0 <= i < s.drop_last().len() ==> s.drop_last()[i] == s[i]);
        lemma_sel_none(s.drop_last(), p);
    }
}

/// A group of lines all of which carry the prefix is selected whole.
proof fn lemma_sel_all(s: Seq<Seq<char>>, p: Seq<char>)
    requires
        forall|i: int| 0 <= i < s.len() ==> spec_has_prefix(#[trigger] s[i], p),
    ensures
        sel_prefix(s, p) == s,
    decreases s.len(),
{
    if s.len() > 0 {
        assert(forall|i: int| 0 <= i < s.drop_last().len() ==> s.drop_last()[i] == s[i]);
        lemma_sel_all(s.drop_last(), p);
        assert(sel_prefix(s, p) =~= s);
    } else {
        assert(sel_prefix(s, p) =~= s);
    }
}

/// Which fixed lines carry which prefix.
proof fn lemma_prefix_shapes(n: Seq<char>, r: Seq<char>, m: Seq<char>)
    ensures
        spec_has_prefix(reloc_line(n), reloc_prefix()),
        !spec_has_prefix(reloc_line(n), push_prefix()),
        spec_has_prefix(push_line(r, m), push_prefix()),
        !spec_has_prefix(push_line(r, m), reloc_prefix()),
        !spec_has_prefix(blank_line(), reloc_prefix()),
        !spec_has_prefix(blank_line(), push_prefix()),
        !spec_has_prefix(push_header(), reloc_prefix()),
        !spec_has_prefix(push_header(), push_prefix()),
{
    reveal_strlit("exec git branch -f ");
    reveal_strlit("# exec git push -f ");
    reveal_strlit(" ");
    reveal_strlit("# Uncomment this section to push the changes.");
    assert(reloc_line(n).subrange(0, reloc_prefix().len() as int) =~= reloc_prefix());
    assert(push_line(r, m).subrange(0, push_prefix().len() as int) =~= push_prefix());
    assert(reloc_line(n)[0] == 'e');
    assert(push_line(r, m)[0] == '#');
    assert(push_header()[0] == '#');
    assert(push_header()[2] == 'U');
    assert(push_line(r, m)[2] == 'e');
    if spec_has_prefix(reloc_line(n), push_prefix()) {
        assert(reloc_line(n).subrange(0, push_prefix().len() as int)[0] == reloc_line(n)[0]);
        assert(false);
    }
    if spec_has_prefix(push_line(r, m), reloc_prefix()) {
        assert(push_line(r, m).subrange(0, reloc_prefix().len() as int)[0] == push_line(r, m)[0]);
        assert(false);
    }
    if spec_has_prefix(push_header(), reloc_prefix()) {
        assert(push_header().subrange(0, reloc_prefix().len() as int)[0] == push_header()[0]);
        assert(false);
    }
    if spec_has_prefix(push_header(), push_prefix()) {
        assert(push_header().subrange(0, push_prefix().len() as int)[2] == push_header()[2]);
        assert(false);
    }
}

proof fn lemma_reloc_lines_add(a: Seq<BranchSpec>, b: Seq<BranchSpec>)
    ensures
        reloc_lines(a + b) == reloc_lines(a) + reloc_lines(b),
{
    assert(reloc_lines(a + b) =~= reloc_lines(a) + reloc_lines(b));
}

proof fn lemma_take_add_left(a: Seq<BranchSpec>, b: Seq<BranchSpec>, k: int)
    requires
        0 <= k <= a.len(),
    ensures
        (a + b).take(k) == a.take(k),
{
    assert((a + b).take(k) =~= a.take(k));
}

/// What every reachable state satisfies about the order of the emitted
/// instructions.
spec fn order_inv(c: RewriteCtx, s: RewriteState) -> bool {
    &&& sel_prefix(s.out, reloc_prefix()) == reloc_lines(s.updated)
    &&& match c.remote {
        Option::None => sel_prefix(s.out, push_prefix()).len() == 0,
        Option::Some(r) => {
            &&& (!s.wrote_push ==> sel_prefix(s.out, push_prefix()).len() == 0)
            &&& exists|k: int|
                0 <= k <= s.updated.len() && sel_prefix(s.out, push_prefix()) == push_lines(
                    r,
                    #[trigger] s.updated.take(k),
                )
        },
    }
}

proof fn lemma_order_flush(c: RewriteCtx, s: RewriteState)
    requires
        order_inv(c, s),
    ensures
        order_inv(c, spec_flush(c, s)),
{
    let k = kept(c.rebase_name, s.pending);
    let s1 = spec_flush(c, s);
    assert(forall|i: int|
        0 <= i < reloc_lines(k).len() ==> spec_has_prefix(#[trigger] reloc_lines(k)[i],
        reloc_prefix()) && !spec_has_prefix(reloc_lines(k)[i], push_prefix())) by {
        assert forall|i: int|
            0 <= i < reloc_lines(k).len() implies spec_has_prefix(#[trigger] reloc_lines(k)[i],
            reloc_prefix()) && !spec_has_prefix(reloc_lines(k)[i], push_prefix()) by {
            lemma_prefix_shapes(k[i].name, Seq::empty(), Seq::empty());
        }
    }
    lemma_prefix_shapes(Seq::empty(), Seq::empty(), Seq::empty());
    if k.len() > 0 {
        lemma_sel_add(s.out, reloc_lines(k), reloc_prefix());
        lemma_sel_add(s.out + reloc_lines(k), seq![blank_line()], reloc_prefix());
        lemma_sel_all(reloc_lines(k), reloc_prefix());
        assert(forall|i: int|
            0 <= i < seq![blank_line()].len() ==> !spec_has_prefix(#[trigger] seq![blank_line()][i],
            reloc_prefix()) && !spec_has_prefix(seq![blank_line()][i], push_prefix())) by {
            assert(seq![blank_line()][0] == blank_line());
        }
        lemma_sel_none(seq![blank_line()], reloc_prefix());
        lemma_reloc_lines_add(s.updated, k);
        assert(sel_prefix(s1.out, reloc_prefix()) =~= reloc_lines(s1.updated));
        lemma_sel_add(s.out, reloc_lines(k), push_prefix());
        lemma_sel_add(s.out + reloc_lines(k), seq![blank_line()], push_prefix());
        lemma_sel_none(reloc_lines(k), push_prefix());
        lemma_sel_none(seq![blank_line()], push_prefix());
        assert(sel_prefix(s1.out, push_prefix()) =~= sel_prefix(s.out, push_prefix()));
        match c.remote {
            Option::None => {
            },
            Option::Some(r) => {
                let w = choose|w: int|
                    0 <= w <= s.updated.len() && sel_prefix(s.out, push_prefix()) == push_lines(
                        r,
                        #[trigger] s.updated.take(w),
                    );
                lemma_take_add_left(s.updated, k, w);
                assert(s1.updated.take(w) == s.updated.take(w));
                assert(sel_prefix(s1.out, push_prefix()) == push_lines(r, s1.updated.take(w)));
            },
        }
    } else {
        assert(s1.updated =~= s.updated);
        assert(s1.out == s.out);
        match c.remote {
            Option::None => {
            },
            Option::Some(r) => {
                let w = choose|w: int|
                    0 <= w <= s.updated.len() && sel_prefix(s.out, push_prefix()) == push_lines(
                        r,
                        #[trigger] s.updated.take(w),
                    );
                assert(s1.updated.take(w) == s.updated.take(w));
                assert(sel_prefix(s1.out, push_prefix()) == push_lines(r, s1.updated.take(w)));
            },
        }
    }
}

proof fn lemma_order_push_section(c: RewriteCtx, s: RewriteState, pb: bool, pa: bool)
    requires
        order_inv(c, s),
    ensures
        order_inv(c, spec_push_section(c, s, pb, pa)),
{
    let s1 = spec_push_section(c, s, pb, pa);
    lemma_prefix_shapes(Seq::empty(), Seq::empty(), Seq::empty());
    if !s.wrote_push && s.updated.len() > 0 && c.remote is Some {
        let r = c.remote->Some_0;
        let before = if pb {
            seq![blank_line()]
        } else {
            Seq::<Seq<char>>::empty()
        };
        let after = if pa {
            seq![blank_line()]
        } else {
            Seq::<Seq<char>>::empty()
        };
        assert(forall|i: int|
            0 <= i < push_lines(r, s.updated).len() ==> spec_has_prefix(
                #[trigger] push_lines(r, s.updated)[i],
                push_prefix(),
            ) && !spec_has_prefix(push_lines(r, s.updated)[i], reloc_prefix())) by {
            assert forall|i: int|
                0 <= i < push_lines(r, s.updated).len() implies spec_has_prefix(
                #[trigger] push_lines(r, s.updated)[i],
                push_prefix(),
            ) && !spec_has_prefix(push_lines(r, s.updated)[i], reloc_prefix()) by {
                lemma_prefix_shapes(Seq::empty(), r, s.updated[i].name);
            }
        }
        assert(forall|i: int|
            0 <= i < before.len() ==> !spec_has_prefix(#[trigger] before[i], reloc_prefix())
                && !spec_has_prefix(before[i], push_prefix()));
        assert(forall|i: int|
            0 <= i < after.len() ==> !spec_has_prefix(#[trigger] after[i], reloc_prefix())
                && !spec_has_prefix(after[i], push_prefix()));
        assert(forall|i: int|
            0 <= i < seq![push_header()].len() ==> !spec_has_prefix(
                #[trigger] seq![push_header()][i],
                reloc_prefix(),
            ) && !spec_has_prefix(seq![push_header()][i], push_prefix())) by {
            assert(seq![push_header()][0] == push_header());
        }
        // relocation selection: unchanged
        lemma_sel_add(s.out, before, reloc_prefix());
        lemma_sel_add(s.out + before, seq![push_header()], reloc_prefix());
        lemma_sel_add(s.out + before + seq![push_header()], push_lines(r, s.updated), reloc_prefix());
        lemma_sel_add(
            s.out + before + seq![push_header()] + push_lines(r, s.updated),
            after,
            reloc_prefix(),
        );
        lemma_sel_none(before, reloc_prefix());
        lemma_sel_none(seq![push_header()], reloc_prefix());
        lemma_sel_none(push_lines(r, s.updated), reloc_prefix());
        lemma_sel_none(after, reloc_prefix());
        assert(sel_prefix(s1.out, reloc_prefix()) =~= reloc_lines(s1.updated));
        // push selection: exactly the push lines of the whole updated list
        lemma_sel_add(s.out, before, push_prefix());
        lemma_sel_add(s.out + before, seq![push_header()], push_prefix());
        lemma_sel_add(s.out + before + seq![push_header()], push_lines(r, s.updated), push_prefix());
        lemma_sel_add(
            s.out + before + seq![push_header()] + push_lines(r, s.updated),
            after,
            push_prefix(),
        );
        lemma_sel_none(before, push_prefix());
        lemma_sel_none(seq![push_header()], push_prefix());
        lemma_sel_all(push_lines(r, s.updated), push_prefix());
        lemma_sel_none(after, push_prefix());
        assert(s1.updated.take(s1.updated.len() as int) =~= s1.updated);
        assert(sel_prefix(s1.out, push_prefix()) =~= push_lines(
            r,
            s1.updated.take(s1.updated.len() as int),
        ));
    } else {
        assert(s1.out == s.out);
        assert(s1.updated == s.updated);
        match c.remote {
            Option::None => {
            },
            Option::Some(r) => {
                if !s.wrote_push {
                    assert(s.updated.take(0) =~= Seq::<BranchSpec>::empty());
                    assert(push_lines(r, s.updated.take(0)) =~= Seq::<Seq<char>>::empty());
                    assert(sel_prefix(s1.out, push_prefix()) =~= push_lines(r, s1.updated.take(0)));
                } else {
                    let w = choose|w: int|
                        0 <= w <= s.updated.len() && sel_prefix(s.out, push_prefix()) == push_lines(
                            r,
                            #[trigger] s.updated.take(w),
                        );
                    assert(sel_prefix(s1.out, push_prefix()) == push_lines(r, s1.updated.take(w)));
                }
            },
        }
    }
}

proof fn lemma_order_process(c: RewriteCtx, s: RewriteState, l: Seq<char>)
    requires
        order_inv(c, s),
        !spec_has_prefix(l, reloc_prefix()),
        !spec_has_prefix(l, push_prefix()),
    ensures
        order_inv(c, spec_process_line(c, s, l)),
{
    lemma_prefix_shapes(Seq::empty(), Seq::empty(), Seq::empty());
    if l.len() == 0 {
        lemma_order_flush(c, s);
        let s1 = spec_flush(c, s);
        if !flush_emits(c, s) {
            let r = spec_process_line(c, s, l);
            lemma_sel_push(s1.out, blank_line(), reloc_prefix());
            lemma_sel_push(s1.out, blank_line(), push_prefix());
            match c.remote {
                Option::None => {
                },
                Option::Some(rm) => {
                    let w = choose|w: int|
                        0 <= w <= s1.updated.len() && sel_prefix(s1.out, push_prefix())
                            == push_lines(rm, #[trigger] s1.updated.take(w));
                    assert(sel_prefix(r.out, push_prefix()) == push_lines(rm, r.updated.take(w)));
                },
            }
        }
    } else {
        let s1 = if l[0] == '#' {
            spec_push_section(c, spec_flush(c, s), false, true)
        } else {
            s
        };
        if l[0] == '#' {
            lemma_order_flush(c, s);
            lemma_order_push_section(c, spec_flush(c, s), false, true);
        }
        let s2 = if crate::restack::is_squash_cmd(crate::restack::spec_cmd(l)) {
            s1
        } else {
            spec_flush(c, s1)
        };
        lemma_order_flush(c, s1);
        let s3 = RewriteState { out: s2.out.push(l), ..s2 };
        let r = spec_process_line(c, s, l);
        lemma_sel_push(s2.out, l, reloc_prefix());
        lemma_sel_push(s2.out, l, push_prefix());
        match c.remote {
            Option::None => {
            },
            Option::Some(rm) => {
                let w = choose|w: int|
                    0 <= w <= s2.updated.len() && sel_prefix(s2.out, push_prefix()) == push_lines(
                        rm,
                        #[trigger] s2.updated.take(w),
                    );
                assert(sel_prefix(r.out, push_prefix()) == push_lines(rm, r.updated.take(w)));
            },
        }
    }
}

proof fn lemma_order_all(c: RewriteCtx, lines: Seq<Seq<char>>)
    requires
        forall|i: int|
            0 <= i < lines.len() ==> !spec_has_prefix(#[trigger] lines[i], reloc_prefix())
                && !spec_has_prefix(lines[i], push_prefix()),
    ensures
        order_inv(c, spec_process_all(c, init_state(), lines)),
    decreases lines.len(),
{
    if lines.len() == 0 {
        let s = init_state();
        assert(sel_prefix(s.out, reloc_prefix()) =~= reloc_lines(s.updated));
        match c.remote {
            Option::None => {
            },
            Option::Some(r) => {
                assert(s.updated.take(0) =~= Seq::<BranchSpec>::empty());
                assert(push_lines(r, s.updated.take(0)) =~= Seq::<Seq<char>>::empty());
                assert(sel_prefix(s.out, push_prefix()) =~= push_lines(r, s.updated.take(0)));
            },
        }
    } else {
        let prefix = lines.drop_last();
        assert(forall|i: int| 0 <= i < prefix.len() ==> prefix[i] == lines[i]);
        lemma_order_all(c, prefix);
        assert(lines[lines.len() - 1] == lines.last());
        lemma_order_process(c, spec_process_all(c, init_state(), prefix), lines.last());
    }
}

/// Ordering law: among the output's lines, those shaped like relocation
/// instructions are exactly the relocations of the touched branches, in
/// the order the branches were touched; and those shaped like push
/// instructions are the push lines of a prefix of the same list, in the
/// same order. Holds whenever the input itself carries no line shaped
/// like either instruction.
pub proof fn lemma_order_preserved(c: RewriteCtx, lines: Seq<Seq<char>>)
    requires
        forall|i: int|
            0 <= i < lines.len() ==> !spec_has_prefix(#[trigger] lines[i], reloc_prefix())
                && !spec_has_prefix(lines[i], push_prefix()),
    ensures
        sel_prefix(spec_restack(c, lines), reloc_prefix()) == reloc_lines(spec_touched(c, lines)),
        c.remote is None ==> sel_prefix(spec_restack(c, lines), push_prefix()).len() == 0,
        c.remote is Some ==> exists|k: int|
            0 <= k <= spec_touched(c, lines).len() && sel_prefix(spec_restack(c, lines), push_prefix())
                == push_lines(c.remote->Some_0, #[trigger] spec_touched(c, lines).take(k)),
{
    lemma_order_all(c, lines);
    let s = spec_process_all(c, init_state(), lines);
    lemma_order_flush(c, s);
    lemma_order_push_section(c, spec_flush(c, s), true, false);
}

// ---------------------------------------------------------------------------
// The pending list is one commit's bucket.
// ---------------------------------------------------------------------------

/// No command token is both squash-like and position-preserving.
pub proof fn lemma_squash_pick_disjoint(cmd: Seq<char>)
    ensures
        !(crate::restack::is_squash_cmd(cmd) && crate::restack::is_pick_cmd(cmd)),
{
    reveal_strlit("f");
    reveal_strlit("fixup");
    reveal_strlit("s");
    reveal_strlit("squash");
    reveal_strlit("p");
    reveal_strlit("pick");
    reveal_strlit("r");
    reveal_strlit("reword");
    reveal_strlit("e");
    reveal_strlit("edit");
    // The squash-like tokens start with 'f' or 's'; the position-preserving
    // ones with 'p', 'r' or 'e'.
    assert("f"@[0] == 'f' && "fixup"@[0] == 'f' && "s"@[0] == 's' && "squash"@[0] == 's');
    assert("p"@[0] == 'p' && "pick"@[0] == 'p' && "r"@[0] == 'r' && "reword"@[0] == 'r'
        && "e"@[0] == 'e' && "edit"@[0] == 'e');
}

/// Whether `p` is the branch bucket of a single commit identifier, or
/// empty.
pub open spec fn single_bucket(c: RewriteCtx, p: Seq<BranchSpec>) -> bool {
    p.len() == 0 || exists|h: Seq<char>| p == #[trigger] branches_at(c.branches, h)
}

proof fn lemma_bucket_process(c: RewriteCtx, s: RewriteState, l: Seq<char>)
    requires
        single_bucket(c, s.pending),
    ensures
        single_bucket(c, spec_process_line(c, s, l).pending),
{
    let r = spec_process_line(c, s, l);
    if l.len() == 0 {
        assert(r.pending.len() == 0);
    } else {
        let cmd = crate::restack::spec_cmd(l);
        lemma_squash_pick_disjoint(cmd);
        if crate::restack::is_pick_cmd(cmd) && crate::restack::has_second_field(l) {
            let bucket = branches_at(c.branches, crate::restack::spec_hash(l));
            assert(r.pending =~= bucket);
        } else if !crate::restack::is_squash_cmd(cmd) {
            assert(r.pending.len() == 0);
        }
    }
}

/// Glued-group law: after any run of input lines, the pending list is
/// either empty or exactly the branch bucket of one commit identifier, in
/// the branch list's order. A flush therefore emits the relocations of a
/// single commit's branches, consecutively and in that order, at the
/// flush point that closes the group of lines glued to that commit.
pub proof fn lemma_pending_single_bucket(c: RewriteCtx, lines: Seq<Seq<char>>)
    ensures
        single_bucket(c, spec_process_all(c, init_state(), lines).pending),
    decreases lines.len(),
{
    if lines.len() > 0 {
        lemma_pending_single_bucket(c, lines.drop_last());
        lemma_bucket_process(c, spec_process_all(c, init_state(), lines.drop_last()), lines.last());
    }
}

// ---------------------------------------------------------------------------
// The touched list draws on the branch list alone.
// ---------------------------------------------------------------------------

proof fn lemma_branches_at_subset(bs: Seq<BranchSpec>, h: Seq<char>, b: BranchSpec)
    requires
        branches_at(bs, h).contains(b),
    ensures
        bs.contains(b),
    decreases bs.len(),
{
    if bs.len() > 0 {
        let rest = branches_at(bs.drop_last(), h);
        if bs.last().hash == h {
            let i = choose|i: int|
                0 <= i < rest.push(bs.last()).len() && rest.push(bs.last())[i] == b;
            if i < rest.len() {
                assert(rest.contains(b));
                lemma_branches_at_subset(bs.drop_last(), h, b);
                let j = choose|j: int| 0 <= j < bs.drop_last().len() && bs.drop_last()[j] == b;
                assert(bs[j] == b);
            } else {
                assert(bs[bs.len() - 1] == b);
            }
        } else {
            lemma_branches_at_subset(bs.drop_last(), h, b);
            let j = choose|j: int| 0 <= j < bs.drop_last().len() && bs.drop_last()[j] == b;
            assert(bs[j] == b);
        }
    }
}

/// Both lists of a state draw on the branch list; the touched list never
/// carries the rebased branch's name.
spec fn source_inv(c: RewriteCtx, s: RewriteState) -> bool {
    &&& forall|b: BranchSpec| s.pending.contains(b) ==> c.branches.contains(b)
    &&& forall|b: BranchSpec|
        s.updated.contains(b) ==> c.branches.contains(b) && b.name != c.rebase_name
}

proof fn lemma_source_flush(c: RewriteCtx, s: RewriteState)
    requires
        source_inv(c, s),
    ensures
        source_inv(c, spec_flush(c, s)),
{
    let k = kept(c.rebase_name, s.pending);
    let s1 = spec_flush(c, s);
    lemma_kept_names(c.rebase_name, s.pending);
    assert forall|b: BranchSpec| s1.updated.contains(b) implies c.branches.contains(b)
        && b.name != c.rebase_name by {
        lemma_contains_add(s.updated, k, b);
        if k.contains(b) {
            let i = choose|i: int| 0 <= i < k.len() && k[i] == b;
            assert(s.pending.contains(k[i]));
        }
    }
}

proof fn lemma_source_process(c: RewriteCtx, s: RewriteState, l: Seq<char>)
    requires
        source_inv(c, s),
    ensures
        source_inv(c, spec_process_line(c, s, l)),
{
    if l.len() == 0 {
        lemma_source_flush(c, s);
    } else {
        let s1 = if l[0] == '#' {
            spec_push_section(c, spec_flush(c, s), false, true)
        } else {
            s
        };
        if l[0] == '#' {
            lemma_source_flush(c, s);
        }
        let s2 = if crate::restack::is_squash_cmd(crate::restack::spec_cmd(l)) {
            s1
        } else {
            spec_flush(c, s1)
        };
        lemma_source_flush(c, s1);
        let r = spec_process_line(c, s, l);
        if crate::restack::is_pick_cmd(crate::restack::spec_cmd(l))
            && crate::restack::has_second_field(l) {
            let tracks = branches_at(c.branches, crate::restack::spec_hash(l));
            assert forall|b: BranchSpec| r.pending.contains(b) implies c.branches.contains(b) by {
                lemma_contains_add(s2.pending, tracks, b);
                if tracks.contains(b) {
                    lemma_branches_at_subset(c.branches, crate::restack::spec_hash(l), b);
                }
            }
        }
    }
}

/// Provenance law: every branch the run touches — every branch the output
/// relocates or publishes — stands in the branch list handed to the run,
/// and none of them is named like the branch under rebase. Holds of every
/// input.
pub proof fn lemma_touched_from_branches(c: RewriteCtx, lines: Seq<Seq<char>>)
    ensures
        forall|b: BranchSpec|
            spec_touched(c, lines).contains(b) ==> c.branches.contains(b) && b.name
                != c.rebase_name,
{
    assert(source_inv(c, init_state()));
    assert(source_inv(c, spec_process_all(c, init_state(), lines))) by {
        lemma_source_all(c, lines);
    }
    let s = spec_process_all(c, init_state(), lines);
    lemma_source_flush(c, s);
    let s1 = spec_flush(c, s);
    let s2 = spec_push_section(c, s1, true, false);
    assert(s2.updated == s1.updated);
    assert forall|b: BranchSpec|
        spec_touched(c, lines).contains(b) implies c.branches.contains(b) && b.name
        != c.rebase_name by {
        assert(s1.updated.contains(b));
    }
}

proof fn lemma_source_all(c: RewriteCtx, lines: Seq<Seq<char>>)
    ensures
        source_inv(c, spec_process_all(c, init_state(), lines)),
    decreases lines.len(),
{
    if lines.len() > 0 {
        lemma_source_all(c, lines.drop_last());
        lemma_source_process(c, spec_process_all(c, init_state(), lines.drop_last()), lines.last());
    }
}

// ---------------------------------------------------------------------------
// Exact relocation count: a branch name is relocated exactly as often as
// the input tracks a branch carrying it.
// ---------------------------------------------------------------------------

/// How many branches of `bs` are named `n`.
pub open spec fn name_count(n: Seq<char>, bs: Seq<BranchSpec>) -> int
    decreases bs.len(),
{
    if bs.len() == 0 {
        0
    } else {
        name_count(n, bs.drop_last()) + if bs.last().name == n {
            1int
        } else {
            0int
        }
    }
}

/// How many branches named `n` the whole input tracks, over all its
/// command lines.
pub open spec fn tracked_count(c: RewriteCtx, lines: Seq<Seq<char>>, n: Seq<char>) -> int
    decreases lines.len(),
{
    if lines.len() == 0 {
        0
    } else {
        tracked_count(c, lines.drop_last(), n) + name_count(n, line_tracks(c, lines.last()))
    }
}

proof fn lemma_name_count_add(n: Seq<char>, a: Seq<BranchSpec>, b: Seq<BranchSpec>)
    ensures
        name_count(n, a + b) == name_count(n, a) + name_count(n, b),
    decreases b.len(),
{
    if b.len() == 0 {
        assert(a + b =~= a);
    } else {
        lemma_name_count_add(n, a, b.drop_last());
        assert((a + b).drop_last() =~= a + b.drop_last());
        assert((a + b).last() == b.last());
    }
}

/// For a name other than the rebased branch's, the flush keeps every
/// carrier of the name.
proof fn lemma_name_count_kept(n: Seq<char>, r: Seq<char>, p: Seq<BranchSpec>)
    requires
        n != r,
    ensures
        name_count(n, kept(r, p)) == name_count(n, p),
    decreases p.len(),
{
    if p.len() > 0 {
        lemma_name_count_kept(n, r, p.drop_last());
        let rest = kept(r, p.drop_last());
        if p.last().name != r {
            assert(rest.push(p.last()).drop_last() =~= rest);
            assert(rest.push(p.last()).last() == p.last());
        }
    }
}

/// The relocation lines of a branch group name `n` once per carrier.
proof fn lemma_count_reloc_lines(n: Seq<char>, k: Seq<BranchSpec>)
    ensures
        count_of(reloc_lines(k), reloc_line(n)) == name_count(n, k),
    decreases k.len(),
{
    if k.len() > 0 {
        lemma_count_reloc_lines(n, k.drop_last());
        assert(reloc_lines(k).drop_last() =~= reloc_lines(k.drop_last()));
        assert(reloc_lines(k).last() == reloc_line(k.last().name));
        if k.last().name == n {
            assert(reloc_lines(k).last() == reloc_line(n));
        } else {
            if reloc_line(k.last().name) == reloc_line(n) {
                lemma_reloc_line_injective(k.last().name, n);
                assert(false);
            }
        }
    }
}

proof fn lemma_count_flush(c: RewriteCtx, s: RewriteState, n: Seq<char>)
    requires
        n != c.rebase_name,
    ensures
        count_of(spec_flush(c, s).out, reloc_line(n)) + name_count(
            n,
            spec_flush(c, s).pending,
        ) == count_of(s.out, reloc_line(n)) + name_count(n, s.pending),
{
    let t = reloc_line(n);
    let k = kept(c.rebase_name, s.pending);
    lemma_name_count_kept(n, c.rebase_name, s.pending);
    lemma_count_reloc_lines(n, k);
    if k.len() > 0 {
        lemma_count_add(s.out, reloc_lines(k), t);
        lemma_count_add(s.out + reloc_lines(k), seq![blank_line()], t);
        lemma_line_shapes(n, Seq::empty(), Seq::empty());
        assert(forall|i: int| 0 <= i < seq![blank_line()].len() ==> seq![blank_line()][i] != t) by {
            assert(seq![blank_line()][0] == blank_line());
        }
        lemma_count_zero(seq![blank_line()], t);
    } else {
        assert(name_count(n, k) == 0);
    }
}

proof fn lemma_count_push_section(c: RewriteCtx, s: RewriteState, pb: bool, pa: bool, n: Seq<char>)
    ensures
        count_of(spec_push_section(c, s, pb, pa).out, reloc_line(n)) == count_of(
            s.out,
            reloc_line(n),
        ),
{
    let t = reloc_line(n);
    if !s.wrote_push && s.updated.len() > 0 && c.remote is Some {
        let r = c.remote->Some_0;
        let before = if pb {
            seq![blank_line()]
        } else {
            Seq::<Seq<char>>::empty()
        };
        let after = if pa {
            seq![blank_line()]
        } else {
            Seq::<Seq<char>>::empty()
        };
        lemma_line_shapes(n, r, Seq::empty());
        assert(forall|i: int| 0 <= i < before.len() ==> before[i] != t);
        assert(forall|i: int| 0 <= i < after.len() ==> after[i] != t);
        assert(forall|i: int| 0 <= i < seq![push_header()].len() ==> seq![push_header()][i] != t) by {
            assert(seq![push_header()][0] == push_header());
        }
        assert(forall|i: int| 0 <= i < push_lines(r, s.updated).len() ==> push_lines(r, s.updated)[i]
            != t) by {
            assert forall|i: int|
                0 <= i < push_lines(r, s.updated).len() implies push_lines(r, s.updated)[i]
                != t by {
                lemma_line_shapes(n, r, s.updated[i].name);
            }
        }
        lemma_count_zero(before, t);
        lemma_count_zero(after, t);
        lemma_count_zero(seq![push_header()], t);
        lemma_count_zero(push_lines(r, s.updated), t);
        lemma_count_add(s.out, before, t);
        lemma_count_add(s.out + before, seq![push_header()], t);
        lemma_count_add(s.out + before + seq![push_header()], push_lines(r, s.updated), t);
        lemma_count_add(
            s.out + before + seq![push_header()] + push_lines(r, s.updated),
            after,
            t,
        );
    }
}

proof fn lemma_count_process(c: RewriteCtx, s: RewriteState, l: Seq<char>, n: Seq<char>)
    requires
        n != c.rebase_name,
        l != reloc_line(n),
    ensures
        count_of(spec_process_line(c, s, l).out, reloc_line(n)) + name_count(
            n,
            spec_process_line(c, s, l).pending,
        ) == count_of(s.out, reloc_line(n)) + name_count(n, s.pending) + name_count(
            n,
            line_tracks(c, l),
        ),
{
    let t = reloc_line(n);
    if l.len() == 0 {
        lemma_count_flush(c, s, n);
        if !flush_emits(c, s) {
            lemma_count_push(spec_flush(c, s).out, blank_line(), t);
            lemma_line_shapes(n, Seq::empty(), Seq::empty());
        }
    } else {
        let s1 = if l[0] == '#' {
            spec_push_section(c, spec_flush(c, s), false, true)
        } else {
            s
        };
        if l[0] == '#' {
            lemma_count_flush(c, s, n);
            lemma_count_push_section(c, spec_flush(c, s), false, true, n);
        }
        let s2 = if crate::restack::is_squash_cmd(crate::restack::spec_cmd(l)) {
            s1
        } else {
            spec_flush(c, s1)
        };
        lemma_count_flush(c, s1, n);
        lemma_count_push(s2.out, l, t);
        if crate::restack::is_pick_cmd(crate::restack::spec_cmd(l))
            && crate::restack::has_second_field(l) {
            lemma_name_count_add(n, s2.pending, branches_at(c.branches, crate::restack::spec_hash(l)));
        }
    }
}

proof fn lemma_count_all(c: RewriteCtx, lines: Seq<Seq<char>>, n: Seq<char>)
    requires
        n != c.rebase_name,
        forall|i: int| 0 <= i < lines.len() ==> lines[i] != reloc_line(n),
    ensures
        count_of(spec_process_all(c, init_state(), lines).out, reloc_line(n)) + name_count(
            n,
            spec_process_all(c, init_state(), lines).pending,
        ) == tracked_count(c, lines, n),
    decreases lines.len(),
{
    if lines.len() > 0 {
        let prefix = lines.drop_last();
        assert(forall|i: int| 0 <= i < prefix.len() ==> prefix[i] == lines[i]);
        lemma_count_all(c, prefix, n);
        assert(lines[lines.len() - 1] == lines.last());
        lemma_count_process(c, spec_process_all(c, init_state(), prefix), lines.last(), n);
    }
}

/// Exact relocation law: for every branch name other than the rebased
/// branch's, the output holds exactly one relocation instruction per
/// branch of that name tracked by a command line of the input — provided
/// the input itself holds no line spelled like that relocation. A branch
/// tracked by one command line is thus relocated exactly once.
pub proof fn lemma_relocation_exact(c: RewriteCtx, lines: Seq<Seq<char>>, n: Seq<char>)
    requires
        n != c.rebase_name,
        forall|i: int| 0 <= i < lines.len() ==> lines[i] != reloc_line(n),
    ensures
        count_of(spec_restack(c, lines), reloc_line(n)) == tracked_count(c, lines, n),
{
    lemma_count_all(c, lines, n);
    let s = spec_process_all(c, init_state(), lines);
    lemma_count_flush(c, s, n);
    lemma_count_push_section(c, spec_flush(c, s), true, false, n);
}

/// Relocation law: every branch whose commit identifier stands on a
/// position-preserving command line of the input, and whose name is not the
/// one under rebase, has a relocation instruction in the output.
pub proof fn lemma_relocation_emitted(
    c: RewriteCtx,
    lines: Seq<Seq<char>>,
    i: int,
    b: BranchSpec,
)
    requires
        0 <= i < lines.len(),
        line_tracks(c, lines[i]).contains(b),
        b.name != c.rebase_name,
    ensures
        spec_restack(c, lines).contains(reloc_line(b.name)),
{
    lemma_claim_at(c, lines, i, b, lines.len() as int);
    assert(lines.take(lines.len() as int) =~= lines);
    let s = spec_process_all(c, init_state(), lines);
    let t = reloc_line(b.name);
    if s.out.contains(t) {
        lemma_flush_mono(c, s, t);
    } else {
        lemma_flush_emits_reloc(c, s, b);
    }
    lemma_push_section_mono(c, spec_flush(c, s), true, false, t);
}

} // verus!
