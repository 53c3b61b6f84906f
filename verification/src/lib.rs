//! Makes an interactive rebase aware of the branches that point at the
//! commits it rewrites.
//!
//! The heart of the crate is the instruction-list rewriter in [`restack`]:
//! it takes the plan that `git rebase --interactive` hands to its editor,
//! finds the commits that known branches point at, and inserts `exec`
//! instructions that move those branches to their new positions once the
//! rebase completes, plus an opt-in commented section that would push the
//! moved branches to a remote. The whole transformation is specified by a
//! functional model, every executable piece is proved to follow it, and
//! [`laws`] states and proves what the transformation guarantees.
//!
//! The supporting modules hold the verified pieces of the surrounding
//! tooling: parsers for the output of the `git` queries ([`git`]), the
//! exit-status check for spawned processes ([`exec`]), the bookkeeping
//! that keeps generated test fixtures in sync with their scripts
//! ([`fixscript`]), and the character-level text helpers they share
//! ([`text`]). The querying, file handling and process spawning around
//! them hand these modules plain values and take plain values back.

pub mod exec;
pub mod fixscript;
pub mod git;
pub mod laws;
pub mod restack;
pub mod text;
