//! Scenario tests for the instruction-list rewriter.

use restack::git::Branch;
use restack::restack::restack;
use restack::restack::Restack;

struct TestCase<'a> {
    remote_name: Option<&'a str>,
    rebase_head_name: &'a str,
    branches: &'a [(&'a str, &'a str)],
    give: &'a [&'a str],
    want: &'a [&'a str],
}

fn restack_test(test: &TestCase) {
    let branches: Vec<Branch> = test
        .branches
        .iter()
        .map(|(name, hash)| Branch {
            name: name.to_string(),
            shorthash: hash.to_string(),
        })
        .collect();
    let lines: Vec<String> = test.give.iter().map(|s| s.to_string()).collect();
    let got = restack(
        test.remote_name.map(|s| s.to_string()),
        test.rebase_head_name.to_string(),
        branches,
        &lines,
    );
    let want: Vec<String> = test.want.iter().map(|s| s.to_string()).collect();
    assert_eq!(want, got);
}

#[test]
fn no_matches() {
    restack_test(&TestCase {
        remote_name: Some("origin"),
        rebase_head_name: "feature",
        branches: &[("feature", "hash1")],
        give: &[
            "pick hash0 Do something",
            "exec make test",
            "pick hash1 Implement feature",
        ],
        want: &[
            "pick hash0 Do something",
            "exec make test",
            "pick hash1 Implement feature",
        ],
    });
}

#[test]
fn bad_pick_instruction() {
    restack_test(&TestCase {
        remote_name: None,
        rebase_head_name: "foo",
        branches: &[],
        give: &["pick"],
        want: &["pick"],
    });
}

#[test]
fn branch_at_rebase_head() {
    restack_test(&TestCase {
        remote_name: Some("origin"),
        rebase_head_name: "feature/wip",
        branches: &[("feature/1", "hash1"), ("feature/wip", "hash1")],
        give: &[
            "pick hash0 Do something",
            "exec make test",
            "pick hash1 Implement feature",
            "exec make test",
            "",
            "# Rebase instructions",
        ],
        want: &[
            "pick hash0 Do something",
            "exec make test",
            "pick hash1 Implement feature",
            "exec git branch -f feature/1",
            "",
            "exec make test",
            "",
            "# Uncomment this section to push the changes.",
            "# exec git push -f origin feature/1",
            "",
            "# Rebase instructions",
        ],
    });
}

#[test]
fn rebase_instructions_comment_missing() {
    restack_test(&TestCase {
        remote_name: Some("origin"),
        rebase_head_name: "feature/wip",
        branches: &[
            ("feature/1", "hash1"),
            ("feature/2", "hash3"),
            ("feature/3", "hash7"),
            ("feature/wip", "hash9"),
        ],
        give: &[
            "pick hash0 Do something 0",
            "pick hash1 Implement feature1",
            "pick hash2 Do something",
            "pick hash3 Implement feature2",
            "pick hash4 Do something 4",
            "pick hash5 Do something 5",
            "pick hash6 Do something 6",
            "pick hash7 Implement feature3",
            "pick hash8 Do something 8",
            "pick hash9 Do something 9",
        ],
        want: &[
            "pick hash0 Do something 0",
            "pick hash1 Implement feature1",
            "exec git branch -f feature/1",
            "",
            "pick hash2 Do something",
            "pick hash3 Implement feature2",
            "exec git branch -f feature/2",
            "",
            "pick hash4 Do something 4",
            "pick hash5 Do something 5",
            "pick hash6 Do something 6",
            "pick hash7 Implement feature3",
            "exec git branch -f feature/3",
            "",
            "pick hash8 Do something 8",
            "pick hash9 Do something 9",
            "",
            "# Uncomment this section to push the changes.",
            "# exec git push -f origin feature/1",
            "# exec git push -f origin feature/2",
            "# exec git push -f origin feature/3",
        ],
    });
}

#[test]
fn fixup_commit() {
    restack_test(&TestCase {
        remote_name: None,
        rebase_head_name: "b",
        branches: &[("a", "hash1"), ("b", "hash3")],
        give: &[
            "pick hash0 do thing",
            "pick hash1 another thing",
            "fixup hash2 stuff",
            "pick hash3 whatever",
        ],
        want: &[
            "pick hash0 do thing",
            "pick hash1 another thing",
            "fixup hash2 stuff",
            "exec git branch -f a",
            "",
            "pick hash3 whatever",
        ],
    });
}

#[test]
fn squash_commit() {
    restack_test(&TestCase {
        remote_name: None,
        rebase_head_name: "b",
        branches: &[("a", "hash1"), ("b", "hash3")],
        give: &[
            "pick hash0 do thing",
            "pick hash1 another thing",
            "squash hash2 stuff",
            "pick hash3 whatever",
        ],
        want: &[
            "pick hash0 do thing",
            "pick hash1 another thing",
            "squash hash2 stuff",
            "exec git branch -f a",
            "",
            "pick hash3 whatever",
        ],
    });
}

#[test]
fn issue_41() {
    restack_test(&TestCase {
        remote_name: Some("origin"),
        rebase_head_name: "stack",
        branches: &[
            ("5601-connection-refused", "29b83a30c"),
            ("5460-publish-bundle", "ae23c4203"),
            ("5460-publish-bundle-client", "ea9b3946b"),
        ],
        give: &[
            "pick eaed5a16a <Kris Kowal> fix(agoric-cli): Thread rpcAddresses for Cosmos publishBundle",
            "pick bd49c28ed <Kris Kowal> fix(agoric-cli): Follow-up: thread random as power",
            "pick da0626a7e <Kris Kowal> fix(agoric-cli): Follow-up: conditionally coerce RPC addresses",
            "pick 29b83a30c <Kris Kowal> fix(agoric-cli): Follow-up: heuristic for distinguishing bare hostnames from URLs (5601-connection-refused)",
            "pick e2b9551ba <Kris Kowal> fix(cosmic-swingset): Publish installation success and failure topic",
            "pick d8685a017 <Kris Kowal> fix(cosmic-swingset): Follow-up: use new pubsub mechanism",
            "pick a8ca6046f <Kris Kowal> fix(cosmic-swingset): Follow-up comment from Richard Gibson",
            "pick 33445b5b7 <Kris Kowal> fix(cosmic-swingset): Follow-up: Publish base value to installation topic",
            "pick 021edf49e <Kris Kowal> fix(cosmic-swingset): Follow-up: prettier",
            "pick d0af526c4 <Kris Kowal> fix(cosmic-swingset): Follow-up: should publish sequences",
            "pick ae23c4203 <Kris Kowal> refactor: Thread solo home directory more generally (5460-publish-bundle)",
            "pick c8090b4ab <Kris Kowal> refactor(agoric-cli): Publish with RPC instead of agd subshell",
            "pick 8cd36f76e <Kris Kowal> fix(casting): iterateLatest erroneously adapted getEachIterable",
            "pick fe113b6bc <Kris Kowal> fix(casting): Release all I/O handles between yield and next",
            "pick 00d84a3e1 <Kris Kowal> feat(agoric-cli): Reveal block heights to agoric follow, opt-in for lossy",
            "pick 2c04f46aa <Kris Kowal> chore: Update yarn.lock",
            "pick ea9b3946b <Kris Kowal> chore: yarn deduplicate (HEAD -> stack, 5460-publish-bundle-client)",
            "",
            "# Rebase comment starts here",
        ],
        want: &[
            "pick eaed5a16a <Kris Kowal> fix(agoric-cli): Thread rpcAddresses for Cosmos publishBundle",
            "pick bd49c28ed <Kris Kowal> fix(agoric-cli): Follow-up: thread random as power",
            "pick da0626a7e <Kris Kowal> fix(agoric-cli): Follow-up: conditionally coerce RPC addresses",
            "pick 29b83a30c <Kris Kowal> fix(agoric-cli): Follow-up: heuristic for distinguishing bare hostnames from URLs (5601-connection-refused)",
            "exec git branch -f 5601-connection-refused",
            "",
            "pick e2b9551ba <Kris Kowal> fix(cosmic-swingset): Publish installation success and failure topic",
            "pick d8685a017 <Kris Kowal> fix(cosmic-swingset): Follow-up: use new pubsub mechanism",
            "pick a8ca6046f <Kris Kowal> fix(cosmic-swingset): Follow-up comment from Richard Gibson",
            "pick 33445b5b7 <Kris Kowal> fix(cosmic-swingset): Follow-up: Publish base value to installation topic",
            "pick 021edf49e <Kris Kowal> fix(cosmic-swingset): Follow-up: prettier",
            "pick d0af526c4 <Kris Kowal> fix(cosmic-swingset): Follow-up: should publish sequences",
            "pick ae23c4203 <Kris Kowal> refactor: Thread solo home directory more generally (5460-publish-bundle)",
            "exec git branch -f 5460-publish-bundle",
            "",
            "pick c8090b4ab <Kris Kowal> refactor(agoric-cli): Publish with RPC instead of agd subshell",
            "pick 8cd36f76e <Kris Kowal> fix(casting): iterateLatest erroneously adapted getEachIterable",
            "pick fe113b6bc <Kris Kowal> fix(casting): Release all I/O handles between yield and next",
            "pick 00d84a3e1 <Kris Kowal> feat(agoric-cli): Reveal block heights to agoric follow, opt-in for lossy",
            "pick 2c04f46aa <Kris Kowal> chore: Update yarn.lock",
            "pick ea9b3946b <Kris Kowal> chore: yarn deduplicate (HEAD -> stack, 5460-publish-bundle-client)",
            "exec git branch -f 5460-publish-bundle-client",
            "",
            "# Uncomment this section to push the changes.",
            "# exec git push -f origin 5601-connection-refused",
            "# exec git push -f origin 5460-publish-bundle",
            "# exec git push -f origin 5460-publish-bundle-client",
            "",
            "# Rebase comment starts here",
        ],
    });
}

#[test]
fn comment_after_instructions() {
    restack_test(&TestCase {
        remote_name: Some("origin"),
        rebase_head_name: "feature/wip",
        branches: &[("feature/1", "hash1"), ("feature/2", "hash2")],
        give: &[
            "pick hash1 Implement feature 1",
            "pick hash2 Implement feature 2",
            "# Rebase instructions",
        ],
        want: &[
            "pick hash1 Implement feature 1",
            "exec git branch -f feature/1",
            "",
            "pick hash2 Implement feature 2",
            "exec git branch -f feature/2",
            "",
            "# Uncomment this section to push the changes.",
            "# exec git push -f origin feature/1",
            "# exec git push -f origin feature/2",
            "",
            "# Rebase instructions",
        ],
    });
}

#[test]
fn shared_commit_publish_section() {
    // Two branches on one commit, rebasing a third: both are relocated in
    // list order, and the publish section names them in the same order.
    restack_test(&TestCase {
        remote_name: Some("origin"),
        rebase_head_name: "main",
        branches: &[("release-1", "abc123"), ("wip", "abc123")],
        give: &["pick abc123 message", "", "# instructions"],
        want: &[
            "pick abc123 message",
            "exec git branch -f release-1",
            "exec git branch -f wip",
            "",
            "# Uncomment this section to push the changes.",
            "# exec git push -f origin release-1",
            "# exec git push -f origin wip",
            "",
            "# instructions",
        ],
    });
}

#[test]
fn fixup_no_intermediate_flush() {
    // A squash-like command glued to a tracked pick keeps the relocation
    // pending until the next flush point.
    restack_test(&TestCase {
        remote_name: None,
        rebase_head_name: "main",
        branches: &[("topic", "abc123")],
        give: &["pick abc123 m1", "fixup def456 m2", "pick 999 m3"],
        want: &[
            "pick abc123 m1",
            "fixup def456 m2",
            "exec git branch -f topic",
            "",
            "pick 999 m3",
        ],
    });
}

#[test]
fn comment_before_any_flush_suppresses_publish() {
    // A comment at the top of the file spends the one-shot publish flag
    // while nothing has been relocated yet, so no publish section is ever
    // written, even though a relocation follows.
    restack_test(&TestCase {
        remote_name: Some("origin"),
        rebase_head_name: "main",
        branches: &[("feature/1", "hash1")],
        give: &["# leading comment", "pick hash1 message"],
        want: &[
            "# leading comment",
            "pick hash1 message",
            "exec git branch -f feature/1",
            "",
        ],
    });
}

#[test]
fn blank_line_not_duplicated() {
    // A blank separator is re-emitted only when the flush wrote nothing of
    // its own; a flush's trailing blank line already serves as separator.
    restack_test(&TestCase {
        remote_name: None,
        rebase_head_name: "main",
        branches: &[("topic", "aaa")],
        give: &["pick aaa m", "", "pick bbb n", "", "pick ccc o"],
        want: &[
            "pick aaa m",
            "exec git branch -f topic",
            "",
            "pick bbb n",
            "",
            "pick ccc o",
        ],
    });
}

#[test]
fn reword_and_edit_track_branches() {
    restack_test(&TestCase {
        remote_name: None,
        rebase_head_name: "main",
        branches: &[("a", "h1"), ("b", "h2"), ("c", "h3")],
        give: &["reword h1 one", "edit h2 two", "e h3 three"],
        want: &[
            "reword h1 one",
            "exec git branch -f a",
            "",
            "edit h2 two",
            "exec git branch -f b",
            "",
            "e h3 three",
            "exec git branch -f c",
            "",
        ],
    });
}

#[test]
fn reloc_lookalike_passes_through() {
    // An input line spelled like a relocation instruction passes through
    // untouched, like any other unknown command, so the output may then
    // hold two copies of the same instruction.
    restack_test(&TestCase {
        remote_name: None,
        rebase_head_name: "main",
        branches: &[("topic", "aaa")],
        give: &["exec git branch -f topic", "pick aaa m"],
        want: &[
            "exec git branch -f topic",
            "pick aaa m",
            "exec git branch -f topic",
            "",
        ],
    });
}

#[test]
fn empty_input() {
    restack_test(&TestCase {
        remote_name: Some("origin"),
        rebase_head_name: "main",
        branches: &[("a", "h1")],
        give: &[],
        want: &[],
    });
}

#[test]
fn blank_only_input() {
    restack_test(&TestCase {
        remote_name: Some("origin"),
        rebase_head_name: "main",
        branches: &[],
        give: &[""],
        want: &[""],
    });
}

#[test]
fn stepwise_processing_matches_whole_run() {
    let branches = vec![Branch {
        name: "feature/1".to_string(),
        shorthash: "hash1".to_string(),
    }];
    let mut r = Restack::new(
        Some("origin".to_string()),
        "main".to_string(),
        branches.clone(),
    );
    r.process("pick hash1 message");
    let flushed = r.update_previous_branches();
    assert!(flushed);
    r.write_push_section(true, false);

    let lines = vec!["pick hash1 message".to_string()];
    let whole = restack(
        Some("origin".to_string()),
        "main".to_string(),
        branches,
        &lines,
    );
    assert_eq!(whole, r.out);
}

#[test]
fn unknown_commands_pass_through() {
    restack_test(&TestCase {
        remote_name: None,
        rebase_head_name: "main",
        branches: &[("a", "h1")],
        give: &["label onto", "exec make test", "merge -C h9 topic"],
        want: &["label onto", "exec make test", "merge -C h9 topic"],
    });
}
