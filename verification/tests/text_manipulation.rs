use nub_script::error::ScriptError;
use nub_script::model::{GcCommit, GcResponse, Response};
use nub_script::patcher::TextPatcher;
use nub_script::store::NubScript;

#[test]
fn test_accurate_patching() {
    const INPUT_BLOCK: &str = r#"-- line 1
-- line 2
-- line 3
-- line 4
-- line 5
-- line 6
-- line 7
-- line 8
-- line 9
-- remove me
-- remove me
-- line 10
-- remove me
"#;

    let mut nub = NubScript::default();
    nub.add_data_block_content("repo.namespace", "lines.txt", INPUT_BLOCK);

    let content = nub.get_data_block("repo.namespace", "lines.txt").unwrap();
    let mut patcher = TextPatcher::new(&content);

    patcher.replace_selected("-- line 0\n").unwrap();

    // Cursor in front of line 6
    patcher
        .move_forward_to_context("-- line 4\n-- line 5\n", "-- line 6\n-- line 7\n")
        .unwrap();
    patcher.start_selection_empty().unwrap();

    // Cursor in front of line 7
    patcher
        .move_forward_to_context("-- line 5\n-- line 6\n", "-- line 7\n-- line 8\n")
        .unwrap();
    patcher.end_selection().unwrap();

    patcher.replace_selected("-- line 6\n-- line 6.5\n").unwrap();

    // Cursor after line 9
    patcher
        .move_forward_to_context("-- line 9\n", "-- remove me\n")
        .unwrap();
    patcher.start_selection_empty().unwrap();

    // Cursor in front of line 10
    patcher
        .move_forward_to_context("-- remove me\n", "-- line 10\n")
        .unwrap();
    patcher.end_selection().unwrap();

    // Delete the 'remove me' lines
    patcher.replace_selected("").unwrap();

    // Cursor after line 10
    patcher
        .move_forward_to_context("-- line 10\n", "-- remove me\n")
        .unwrap();
    patcher.start_selection_empty().unwrap();

    // Cursor at end of file
    patcher.move_forward_to_context("-- remove me\n", "").unwrap();
    patcher.end_selection().unwrap();

    // Delete the 'remove me' line at the end of the file
    patcher.delete_selected().unwrap();

    let new_content = patcher.apply().unwrap();

    let mut response = GcResponse::new("CHANGE");
    let mut commit = GcCommit::new("repo.namespace");
    commit.write_file("lines.txt", &new_content, None);
    commit.set_message("Apply text manipulations");
    response.add_commit(&commit);

    let response = response.to_response().unwrap();
    let Response::Change { commits } = response else {
        panic!("Expected a Change response, got: {:?}", response);
    };
    let commit = &commits[0];
    let change = &commit.files_created[0];
    println!("Final content:\n{}", change.content);
    const EXPECTED_OUTPUT: &str = r#"-- line 0
-- line 1
-- line 2
-- line 3
-- line 4
-- line 5
-- line 6
-- line 6.5
-- line 7
-- line 8
-- line 9
-- line 10
"#;

    assert_eq!(change.content, EXPECTED_OUTPUT);
}

#[test]
fn test_pattern_not_found() {
    const SOURCE_RS: &str = "fn main() {}";

    let mut nub = NubScript::default();
    nub.add_data_block_content("repo", "source.rs", SOURCE_RS);

    let content = nub.get_data_block("repo", "source.rs").unwrap();
    let mut patcher = TextPatcher::new(&content);
    let result = patcher.move_forward_to_context("foo", "baz");

    match result {
        Err(ScriptError::PatternNotFound {
            before_context,
            after_context,
            before_found,
            ..
        }) => {
            assert_eq!(before_context, "foo");
            assert_eq!(after_context, "baz");
            assert!(!before_found);
        }
        other => panic!("did not find expected error: {:?}", other),
    }
}
