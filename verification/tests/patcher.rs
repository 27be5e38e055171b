use nub_script::error::ScriptError;
use nub_script::patcher::{tagged_lines_failure, TextPatcher};

const HELLO_SCRIPT: &str = "#!/usr/bin/env python3

# This is an example python script

def say_hello():
    print(\"Hello!\")

def main():
    say_hello()

if __name__ == \"__main__\":
    main()
";

fn tagged(lines: &[(&str, &str)]) -> Vec<(String, String)> {
    lines
        .iter()
        .map(|(t, l)| (t.to_string(), l.to_string()))
        .collect()
}

#[test]
fn new_patcher_starts_at_top_with_empty_selection() {
    let p = TextPatcher::new("a\nb\n");
    assert_eq!(p.original_lines, vec!["a".to_string(), "b".to_string()]);
    assert_eq!(p.selection, (0, 0));
    assert_eq!(p.cursor, 0);
    assert!(p.patches.is_empty());
}

#[test]
fn unpatched_text_round_trips() {
    let p = TextPatcher::new(HELLO_SCRIPT);
    assert_eq!(p.apply().unwrap(), HELLO_SCRIPT);
}

#[test]
fn unpatched_text_gains_final_newline() {
    let p = TextPatcher::new("one\r\ntwo");
    assert_eq!(p.apply().unwrap(), "one\ntwo\n");
}

#[test]
fn insert_at_start_of_file() {
    let mut p = TextPatcher::new(
        "def say_hello():\n    print(\"Hello!\")\n\nif __name__ == \"__main__\":\n    say_hello()\n",
    );
    p.replace_selected(
        "#!/usr/bin/env python3\n\n# This is a new header comment.\n# It's added at the very beginning of the file.\n\n",
    )
    .unwrap();
    assert_eq!(
        p.apply().unwrap(),
        "#!/usr/bin/env python3\n\n# This is a new header comment.\n# It's added at the very beginning of the file.\n\ndef say_hello():\n    print(\"Hello!\")\n\nif __name__ == \"__main__\":\n    say_hello()\n"
    );
}

#[test]
fn replace_selected_print_statement() {
    let mut p = TextPatcher::new(HELLO_SCRIPT);
    p.select_next_lines(&tagged(&[
        ("B", "# This is an example python script"),
        ("B", ""),
        ("B", "def say_hello():"),
        ("S", "    print(\"Hello!\")"),
        ("A", ""),
        ("A", "def main():"),
        ("A", "    say_hello()"),
    ]))
    .unwrap();
    assert_eq!(p.selection, (5, 6));
    assert_eq!(p.cursor, 6);
    p.replace_selected("    print(\"Hello, world!\")\n").unwrap();
    assert_eq!(
        p.apply().unwrap(),
        HELLO_SCRIPT.replace("print(\"Hello!\")", "print(\"Hello, world!\")")
    );
}

#[test]
fn insert_comment_between_context_lines() {
    let mut p = TextPatcher::new(HELLO_SCRIPT);
    p.select_next_lines(&tagged(&[
        ("B", ""),
        ("B", "# This is an example python script"),
        ("B", ""),
        ("A", "def say_hello():"),
        ("A", "    print(\"Hello!\")"),
        ("A", ""),
    ]))
    .unwrap();
    assert_eq!(p.selection, (4, 4));
    p.replace_selected("# This function prints \"Hello!\"\n").unwrap();
    assert_eq!(
        p.apply().unwrap(),
        HELLO_SCRIPT.replace("def say_hello", "# This function prints \"Hello!\"\ndef say_hello")
    );
}

#[test]
fn insert_at_end_of_file() {
    let input = "#!/usr/bin/env python3\n\ndef main():\n    print(\"Hello, world!\")\n\nif __name__ == \"__main__\":\n    main()\n";
    let mut p = TextPatcher::new(input);
    p.select_end().unwrap();
    assert_eq!(p.selection, (7, 7));
    p.replace_selected("\n# This is an example Python script\n").unwrap();
    assert_eq!(
        p.apply().unwrap(),
        format!("{}\n# This is an example Python script\n", input)
    );
}

#[test]
fn selections_only_move_forward() {
    let mut p = TextPatcher::new("x\na\nx\na\nx\n");
    p.select_next_lines(&tagged(&[("S", "a"), ("A", "x")])).unwrap();
    assert_eq!(p.selection, (1, 2));
    p.select_next_lines(&tagged(&[("S", "a"), ("A", "x")])).unwrap();
    assert_eq!(p.selection, (3, 4));
    let err = p.select_next_lines(&tagged(&[("S", "a"), ("A", "x")]));
    assert!(matches!(
        err,
        Err(ScriptError::PatternNotFound { before_found: false, select_found: false, .. })
    ));
    assert_eq!(p.selection, (3, 4));
}

#[test]
fn before_context_may_overlap_previous_selection() {
    let mut p = TextPatcher::new("a\nb\nc\n");
    p.select_next_lines(&tagged(&[("B", "a"), ("S", "b")])).unwrap();
    assert_eq!(p.selection, (1, 2));
    p.select_next_lines(&tagged(&[("B", "b"), ("S", "c")])).unwrap();
    assert_eq!(p.selection, (2, 3));
}

#[test]
fn selection_lines_only_are_searched() {
    let mut p = TextPatcher::new("a\nb\n");
    p.select_next_lines(&tagged(&[("S", "b")])).unwrap();
    assert_eq!(p.selection, (1, 2));
    assert_eq!(p.cursor, 2);
}

#[test]
fn selection_lines_only_not_found() {
    let mut p = TextPatcher::new("a\nb\n");
    let err = p.select_next_lines(&tagged(&[("S", "zzz")]));
    match err {
        Err(ScriptError::PatternNotFound {
            before_context,
            select_context,
            after_context,
            before_found,
            select_found,
        }) => {
            assert_eq!(before_context, "");
            assert_eq!(select_context, "zzz");
            assert_eq!(after_context, "");
            assert!(before_found);
            assert!(!select_found);
        }
        other => panic!("unexpected result: {:?}", other),
    }
    assert_eq!(p.selection, (0, 0));
    assert_eq!(p.cursor, 0);
}

#[test]
fn failed_search_changes_nothing() {
    let mut p = TextPatcher::new("a\nb\nc\nd\n");
    p.select_next_lines(&tagged(&[("B", "a"), ("S", "b")])).unwrap();
    p.move_forward_to_context("c\n", "").unwrap();
    assert_eq!((p.selection, p.cursor), ((1, 2), 3));
    assert!(p.move_forward_to_context("x\n", "").is_err());
    assert_eq!((p.selection, p.cursor), ((1, 2), 3));
    assert!(p
        .select_next_lines(&tagged(&[("B", "c"), ("S", "x")]))
        .is_err());
    assert_eq!((p.selection, p.cursor), ((1, 2), 3));
}

#[test]
fn documented_replacement_splits() {
    let mut p = TextPatcher::new("");
    p.replace_selected("\n\n").unwrap();
    assert_eq!(p.patches[0].replacement, vec!["".to_string()]);
    p.replace_selected("\n").unwrap();
    assert_eq!(p.patches[1].replacement, vec!["".to_string()]);
    p.replace_selected("line1\nline2\n\n").unwrap();
    assert_eq!(p.patches[2].replacement.len(), 3);
    p.replace_selected("").unwrap();
    assert!(p.patches[3].replacement.is_empty());
    p.replace_selected("\n\n\n").unwrap();
    assert_eq!(p.patches[4].replacement.len(), 3);
}

#[test]
fn overlapping_patches_with_increasing_starts_apply() {
    let mut p = TextPatcher::new("a\nb\nc\nd\n");
    p.selection = (0, 3);
    p.replace_selected("X\n").unwrap();
    p.selection = (1, 2);
    p.replace_selected("Y\n").unwrap();
    // The second patch restarts the skipping: only its own line is skipped.
    assert_eq!(p.apply().unwrap(), "X\nY\nc\nd\n");
}

#[test]
fn unknown_tag_is_refused() {
    let mut p = TextPatcher::new("a\nb\n");
    let err = p.select_next_lines(&tagged(&[("B", "a"), ("X", "b"), ("Q", "c")]));
    match err {
        Err(ScriptError::BadString(msg)) => assert_eq!(msg, "Unknown key in lines table: X"),
        other => panic!("unexpected result: {:?}", other),
    }
}

#[test]
fn pattern_not_found_reports_contexts() {
    let mut p = TextPatcher::new("a\nb\nc\nd\n");
    let err = p.select_next_lines(&tagged(&[
        ("B", "a"),
        ("B", "b"),
        ("S", "x"),
        ("A", "c"),
    ]));
    match err {
        Err(ScriptError::PatternNotFound {
            before_context,
            select_context,
            after_context,
            before_found,
            select_found,
        }) => {
            assert_eq!(before_context, "a\nb");
            assert_eq!(select_context, "x");
            assert_eq!(after_context, "c");
            assert!(before_found);
            assert!(!select_found);
        }
        other => panic!("unexpected result: {:?}", other),
    }
}

#[test]
fn move_empty_clears_selection_at_its_end() {
    let mut p = TextPatcher::new("a\nb\nc\n");
    p.select_next_lines(&tagged(&[("B", "a"), ("S", "b")])).unwrap();
    p.move_empty().unwrap();
    assert_eq!(p.selection, (2, 2));
    p.replace_selected("new\n").unwrap();
    assert_eq!(p.apply().unwrap(), "a\nb\nnew\nc\n");
}

#[test]
fn trailing_newline_of_replacement_is_optional() {
    let mut a = TextPatcher::new("x\n");
    a.replace_selected("line1\nline2\n").unwrap();
    let mut b = TextPatcher::new("x\n");
    b.replace_selected("line1\nline2").unwrap();
    assert_eq!(a.apply().unwrap(), b.apply().unwrap());
    assert_eq!(a.patches[0].replacement.len(), 2);
}

#[test]
fn last_patch_must_start_at_end() {
    let mut p = TextPatcher::new("a\nb\n");
    p.selection = (1, 1);
    p.replace_selected("c\n").unwrap();
    p.selection = (0, 0);
    p.replace_selected("d\n").unwrap();
    match p.apply() {
        Err(ScriptError::BadPatch(msg)) => assert_eq!(
            msg,
            "Last patch does not start at the end of the original content"
        ),
        other => panic!("unexpected result: {:?}", other),
    }
}

#[test]
fn two_patches_at_end_are_refused() {
    let mut p = TextPatcher::new("a\nb\n");
    p.select_end().unwrap();
    p.replace_selected("c\n").unwrap();
    p.replace_selected("d\n").unwrap();
    match p.apply() {
        Err(ScriptError::BadPatch(msg)) => assert_eq!(msg, "There are unprocessed patches left"),
        other => panic!("unexpected result: {:?}", other),
    }
}

#[test]
fn unknown_tag_before_unreadable_entry_comes_first() {
    let read = tagged(&[("B", "a"), ("Q", "b")]);
    match tagged_lines_failure(&read, ScriptError::BadString("Invalid key in lines table".to_string())) {
        ScriptError::BadString(msg) => assert_eq!(msg, "Unknown key in lines table: Q"),
        other => panic!("unexpected: {:?}", other),
    }
    let read = tagged(&[("B", "a")]);
    match tagged_lines_failure(&read, ScriptError::BadString("Invalid key in lines table".to_string())) {
        ScriptError::BadString(msg) => assert_eq!(msg, "Invalid key in lines table"),
        other => panic!("unexpected: {:?}", other),
    }
}
