use nub_script::eval::{next_run_action, script_error_message, RunAction, RunEvent, FUEL_PER_GC};

#[test]
fn eval_loop_aborts_when_asked() {
    // A script that never finishes: the caller asks to stop after five yields.
    let mut yields = 0;
    let mut action = next_run_action(RunEvent::Paused);
    loop {
        match action {
            RunAction::Yield => {
                yields += 1;
                action = next_run_action(RunEvent::Resumed { stop: yields > 5 });
            }
            RunAction::Step => action = next_run_action(RunEvent::Paused),
            RunAction::Abort => break,
            RunAction::TakeResult => panic!("script cannot finish"),
        }
    }
    assert_eq!(yields, 6);
    assert_eq!(FUEL_PER_GC, 4096);
}

#[test]
fn eval_loop_takes_result_when_finished() {
    assert_eq!(next_run_action(RunEvent::Finished), RunAction::TakeResult);
    assert_eq!(
        next_run_action(RunEvent::Resumed { stop: false }),
        RunAction::Step
    );
}

#[test]
fn error_message_numbers_script_lines() {
    let msg = script_error_message("local x = 1\nerror(x)", "boom");
    assert_eq!(msg, "Script:\n   1: local x = 1\n   2: error(x)\nError:\nboom");
    let many: String = (1..=12).map(|i| format!("l{}\n", i)).collect();
    let msg = script_error_message(&many, "e");
    assert!(msg.contains("\n  10: l10\n"));
    assert!(msg.starts_with("Script:\n   1: l1\n"));
}
