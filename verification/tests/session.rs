use shortstop::error::ErrorKind;
use shortstop::session::{Answer, Opt, Outcome, Phase};
use shortstop::shell::Shortstop;

fn fresh() -> Shortstop {
    Shortstop::new(Opt { prog: None, args: vec![] })
}

#[test]
fn run_in_empty_phase_is_rejected() {
    let mut ss = fresh();
    assert_eq!(ss.phase(), Phase::Empty);
    let r = ss.handle_command_line("run");
    match r {
        Err(e) => assert_eq!(e.message(), "No executable file specified."),
        Ok(_) => panic!("run must be rejected before a file is given"),
    }
    assert_eq!(ss.phase(), Phase::Empty);
}

#[test]
fn empty_phase_rejects_everything_but_file_set_repeat() {
    let mut ss = fresh();
    for line in ["continue", "stepi", "break 0x10", "x/4wx 0x10", "delete", "info registers"] {
        let r = ss.handle_command_line(line);
        assert_eq!(r.unwrap_err(), ErrorKind::NoExecutable, "line: {}", line);
        assert_eq!(ss.phase(), Phase::Empty);
    }
    assert!(ss.handle_command_line("").is_ok());
    assert!(ss.handle_command_line("set args a").is_ok());
    assert_eq!(ss.phase(), Phase::Empty);
}

#[test]
fn file_moves_to_loaded() {
    let mut ss = fresh();
    let r = ss.handle_command_line("file self_print");
    assert!(matches!(r, Ok(Outcome::Done)));
    assert_eq!(ss.phase(), Phase::Loaded);
}

#[test]
fn loaded_phase_rejects_commands_that_need_a_process() {
    let mut ss = fresh();
    ss.handle_command_line("file self_print").unwrap();
    for line in ["continue", "stepi 2", "info registers", "info breakpoints"] {
        let r = ss.handle_command_line(line);
        match r {
            Err(e) => assert_eq!(e.message(), "The program is not being run.", "line: {}", line),
            Ok(_) => panic!("{} must be rejected without a process", line),
        }
        assert_eq!(ss.phase(), Phase::Loaded);
    }
}

#[test]
fn break_in_loaded_registers_disabled_breakpoint_with_id_one() {
    let mut ss = fresh();
    ss.handle_command_line("file self_print").unwrap();
    let r = ss.handle_command_line("break 0xdeadbeef");
    assert!(matches!(r, Ok(Outcome::Done)));
    assert_eq!(ss.breakpoint_count(), 1);
    assert_eq!(ss.breakpoint_at(0), Some((1, 0xdeadbeef, false)));
}

#[test]
fn breakpoint_ids_grow_and_survive_deletion() {
    let mut ss = fresh();
    ss.handle_command_line("file self_print").unwrap();
    ss.handle_command_line("break 0x1000").unwrap();
    ss.handle_command_line("break 0x2000").unwrap();
    assert_eq!(ss.breakpoint_at(0), Some((1, 0x1000, false)));
    assert_eq!(ss.breakpoint_at(1), Some((2, 0x2000, false)));
    ss.handle_command_line("delete 1").unwrap();
    assert_eq!(ss.breakpoint_count(), 1);
    assert_eq!(ss.breakpoint_at(0), Some((2, 0x2000, false)));
    // The freed number is not reused.
    ss.handle_command_line("break 0x3000").unwrap();
    assert_eq!(ss.breakpoint_at(1), Some((3, 0x3000, false)));
}

#[test]
fn two_breakpoints_at_the_same_address_get_their_own_numbers() {
    let mut ss = fresh();
    ss.handle_command_line("file self_print").unwrap();
    ss.handle_command_line("break 0x1000").unwrap();
    ss.handle_command_line("break 0x1000").unwrap();
    assert_eq!(ss.breakpoint_count(), 2);
    assert_eq!(ss.breakpoint_at(0), Some((1, 0x1000, false)));
    assert_eq!(ss.breakpoint_at(1), Some((2, 0x1000, false)));
}

#[test]
fn enable_and_disable_flags_in_loaded_phase() {
    let mut ss = fresh();
    ss.handle_command_line("file self_print").unwrap();
    ss.handle_command_line("break 0x1000").unwrap();
    ss.handle_command_line("enable 1").unwrap();
    assert_eq!(ss.breakpoint_at(0), Some((1, 0x1000, true)));
    ss.handle_command_line("disable 1").unwrap();
    assert_eq!(ss.breakpoint_at(0), Some((1, 0x1000, false)));
}

#[test]
fn deleting_an_unknown_breakpoint_reports_it() {
    let mut ss = fresh();
    ss.handle_command_line("file self_print").unwrap();
    ss.handle_command_line("delete 7").unwrap();
    let out = ss.take_output();
    assert_eq!(out, "No breakpoint number 7.\n");
}

#[test]
fn delete_without_numbers_in_loaded_is_a_no_op() {
    let mut ss = fresh();
    ss.handle_command_line("file self_print").unwrap();
    ss.handle_command_line("break 0x1000").unwrap();
    let r = ss.handle_command_line("delete");
    assert!(matches!(r, Ok(Outcome::Done)));
    assert_eq!(ss.breakpoint_count(), 1);
    assert_eq!(ss.take_output(), "");
}

#[test]
fn run_in_loaded_asks_for_a_launch() {
    let mut ss = fresh();
    ss.handle_command_line("file self_print").unwrap();
    ss.handle_command_line("break 0xdeadbeef").unwrap();
    let r = ss.handle_command_line("run");
    match r {
        Ok(Outcome::Spawn(path, args)) => {
            assert_eq!(path, "self_print");
            assert!(args.is_empty());
        },
        _ => panic!("run in the loaded phase must ask the caller to launch"),
    }
    let out = ss.take_output();
    assert_eq!(out, "Starting program: self_print\n");
    // The launch fails: the session stays loaded and reports the path.
    let r = ss.resume(Answer::SpawnFailed("self_print".to_string()));
    match r {
        Err(e) => assert_eq!(e, ErrorKind::Path("self_print".to_string())),
        Ok(_) => panic!("a failed launch must surface as an error"),
    }
    assert_eq!(ss.phase(), Phase::Loaded);
    assert_eq!(ss.breakpoint_at(0), Some((1, 0xdeadbeef, false)));
}

#[test]
fn run_takes_arguments_and_set_args_persists() {
    let mut ss = fresh();
    ss.handle_command_line("file self_print").unwrap();
    ss.handle_command_line("set args x y").unwrap();
    let r = ss.handle_command_line("run");
    match r {
        Ok(Outcome::Spawn(_, args)) => {
            assert_eq!(args, vec!["x".to_string(), "y".to_string()])
        },
        _ => panic!("run must ask the caller to launch"),
    }
    ss.resume(Answer::SpawnFailed("self_print".to_string())).unwrap_err();
    // Arguments given to run replace the stored ones.
    let r = ss.handle_command_line("run a");
    match r {
        Ok(Outcome::Spawn(_, args)) => assert_eq!(args, vec!["a".to_string()]),
        _ => panic!("run must ask the caller to launch"),
    }
}

#[test]
fn file_in_loaded_asks_for_confirmation_and_keeps_state_on_no() {
    let mut ss = fresh();
    ss.handle_command_line("file self_print").unwrap();
    ss.handle_command_line("break 0x1000").unwrap();
    let r = ss.handle_command_line("file other_prog");
    match r {
        Ok(Outcome::Confirm(prompt)) => {
            assert_eq!(prompt, "Are you sure you want to change the file?")
        },
        _ => panic!("file with a program loaded must ask first"),
    }
    let out = ss.take_output();
    assert_eq!(out, "A program is being debugged already.\n");
    let r = ss.resume(Answer::No);
    assert!(matches!(r, Ok(Outcome::Done)));
    assert_eq!(ss.take_output(), "File not changed.\n");
    assert_eq!(ss.phase(), Phase::Loaded);
    // Breakpoints survive a confirmed file change too.
    let r = ss.handle_command_line("file other_prog");
    assert!(matches!(r, Ok(Outcome::Confirm(_))));
    ss.take_output();
    let r = ss.resume(Answer::Yes);
    assert!(matches!(r, Ok(Outcome::Done)));
    assert_eq!(ss.phase(), Phase::Loaded);
    assert_eq!(ss.breakpoint_at(0), Some((1, 0x1000, false)));
}

#[test]
fn mismatched_answer_is_a_protocol_error() {
    let mut ss = fresh();
    ss.handle_command_line("file self_print").unwrap();
    let r = ss.handle_command_line("file other");
    assert!(matches!(r, Ok(Outcome::Confirm(_))));
    // The question asked for yes or no; anything else is refused.
    let r = ss.resume(Answer::Shown);
    assert_eq!(r.unwrap_err(), ErrorKind::ProcessEvent);
    assert_eq!(ss.phase(), Phase::Loaded);
}

#[test]
fn set_expression_is_rejected() {
    let mut ss = fresh();
    let r = ss.handle_command_line("set x=1");
    match r {
        Err(e) => assert_eq!(e.message(), "set expressions are not implemented yet"),
        Ok(_) => panic!("set with an expression is unsupported"),
    }
}

#[test]
fn undefined_command_names_the_word() {
    let mut ss = fresh();
    let r = ss.handle_command_line("quit");
    match r {
        Err(e) => assert_eq!(e.message(), "Undefined command: \"quit\".  Try \"help\"."),
        Ok(_) => panic!("unknown words are rejected"),
    }
    assert_eq!(ss.phase(), Phase::Empty);
}

#[test]
fn examine_in_loaded_phase_is_accepted_and_silent() {
    let mut ss = fresh();
    ss.handle_command_line("file self_print").unwrap();
    let r = ss.handle_command_line("x/4wx 0x1000");
    assert!(matches!(r, Ok(Outcome::Done)));
    assert_eq!(ss.take_output(), "");
}
