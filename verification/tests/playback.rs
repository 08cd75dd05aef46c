use kmm::script::config::{Action, Custom, Method, ScriptEvent};
use kmm::script::{InputEvent, PlayStep, Playback, Recorder, Wait, SETTLE_MICROS};
use kmm::{Cli, Commands, Run};

fn press(k: u32) -> Method {
    Method::Event(Action::KeyPress(k))
}

fn release(k: u32) -> Method {
    Method::Event(Action::KeyRelease(k))
}

#[test]
fn counted_playback_runs_exactly_repeat_iterations() {
    let program = vec![press(1), release(1)];
    let mut p = Playback::new(program, 3, 5);
    let mut acts = 0;
    loop {
        match p.advance() {
            PlayStep::Finished => break,
            PlayStep::Act { action: _, wait } => {
                assert_eq!(wait, Wait::Millis(3));
                acts += 1;
            }
            _ => panic!("unexpected step"),
        }
        assert!(acts <= 10);
    }
    // Exactly 5 iterations of the 2-entry program, then stopped.
    assert_eq!(acts, 10);
    // Finished stays finished.
    assert_eq!(p.advance(), PlayStep::Finished);
}

#[test]
fn playback_emits_program_in_order() {
    let program = vec![press(1), Method::Custom(Custom::Sleep(20)), release(1)];
    let mut p = Playback::new(program, 7, 1);
    assert_eq!(
        p.advance(),
        PlayStep::Act {
            action: Action::KeyPress(1),
            wait: Wait::Millis(7)
        }
    );
    assert_eq!(p.advance(), PlayStep::Sleep(20));
    assert_eq!(
        p.advance(),
        PlayStep::Act {
            action: Action::KeyRelease(1),
            wait: Wait::Millis(7)
        }
    );
    assert_eq!(p.advance(), PlayStep::Finished);
}

#[test]
fn pointer_move_waits_the_settle_time() {
    let program = vec![Method::Event(Action::MouseMove { x: 4, y: 5 })];
    let mut p = Playback::new(program, 7, 1);
    assert_eq!(
        p.advance(),
        PlayStep::Act {
            action: Action::MouseMove { x: 4, y: 5 },
            wait: Wait::Settle
        }
    );
    assert_eq!(SETTLE_MICROS, 100);
}

#[test]
fn exit_entry_becomes_exit_step() {
    let program = vec![Method::Custom(Custom::Exit)];
    let mut p = Playback::new(program, 1, 1);
    assert_eq!(p.advance(), PlayStep::Exit);
}

#[test]
fn toggle_playback_loops_forever() {
    let program = vec![press(1), release(1)];
    let mut p = Playback::new(program, 2, 0);
    for round in 0..4 {
        assert_eq!(
            p.advance(),
            PlayStep::Act {
                action: Action::KeyPress(1),
                wait: Wait::Millis(2)
            },
            "round {round}"
        );
        assert_eq!(
            p.advance(),
            PlayStep::Act {
                action: Action::KeyRelease(1),
                wait: Wait::Millis(2)
            }
        );
    }
}

#[test]
fn empty_program_finishes_at_once() {
    let mut p = Playback::new(Vec::new(), 1, 4);
    assert_eq!(p.advance(), PlayStep::Finished);
}

#[test]
fn recorder_keeps_time_and_pointer_position() {
    let mut rec = Recorder::new();
    assert!(!rec.observe(0, &InputEvent::PointerMove { x: 30, y: 40 }));
    assert!(!rec.observe(12, &InputEvent::KeyDown(5)));
    assert!(!rec.observe(3, &InputEvent::KeyUp(5)));
    assert!(!rec.observe(8, &InputEvent::ButtonDown(1)));
    assert!(!rec.observe(2, &InputEvent::ButtonUp(1)));
    assert!(!rec.observe(4, &InputEvent::Wheel { delta_x: 0, delta_y: -2 }));
    assert_eq!(
        rec.events,
        vec![
            ScriptEvent::Sleep(12),
            ScriptEvent::KeyDown(5),
            ScriptEvent::Sleep(3),
            ScriptEvent::KeyUp(5),
            ScriptEvent::Sleep(8),
            ScriptEvent::Move(30, 40),
            ScriptEvent::ClickDown(1),
            ScriptEvent::Sleep(2),
            ScriptEvent::Move(30, 40),
            ScriptEvent::ClickUp(1),
            ScriptEvent::Sleep(4),
            ScriptEvent::Scroll(0, -2),
        ]
    );
}

#[test]
fn recorder_ends_on_null_region_gesture() {
    let mut rec = Recorder::new();
    assert!(!rec.observe(0, &InputEvent::PointerMove { x: 5, y: 6 }));
    assert!(!rec.observe(1, &InputEvent::KeyDown(9)));
    assert!(rec.observe(2, &InputEvent::PointerMove { x: 0, y: 0 }));
    // The terminating gesture records nothing and keeps the position.
    assert_eq!(rec.point, (5, 6));
    assert_eq!(
        rec.events,
        vec![ScriptEvent::Sleep(1), ScriptEvent::KeyDown(9)]
    );
}

#[test]
fn cli_without_subcommand_runs_default_config() {
    let cli = Cli { sub_command: None };
    match cli.run() {
        Commands::Run(run) => assert_eq!(run.config, "./config.toml"),
        other => panic!("expected the run command, got {other:?}"),
    }
}

#[test]
fn cli_keeps_an_explicit_subcommand() {
    let cli = Cli {
        sub_command: Some(Commands::Record),
    };
    assert!(matches!(cli.run(), Commands::Record));
    let cli = Cli {
        sub_command: Some(Commands::Run(Run {
            config: "here.toml".to_string(),
        })),
    };
    match cli.run() {
        Commands::Run(run) => assert_eq!(run.config, "here.toml"),
        other => panic!("expected the run command, got {other:?}"),
    }
}
