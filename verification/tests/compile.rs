use kmm::script::config::{
    Action, Block, CompileError, Config, Custom, Method, Scale, ScriptEvent,
};

fn plain_config(blocks: Vec<(String, Vec<ScriptEvent>)>) -> Config {
    Config {
        delay: 5,
        scaling: Scale { num: 1, den: 1 },
        offset: (0, 0),
        blocks,
        scripts: Vec::new(),
    }
}

fn press(k: u32) -> Method {
    Method::Event(Action::KeyPress(k))
}

fn release(k: u32) -> Method {
    Method::Event(Action::KeyRelease(k))
}

#[test]
fn keys_all_presses_before_any_release() {
    let cfg = plain_config(Vec::new());
    let evs = vec![ScriptEvent::Keys(vec![1, 2])];
    let r = cfg.transform(&evs).unwrap();
    assert_eq!(r, vec![press(1), press(2), release(1), release(2)]);
}

#[test]
fn keys_longer_list_keeps_declared_order() {
    let cfg = plain_config(Vec::new());
    let evs = vec![ScriptEvent::Keys(vec![9, 7, 8])];
    let r = cfg.transform(&evs).unwrap();
    assert_eq!(
        r,
        vec![press(9), press(7), press(8), release(9), release(7), release(8)]
    );
}

#[test]
fn block_repeat_three_separating_sleeps_no_trailing() {
    let blocks = vec![("X".to_string(), vec![ScriptEvent::Key(7)])];
    let cfg = plain_config(blocks);
    let evs = vec![ScriptEvent::Block {
        repeat: 3,
        sleep: 50,
        block: Block::Name("X".to_string()),
    }];
    let r = cfg.transform(&evs).unwrap();
    let p = vec![press(7), release(7)];
    let mut expected = Vec::new();
    expected.extend(p.clone());
    expected.push(Method::Custom(Custom::Sleep(50)));
    expected.extend(p.clone());
    expected.push(Method::Custom(Custom::Sleep(50)));
    expected.extend(p.clone());
    assert_eq!(r, expected);
}

#[test]
fn block_repeat_with_sleep_zero_is_pruned() {
    let blocks = vec![("X".to_string(), vec![ScriptEvent::Key(7)])];
    let cfg = plain_config(blocks);
    let evs = vec![ScriptEvent::Block {
        repeat: 3,
        sleep: 0,
        block: Block::Name("X".to_string()),
    }];
    let r = cfg.transform(&evs).unwrap();
    assert_eq!(
        r,
        vec![press(7), release(7), press(7), release(7), press(7), release(7)]
    );
}

#[test]
fn block_repeat_zero_emits_nothing_and_keeps_neighbours() {
    let blocks = vec![("X".to_string(), vec![ScriptEvent::Key(7)])];
    let cfg = plain_config(blocks);
    let evs = vec![
        ScriptEvent::Key(1),
        ScriptEvent::Block {
            repeat: 0,
            sleep: 50,
            block: Block::Name("X".to_string()),
        },
        ScriptEvent::Key(2),
    ];
    let r = cfg.transform(&evs).unwrap();
    assert_eq!(r, vec![press(1), release(1), press(2), release(2)]);
}

#[test]
fn inline_block_expands_in_place() {
    let cfg = plain_config(Vec::new());
    let evs = vec![ScriptEvent::Block {
        repeat: 2,
        sleep: 9,
        block: Block::Block(vec![ScriptEvent::Key(3)]),
    }];
    let r = cfg.transform(&evs).unwrap();
    assert_eq!(
        r,
        vec![
            press(3),
            release(3),
            Method::Custom(Custom::Sleep(9)),
            press(3),
            release(3),
        ]
    );
}

#[test]
fn undefined_block_name_fails() {
    let cfg = plain_config(Vec::new());
    let evs = vec![ScriptEvent::Block {
        repeat: 1,
        sleep: 0,
        block: Block::Name("missing".to_string()),
    }];
    assert_eq!(
        cfg.transform(&evs),
        Err(CompileError::UndefinedBlock("missing".to_string()))
    );
}

#[test]
fn direct_self_reference_fails() {
    let blocks = vec![(
        "X".to_string(),
        vec![ScriptEvent::Block {
            repeat: 1,
            sleep: 0,
            block: Block::Name("X".to_string()),
        }],
    )];
    let cfg = plain_config(blocks);
    let evs = vec![ScriptEvent::Block {
        repeat: 1,
        sleep: 0,
        block: Block::Name("X".to_string()),
    }];
    assert_eq!(
        cfg.transform(&evs),
        Err(CompileError::CircularBlock("X".to_string()))
    );
}

#[test]
fn two_level_reference_compiles() {
    let blocks = vec![
        (
            "A".to_string(),
            vec![ScriptEvent::Block {
                repeat: 2,
                sleep: 0,
                block: Block::Name("B".to_string()),
            }],
        ),
        ("B".to_string(), vec![ScriptEvent::Key(4)]),
    ];
    let cfg = plain_config(blocks);
    let evs = vec![ScriptEvent::Block {
        repeat: 1,
        sleep: 0,
        block: Block::Name("A".to_string()),
    }];
    let r = cfg.transform(&evs).unwrap();
    assert_eq!(r, vec![press(4), release(4), press(4), release(4)]);
}

#[test]
fn two_hop_cycle_fails() {
    let blocks = vec![
        (
            "A".to_string(),
            vec![ScriptEvent::Block {
                repeat: 1,
                sleep: 0,
                block: Block::Name("B".to_string()),
            }],
        ),
        (
            "B".to_string(),
            vec![ScriptEvent::Block {
                repeat: 1,
                sleep: 0,
                block: Block::Name("A".to_string()),
            }],
        ),
    ];
    let cfg = plain_config(blocks);
    let evs = vec![ScriptEvent::Block {
        repeat: 1,
        sleep: 0,
        block: Block::Name("A".to_string()),
    }];
    assert_eq!(
        cfg.transform(&evs),
        Err(CompileError::CircularBlock("A".to_string()))
    );
}

#[test]
fn click_on_applies_offset_and_scale() {
    let mut cfg = plain_config(Vec::new());
    cfg.offset = (10, 10);
    cfg.scaling = Scale { num: 2, den: 1 };
    let evs = vec![ScriptEvent::ClickOn(1, 100, 100)];
    let r = cfg.transform(&evs).unwrap();
    assert_eq!(
        r,
        vec![
            Method::Event(Action::MouseMove { x: 55, y: 55 }),
            Method::Event(Action::ButtonPress(1)),
            Method::Event(Action::ButtonRelease(1)),
        ]
    );
}

#[test]
fn correction_truncates_toward_zero() {
    let mut cfg = plain_config(Vec::new());
    cfg.scaling = Scale { num: 2, den: 1 };
    let evs = vec![ScriptEvent::Move(5, -5)];
    let r = cfg.transform(&evs).unwrap();
    assert_eq!(r, vec![Method::Event(Action::MouseMove { x: 2, y: -2 })]);
}

#[test]
fn fractional_scale_uses_the_rational_exactly() {
    // scale 0.5 as 1/2: physical = logical * 2.
    let mut cfg = plain_config(Vec::new());
    cfg.scaling = Scale { num: 1, den: 2 };
    let evs = vec![ScriptEvent::Move(30, -7)];
    let r = cfg.transform(&evs).unwrap();
    assert_eq!(r, vec![Method::Event(Action::MouseMove { x: 60, y: -14 })]);
}

#[test]
fn click_to_moves_presses_moves_releases() {
    let cfg = plain_config(Vec::new());
    let evs = vec![ScriptEvent::ClickTo(2, 1, 2, 3, 4)];
    let r = cfg.transform(&evs).unwrap();
    assert_eq!(
        r,
        vec![
            Method::Event(Action::MouseMove { x: 1, y: 2 }),
            Method::Event(Action::ButtonPress(2)),
            Method::Event(Action::MouseMove { x: 3, y: 4 }),
            Method::Event(Action::ButtonRelease(2)),
        ]
    );
}

#[test]
fn simple_events_expand_one_to_one() {
    let cfg = plain_config(Vec::new());
    let evs = vec![
        ScriptEvent::Click(1),
        ScriptEvent::ClickUp(2),
        ScriptEvent::ClickDown(3),
        ScriptEvent::KeyUp(4),
        ScriptEvent::KeyDown(5),
        ScriptEvent::Key(6),
        ScriptEvent::Scroll(-1, 2),
        ScriptEvent::Sleep(8),
        ScriptEvent::Exit,
    ];
    let r = cfg.transform(&evs).unwrap();
    assert_eq!(
        r,
        vec![
            Method::Event(Action::ButtonPress(1)),
            Method::Event(Action::ButtonRelease(1)),
            Method::Event(Action::ButtonRelease(2)),
            Method::Event(Action::ButtonPress(3)),
            Method::Event(Action::KeyRelease(4)),
            Method::Event(Action::KeyPress(5)),
            Method::Event(Action::KeyPress(6)),
            Method::Event(Action::KeyRelease(6)),
            Method::Event(Action::Wheel {
                delta_x: -1,
                delta_y: 2
            }),
            Method::Custom(Custom::Sleep(8)),
            Method::Custom(Custom::Exit),
        ]
    );
}

#[test]
fn sleep_zero_in_source_is_pruned() {
    let cfg = plain_config(Vec::new());
    let evs = vec![ScriptEvent::Sleep(0), ScriptEvent::Key(1), ScriptEvent::Sleep(0)];
    let r = cfg.transform(&evs).unwrap();
    assert_eq!(r, vec![press(1), release(1)]);
}

#[test]
fn method_constructors_build_primitive_actions() {
    assert_eq!(Method::key_down(4), Method::Event(Action::KeyPress(4)));
    assert_eq!(Method::key_up(4), Method::Event(Action::KeyRelease(4)));
    assert_eq!(Method::mouse_down(2), Method::Event(Action::ButtonPress(2)));
    assert_eq!(Method::mouse_up(2), Method::Event(Action::ButtonRelease(2)));
}

#[test]
fn mouse_move_corrects_both_coordinates() {
    let mut cfg = plain_config(Vec::new());
    cfg.offset = (10, 10);
    cfg.scaling = Scale { num: 2, den: 1 };
    assert_eq!(cfg.mouse_move(100, 100), Action::MouseMove { x: 55, y: 55 });
}
