use kmm::script::config::{
    Config, ConfigError, KeyOrButton, Method, Scale, ScriptEvent, ScriptItem,
};
use kmm::script::{FireCommand, InputEvent, Script, ScriptList};

fn chord_script(title: &str, repeat: usize, members: &[KeyOrButton]) -> Script {
    Script {
        title: title.to_string(),
        delay: 1,
        repeat,
        methods: Vec::new(),
        trigger: members.iter().map(|m| (*m, false)).collect(),
        running: false,
    }
}

const K1: KeyOrButton = KeyOrButton::Key(1);
const K2: KeyOrButton = KeyOrButton::Key(2);

#[test]
fn partial_hold_never_fires() {
    let mut s = chord_script("a", 1, &[K1, K2]);
    assert_eq!(s.down(&K1), None);
    assert_eq!(s.down(&K1), None);
    assert!(!s.running);
}

#[test]
fn chord_completion_fires() {
    let mut s = chord_script("a", 1, &[K1, K2]);
    assert_eq!(s.down(&K1), None);
    assert_eq!(s.down(&K2), Some(FireCommand::Start));
    assert!(s.running);
}

#[test]
fn release_and_repress_last_member_fires_again() {
    let mut s = chord_script("a", 1, &[K1, K2]);
    s.down(&K1);
    assert_eq!(s.down(&K2), Some(FireCommand::Start));
    s.up(&K2);
    assert_eq!(s.down(&K2), Some(FireCommand::Restart));
}

#[test]
fn held_key_repeat_does_not_refire() {
    let mut s = chord_script("a", 1, &[K1, K2]);
    s.down(&K1);
    assert_eq!(s.down(&K2), Some(FireCommand::Start));
    // The OS repeats the held key: no transition, no fire.
    assert_eq!(s.down(&K2), None);
    assert_eq!(s.down(&K1), None);
}

#[test]
fn release_never_stops_a_running_task() {
    let mut s = chord_script("a", 0, &[K1]);
    assert_eq!(s.down(&K1), Some(FireCommand::Start));
    s.up(&K1);
    assert!(s.running);
}

#[test]
fn refire_toggle_script_stops_without_restart() {
    let mut s = chord_script("a", 0, &[K1]);
    assert_eq!(s.down(&K1), Some(FireCommand::Start));
    s.up(&K1);
    assert_eq!(s.down(&K1), Some(FireCommand::Stop));
    assert!(!s.running);
}

#[test]
fn refire_counted_script_restarts() {
    let mut s = chord_script("a", 5, &[K1]);
    assert_eq!(s.down(&K1), Some(FireCommand::Start));
    s.up(&K1);
    assert_eq!(s.down(&K1), Some(FireCommand::Restart));
    assert!(s.running);
}

#[test]
fn finish_marks_idle() {
    let mut s = chord_script("a", 2, &[K1]);
    s.down(&K1);
    assert!(s.running);
    s.finish();
    assert!(!s.running);
}

#[test]
fn non_member_key_is_ignored() {
    let mut s = chord_script("a", 1, &[K1]);
    assert_eq!(s.down(&K2), None);
    s.up(&K2);
    assert!(!s.running);
    assert_eq!(s.trigger, vec![(K1, false)]);
}

#[test]
fn router_fires_every_matching_script_in_order() {
    let mut list = ScriptList(vec![
        chord_script("a", 1, &[K1]),
        chord_script("b", 1, &[K2]),
        chord_script("c", 0, &[K1]),
    ]);
    let fired = list.on_event(&InputEvent::KeyDown(1));
    assert_eq!(fired, vec![(0, FireCommand::Start), (2, FireCommand::Start)]);
}

#[test]
fn router_release_clears_flags_everywhere() {
    let mut list = ScriptList(vec![
        chord_script("a", 1, &[K1, K2]),
        chord_script("b", 1, &[K1]),
    ]);
    assert_eq!(list.on_event(&InputEvent::KeyDown(1)).len(), 1);
    assert_eq!(list.on_event(&InputEvent::KeyUp(1)), vec![]);
    assert_eq!(list.0[0].trigger, vec![(K1, false), (K2, false)]);
}

#[test]
fn router_ignores_pointer_and_wheel() {
    let mut list = ScriptList(vec![chord_script("a", 1, &[K1])]);
    assert_eq!(list.on_event(&InputEvent::PointerMove { x: 3, y: 4 }), vec![]);
    assert_eq!(
        list.on_event(&InputEvent::Wheel {
            delta_x: 1,
            delta_y: -1
        }),
        vec![]
    );
    assert_eq!(list.0[0].trigger, vec![(K1, false)]);
}

#[test]
fn router_routes_mouse_buttons() {
    let mut list = ScriptList(vec![chord_script("a", 1, &[KeyOrButton::Mouse(3)])]);
    let fired = list.on_event(&InputEvent::ButtonDown(3));
    assert_eq!(fired, vec![(0, FireCommand::Start)]);
    assert_eq!(list.on_event(&InputEvent::ButtonUp(3)), vec![]);
}

fn item(title: &str, repeat: usize, delay: Option<u64>, trigger: Vec<KeyOrButton>) -> ScriptItem {
    ScriptItem {
        title: title.to_string(),
        repeat,
        trigger,
        delay,
        methods: vec![ScriptEvent::Key(9)],
    }
}

fn config_with(scripts: Vec<ScriptItem>) -> Config {
    Config {
        delay: 5,
        scaling: Scale { num: 1, den: 1 },
        offset: (0, 0),
        blocks: Vec::new(),
        scripts,
    }
}

#[test]
fn load_rejects_duplicate_titles() {
    let cfg = config_with(vec![
        item("same", 1, None, vec![K1]),
        item("other", 1, None, vec![K1]),
        item("same", 1, None, vec![K2]),
    ]);
    assert_eq!(
        cfg.load().err().unwrap(),
        ConfigError::DuplicateTitle("same".to_string())
    );
}

#[test]
fn load_builds_scripts_with_delay_override_and_default() {
    let cfg = config_with(vec![
        item("a", 3, Some(9), vec![K1]),
        item("b", 0, None, vec![K2]),
    ]);
    let list = cfg.load().unwrap();
    assert_eq!(list.0.len(), 2);
    assert_eq!(list.0[0].title, "a");
    assert_eq!(list.0[0].delay, 9);
    assert_eq!(list.0[0].repeat, 3);
    assert!(!list.0[0].running);
    assert_eq!(
        list.0[0].methods,
        vec![
            Method::Event(kmm::script::config::Action::KeyPress(9)),
            Method::Event(kmm::script::config::Action::KeyRelease(9)),
        ]
    );
    assert_eq!(list.0[1].delay, 5);
}

#[test]
fn load_deduplicates_trigger_members() {
    let cfg = config_with(vec![item("a", 1, None, vec![K1, K1, K2, K1])]);
    let list = cfg.load().unwrap();
    assert_eq!(list.0[0].trigger, vec![(K1, false), (K2, false)]);
}

#[test]
fn load_reports_first_compile_error() {
    let mut bad = item("bad", 1, None, vec![K1]);
    bad.methods = vec![ScriptEvent::Block {
        repeat: 1,
        sleep: 0,
        block: kmm::script::config::Block::Name("nowhere".to_string()),
    }];
    let cfg = config_with(vec![item("good", 1, None, vec![K1]), bad]);
    assert_eq!(
        cfg.load().err().unwrap(),
        ConfigError::Compile(kmm::script::config::CompileError::UndefinedBlock(
            "nowhere".to_string()
        ))
    );
}
