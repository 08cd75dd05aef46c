//! Runtime side of the engine: per-script trigger state, the router that
//! feeds live input events to every loaded script, and the playback state
//! machine that drives a compiled program action by action.

use vstd::prelude::*;

pub mod config;

use crate::script::config::Action;
use crate::script::config::Custom;
use crate::script::config::KeyOrButton;
use crate::script::config::Method;
use crate::script::config::ScriptEvent;

verus! {

/// One live input occurrence, as the event source delivers it: a key or
/// button going down or up, a pointer move, or a wheel turn. Pointer
/// coordinates are logical; wheel deltas are signed step counts.
#[derive(Debug, Clone, Copy, PartialEq, Eq, Structural)]
pub enum InputEvent {
    KeyDown(u32),
    KeyUp(u32),
    ButtonDown(u8),
    ButtonUp(u8),
    PointerMove { x: i32, y: i32 },
    Wheel { delta_x: i64, delta_y: i64 },
}

/// The trigger member an input event holds or releases, if any.
pub open spec fn event_key(e: InputEvent) -> Option<KeyOrButton> {
    match e {
        InputEvent::KeyDown(c) => Some(KeyOrButton::Key(c)),
        InputEvent::KeyUp(c) => Some(KeyOrButton::Key(c)),
        InputEvent::ButtonDown(c) => Some(KeyOrButton::Mouse(c)),
        InputEvent::ButtonUp(c) => Some(KeyOrButton::Mouse(c)),
        _ => None,
    }
}

/// True for a press (down) event, false for a release or any other event.
pub open spec fn event_is_down(e: InputEvent) -> bool {
    e is KeyDown || e is ButtonDown
}

/// What the surrounding runtime must do after a script fired.
#[derive(Debug, Clone, Copy, PartialEq, Eq, Structural)]
pub enum FireCommand {
    /// Abort the running playback task and report the script stopped;
    /// do not start a new run (a toggle script was toggled off).
    Stop,
    /// Abort the stale playback task, report the script started, and
    /// spawn a fresh playback task.
    Restart,
    /// Report the script started and spawn a playback task.
    Start,
}

/// One loaded script: its unique title, per-action delay, iteration count
/// (0 means run until retriggered), compiled action program, trigger chord
/// with one held-flag per member, and whether a playback task is running.
#[derive(Debug)]
pub struct Script {
    pub title: String,
    pub delay: u64,
    pub repeat: usize,
    pub methods: Vec<Method>,
    pub trigger: Vec<(KeyOrButton, bool)>,
    pub running: bool,
}

impl Script {
    /// True when `k` is a member of this script's trigger chord.
    pub open spec fn has_trigger(self, k: KeyOrButton) -> bool {
        exists|j: int| 0 <= j < self.trigger@.len() && (#[trigger] self.trigger@[j]).0 == k
    }

    /// True when every entry for member `k` is currently held.
    pub open spec fn held_for(self, k: KeyOrButton) -> bool {
        forall|j: int|
            0 <= j < self.trigger@.len() && (#[trigger] self.trigger@[j]).0 == k
                ==> self.trigger@[j].1
    }

    /// True when every member of the trigger chord is currently held.
    pub open spec fn all_held(self) -> bool {
        forall|j: int| 0 <= j < self.trigger@.len() ==> (#[trigger] self.trigger@[j]).1
    }

    /// A press of `k` fires this script: `k` is a member whose flag was
    /// not yet set — the press is a transition, not a repetition — and
    /// after setting it the whole chord is held.
    pub open spec fn down_fires(self, k: KeyOrButton) -> bool {
        &&& self.has_trigger(k)
        &&& !self.held_for(k)
        &&& forall|j: int|
            0 <= j < self.trigger@.len()
                ==> ((#[trigger] self.trigger@[j]).1 || self.trigger@[j].0 == k)
    }

    /// What firing decides, from the current running state and the
    /// iteration count: a running toggle script is stopped; a running
    /// counted script is restarted; an idle script is started.
    pub open spec fn fire_command(self) -> FireCommand {
        if self.running && self.repeat == 0 {
            FireCommand::Stop
        } else if self.running {
            FireCommand::Restart
        } else {
            FireCommand::Start
        }
    }

    /// The fields a press or release never changes.
    pub open spec fn same_definition(self, post: Script) -> bool {
        &&& post.title == self.title
        &&& post.delay == self.delay
        &&& post.repeat == self.repeat
        &&& post.methods == self.methods
    }

    /// A press of `k`: every entry for member `k` becomes held, every
    /// other entry keeps its flag.
    pub open spec fn down_rel(self, post: Script, k: KeyOrButton) -> bool {
        &&& self.same_definition(post)
        &&& post.trigger@.len() == self.trigger@.len()
        &&& forall|j: int|
            0 <= j < self.trigger@.len() ==> #[trigger] post.trigger@[j] == (
            self.trigger@[j].0,
            self.trigger@[j].1 || self.trigger@[j].0 == k,
            )
    }

    /// A release of `k`: every entry for member `k` stops being held,
    /// every other entry keeps its flag; a release never fires.
    pub open spec fn up_rel(self, post: Script, k: KeyOrButton) -> bool {
        &&& self.same_definition(post)
        &&& post.running == self.running
        &&& post.trigger@.len() == self.trigger@.len()
        &&& forall|j: int|
            0 <= j < self.trigger@.len() ==> #[trigger] post.trigger@[j] == (
            self.trigger@[j].0,
            self.trigger@[j].1 && self.trigger@[j].0 != k,
            )
    }

    /// True when every member of the chord is held.
    fn chord_complete(&self) -> (r: bool)
        ensures
            r == self.all_held(),
    {
        let mut j: usize = 0;
        while j < self.trigger.len()
            invariant
                j <= self.trigger@.len(),
                forall|t: int| 0 <= t < j ==> (#[trigger] self.trigger@[t]).1,
            decreases self.trigger@.len() - j,
        {
            if !self.trigger[j].1 {
                return false;
            }
            j += 1;
        }
        true
    }

    /// The fire operation: decides what the runtime must do and records
    /// the resulting running state.
    ///
    /// If a task is running it is to be aborted; a toggle script (repeat
    /// 0) is then simply stopped, while a counted script is restarted.
    /// An idle script is started.
    pub fn run(&mut self) -> (r: FireCommand)
        ensures
            r == old(self).fire_command(),
            old(self).same_definition(*final(self)),
            final(self).trigger == old(self).trigger,
            final(self).running == (r != FireCommand::Stop),
    {
        if self.running {
            if self.repeat == 0 {
                self.running = false;
                FireCommand::Stop
            } else {
                FireCommand::Restart
            }
        } else {
            self.running = true;
            FireCommand::Start
        }
    }

    /// Records that this script's playback task reported stopped on its
    /// own (a counted run that finished all its iterations).
    pub fn finish(&mut self)
        ensures
            old(self).same_definition(*final(self)),
            final(self).trigger == old(self).trigger,
            final(self).running == false,
    {
        self.running = false;
    }

    /// A member of the chord went down: marks it held, and fires exactly
    /// when this press completes the chord.
    pub fn down(&mut self, key: &KeyOrButton) -> (r: Option<FireCommand>)
        ensures
            old(self).down_rel(*final(self), *key),
            r is Some <==> old(self).down_fires(*key),
            match r {
                Some(cmd) => {
                    &&& cmd == old(self).fire_command()
                    &&& final(self).running == (cmd != FireCommand::Stop)
                },
                None => final(self).running == old(self).running,
            },
    {
        let ghost pre = *self;
        let mut j: usize = 0;
        let mut found = false;
        let mut already = true;
        while j < self.trigger.len()
            invariant
                j <= self.trigger@.len(),
                self.trigger@.len() == pre.trigger@.len(),
                self.title == pre.title,
                self.delay == pre.delay,
                self.repeat == pre.repeat,
                self.methods == pre.methods,
                self.running == pre.running,
                found == exists|t: int|
                    0 <= t < j && (#[trigger] pre.trigger@[t]).0 == *key,
                already == forall|t: int|
                    0 <= t < j && (#[trigger] pre.trigger@[t]).0 == *key ==> pre.trigger@[t].1,
                forall|t: int|
                    0 <= t < j ==> #[trigger] self.trigger@[t] == (
                    pre.trigger@[t].0,
                    pre.trigger@[t].1 || pre.trigger@[t].0 == *key,
                    ),
                forall|t: int|
                    j <= t < pre.trigger@.len() ==> #[trigger] self.trigger@[t] == pre.trigger@[t],
            decreases self.trigger@.len() - j,
        {
            let (m, held) = self.trigger[j];
            if m == *key {
                found = true;
                if !held {
                    already = false;
                }
                self.trigger.set(j, (m, true));
                proof {
                    assert(pre.trigger@[j as int].0 == *key);
                }
            }
            j += 1;
        }
        proof {
            assert forall|t: int| 0 <= t < pre.trigger@.len() implies ((#[trigger] self.trigger@[
            t]).1 == (pre.trigger@[t].1 || pre.trigger@[t].0 == *key)) by {}
            assert forall|t: int|
                0 <= t < pre.trigger@.len() implies (((#[trigger] pre.trigger@[t]).1
                || pre.trigger@[t].0 == *key) == self.trigger@[t].1) by {
                assert(self.trigger@[t] == (pre.trigger@[t].0, pre.trigger@[t].1 || pre.trigger@[
                t].0 == *key));
            }
        }
        if found && !already && self.chord_complete() {
            Some(self.run())
        } else {
            None
        }
    }

    /// A member of the chord went up: clears its flag. A release never
    /// fires and never stops a running task by itself.
    pub fn up(&mut self, key: &KeyOrButton)
        ensures
            old(self).up_rel(*final(self), *key),
    {
        let ghost pre = *self;
        let mut j: usize = 0;
        while j < self.trigger.len()
            invariant
                j <= self.trigger@.len(),
                self.trigger@.len() == pre.trigger@.len(),
                self.title == pre.title,
                self.delay == pre.delay,
                self.repeat == pre.repeat,
                self.methods == pre.methods,
                self.running == pre.running,
                forall|t: int|
                    0 <= t < j ==> #[trigger] self.trigger@[t] == (
                    pre.trigger@[t].0,
                    pre.trigger@[t].1 && pre.trigger@[t].0 != *key,
                    ),
                forall|t: int|
                    j <= t < pre.trigger@.len() ==> #[trigger] self.trigger@[t] == pre.trigger@[t],
            decreases self.trigger@.len() - j,
        {
            let (m, held) = self.trigger[j];
            if m == *key {
                self.trigger.set(j, (m, false));
            }
            j += 1;
        }
    }
}

/// A partial hold never fires: as long as some member other than the
/// pressed one is not held, no press fires the script.
pub proof fn lemma_partial_hold_never_fires(pre: Script, k: KeyOrButton, j: int)
    requires
        0 <= j < pre.trigger@.len(),
        !pre.trigger@[j].1,
        pre.trigger@[j].0 != k,
    ensures
        !pre.down_fires(k),
{
}

/// Releasing a member of a fully held chord and pressing it again fires
/// again: the release makes the next press of that member a transition
/// that completes the chord.
pub proof fn lemma_release_and_repress_fires(pre: Script, mid: Script, k: KeyOrButton)
    requires
        pre.has_trigger(k),
        pre.all_held(),
        pre.up_rel(mid, k),
    ensures
        mid.down_fires(k),
{
    let j = choose|j: int| 0 <= j < pre.trigger@.len() && (#[trigger] pre.trigger@[j]).0 == k;
    assert(mid.trigger@[j].0 == k && !mid.trigger@[j].1);
    assert forall|t: int|
        0 <= t < mid.trigger@.len() implies ((#[trigger] mid.trigger@[t]).1 || mid.trigger@[t].0
        == k) by {
        assert(pre.trigger@[t].1);
    }
}

/// Every loaded script, in declaration order. The router feeds each live
/// input event to all of them, one event at a time.
pub struct ScriptList(pub Vec<Script>);

impl ScriptList {
    /// Routes one input event.
    ///
    /// A press marks the member held in every script whose chord contains
    /// it and fires each script whose chord the press completes; a
    /// release clears the member's flag everywhere and never fires.
    /// Pointer moves and wheel turns touch nothing. The result lists, in
    /// ascending script order, each script that fired and what the
    /// runtime must do for it.
    pub fn on_event(&mut self, event: &InputEvent) -> (fired: Vec<(usize, FireCommand)>)
        ensures
            final(self).0@.len() == old(self).0@.len(),
            match event_key(*event) {
                Some(k) => if event_is_down(*event) {
                    &&& forall|i: int|
                        0 <= i < old(self).0@.len()
                            ==> old(self).0@[i].down_rel(#[trigger] final(self).0@[i], k)
                    &&& forall|i: int|
                        0 <= i < old(self).0@.len() ==> final(self).0@[i].running == (
                        if (#[trigger] old(self).0@[i]).down_fires(k) {
                            old(self).0@[i].fire_command() != FireCommand::Stop
                        } else {
                            old(self).0@[i].running
                        }
                        )
                    &&& forall|n: int|
                        0 <= n < fired@.len() ==> {
                            let (i, cmd) = #[trigger] fired@[n];
                            &&& (i as int) < old(self).0@.len()
                            &&& old(self).0@[i as int].down_fires(k)
                            &&& cmd == old(self).0@[i as int].fire_command()
                        }
                    &&& forall|n: int, m: int|
                        0 <= n < m < fired@.len()
                            ==> (#[trigger] fired@[n]).0 < (#[trigger] fired@[m]).0
                    &&& forall|i: int|
                        0 <= i < old(self).0@.len() && (#[trigger] old(self).0@[i]).down_fires(k)
                            ==> exists|n: int|
                            0 <= n < fired@.len() && (#[trigger] fired@[n]).0 == i
                } else {
                    &&& forall|i: int|
                        0 <= i < old(self).0@.len()
                            ==> old(self).0@[i].up_rel(#[trigger] final(self).0@[i], k)
                    &&& fired@.len() == 0
                },
                None => final(self).0@ == old(self).0@ && fired@.len() == 0,
            },
    {
        let ghost s0 = self.0@;
        let mut fired: Vec<(usize, FireCommand)> = Vec::new();
        let key_down: Option<(KeyOrButton, bool)> = match event {
            InputEvent::KeyDown(c) => Some((KeyOrButton::Key(*c), true)),
            InputEvent::KeyUp(c) => Some((KeyOrButton::Key(*c), false)),
            InputEvent::ButtonDown(c) => Some((KeyOrButton::Mouse(*c), true)),
            InputEvent::ButtonUp(c) => Some((KeyOrButton::Mouse(*c), false)),
            InputEvent::PointerMove { .. } => None,
            InputEvent::Wheel { .. } => None,
        };
        match key_down {
            None => fired,
            Some((key, true)) => {
                let mut i: usize = 0;
                while i < self.0.len()
                    invariant
                        s0 == old(self).0@,
                        i <= s0.len(),
                        self.0@.len() == s0.len(),
                        Some(key) == event_key(*event),
                        forall|t: int|
                            0 <= t < i ==> s0[t].down_rel(#[trigger] self.0@[t], key),
                        forall|t: int|
                            0 <= t < i ==> self.0@[t].running == (
                            if (#[trigger] s0[t]).down_fires(key) {
                                s0[t].fire_command() != FireCommand::Stop
                            } else {
                                s0[t].running
                            }
                            ),
                        forall|t: int| i <= t < s0.len() ==> #[trigger] self.0@[t] == s0[t],
                        forall|n: int|
                            0 <= n < fired@.len() ==> {
                                let (t, cmd) = #[trigger] fired@[n];
                                &&& (t as int) < i
                                &&& s0[t as int].down_fires(key)
                                &&& cmd == s0[t as int].fire_command()
                            },
                        forall|n: int, m: int|
                            0 <= n < m < fired@.len()
                                ==> (#[trigger] fired@[n]).0 < (#[trigger] fired@[m]).0,
                        forall|t: int|
                            0 <= t < i && (#[trigger] s0[t]).down_fires(key) ==> exists|n: int|
                                0 <= n < fired@.len() && (#[trigger] fired@[n]).0 == t,
                    decreases s0.len() - i,
                {
                    let ghost fired0 = fired@;
                    match self.0[i].down(&key) {
                        Some(cmd) => {
                            fired.push((i, cmd));
                        },
                        None => {},
                    }
                    proof {
                        assert forall|t: int|
                            0 <= t < i + 1 && (#[trigger] s0[t]).down_fires(key) implies exists|
                        n: int| 0 <= n < fired@.len() && (#[trigger] fired@[n]).0 == t by {
                            if t < i {
                                let n = choose|n: int|
                                    0 <= n < fired0.len() && (#[trigger] fired0[n]).0 == t;
                                assert(fired@[n].0 == t);
                            } else {
                                assert(fired@[fired@.len() - 1].0 == t);
                            }
                        }
                    }
                    i += 1;
                }
                fired
            },
            Some((key, false)) => {
                let mut i: usize = 0;
                while i < self.0.len()
                    invariant
                        s0 == old(self).0@,
                        i <= s0.len(),
                        self.0@.len() == s0.len(),
                        Some(key) == event_key(*event),
                        forall|t: int|
                            0 <= t < i ==> s0[t].up_rel(#[trigger] self.0@[t], key),
                        forall|t: int| i <= t < s0.len() ==> #[trigger] self.0@[t] == s0[t],
                    decreases s0.len() - i,
                {
                    self.0[i].up(&key);
                    i += 1;
                }
                fired
            },
        }
    }
}

/// Settle time in microseconds after a synthesized pointer move, before
/// the next action is played.
pub const SETTLE_MICROS: u64 = 100;

/// How long playback waits after handing one action to the action sink.
#[derive(Debug, Clone, Copy, PartialEq, Eq, Structural)]
pub enum Wait {
    /// The short fixed settle time after a pointer move
    /// (`SETTLE_MICROS` microseconds).
    Settle,
    /// The script's configured delay, in milliseconds.
    Millis(u64),
}

/// What the playback loop must do next.
#[derive(Debug, Clone, Copy, PartialEq, Eq, Structural)]
pub enum PlayStep {
    /// Hand `action` to the action sink, then wait `wait`. A failed sink
    /// call is logged and playback continues with the next step.
    Act { action: Action, wait: Wait },
    /// Wait the given number of milliseconds.
    Sleep(u64),
    /// Terminate the entire process immediately and unconditionally.
    Exit,
    /// Playback is over: report the script stopped. Only a counted
    /// script (repeat > 0) — or an empty program — finishes on its own.
    Finished,
}

/// The playback step a compiled program entry asks for.
pub open spec fn step_of(m: Method, delay: u64) -> PlayStep {
    match m {
        Method::Event(a) => PlayStep::Act {
            action: a,
            wait: if a is MouseMove {
                Wait::Settle
            } else {
                Wait::Millis(delay)
            },
        },
        Method::Custom(Custom::Sleep(n)) => PlayStep::Sleep(n),
        Method::Custom(Custom::Exit) => PlayStep::Exit,
    }
}

/// The playback state machine of one fired script: the compiled program,
/// the delay to apply after ordinary actions, the script's iteration
/// count (0 means loop until aborted), and a cursor — the position in the
/// current pass and the number of completed passes.
///
/// The surrounding runtime drives it by calling `advance` and performing
/// each returned step; cancellation simply stops calling.
#[derive(Debug)]
pub struct Playback {
    pub program: Vec<Method>,
    pub delay: u64,
    pub repeat: usize,
    pub pos: usize,
    pub iter: usize,
}

impl Playback {
    /// The cursor stays inside the program, and a counted playback never
    /// passes its iteration count.
    pub open spec fn wf(self) -> bool {
        &&& if self.program@.len() == 0 {
            self.pos == 0
        } else {
            self.pos < self.program@.len()
        }
        &&& self.repeat > 0 ==> self.iter <= self.repeat
        &&& (self.repeat > 0 && self.iter == self.repeat) ==> self.pos == 0
        &&& self.repeat == 0 ==> self.iter == 0
    }

    /// True when playback has nothing more to emit: a counted script that
    /// has completed all its iterations, or an empty program.
    pub open spec fn spec_finished(self) -> bool {
        self.program@.len() == 0 || (self.repeat > 0 && self.iter == self.repeat)
    }

    /// How many steps this playback has emitted so far.
    pub open spec fn steps_done(self) -> int {
        self.iter as int * self.program@.len() as int + self.pos as int
    }

    /// How one `advance` call relates the state before, the state after
    /// and the emitted step.
    pub open spec fn advance_rel(pre: Playback, post: Playback, step: PlayStep) -> bool {
        &&& post.program == pre.program
        &&& post.delay == pre.delay
        &&& post.repeat == pre.repeat
        &&& if pre.spec_finished() {
            step == PlayStep::Finished && post.pos == pre.pos && post.iter == pre.iter
        } else {
            &&& step == step_of(pre.program@[pre.pos as int], pre.delay)
            &&& (pre.pos + 1 < pre.program@.len() ==> post.pos == pre.pos + 1 && post.iter
                == pre.iter)
            &&& (pre.pos + 1 == pre.program@.len() ==> {
                &&& post.pos == 0
                &&& (pre.repeat == 0 ==> post.iter == 0)
                &&& (pre.repeat > 0 ==> post.iter == pre.iter + 1)
            })
        }
    }

    /// A fresh playback for one fired script.
    pub fn new(program: Vec<Method>, delay: u64, repeat: usize) -> (p: Playback)
        ensures
            p.program == program,
            p.delay == delay,
            p.repeat == repeat,
            p.pos == 0,
            p.iter == 0,
            p.steps_done() == 0,
            p.wf(),
    {
        Playback { program, delay, repeat, pos: 0, iter: 0 }
    }

    /// Emits the next playback step and moves the cursor.
    ///
    /// A toggle playback (repeat 0) loops over the program until the
    /// runtime stops calling; a counted one emits the program exactly
    /// `repeat` times and then `Finished`, with no external fire needed.
    pub fn advance(&mut self) -> (step: PlayStep)
        requires
            old(self).wf(),
        ensures
            final(self).wf(),
            Playback::advance_rel(*old(self), *final(self), step),
    {
        let len = self.program.len();
        if len == 0 || (self.repeat > 0 && self.iter == self.repeat) {
            return PlayStep::Finished;
        }
        let step = match self.program[self.pos] {
            Method::Event(a) => PlayStep::Act {
                action: a,
                wait: match a {
                    Action::MouseMove { .. } => Wait::Settle,
                    _ => Wait::Millis(self.delay),
                },
            },
            Method::Custom(Custom::Sleep(n)) => PlayStep::Sleep(n),
            Method::Custom(Custom::Exit) => PlayStep::Exit,
        };
        if self.pos + 1 < len {
            self.pos = self.pos + 1;
        } else {
            self.pos = 0;
            if self.repeat > 0 {
                self.iter = self.iter + 1;
            }
        }
        step
    }
}

/// A counted playback (repeat > 0) emits exactly `repeat` times the
/// program length many steps, and finishes exactly then: every `advance`
/// either emits the next step — raising the emitted-step count by one —
/// or reports `Finished`, precisely when all iterations are done. A fresh
/// playback starts with an emitted-step count of zero, so the program is
/// played back exactly `repeat` times, with no external fire involved.
pub proof fn lemma_counted_playback_exact(pre: Playback, post: Playback, step: PlayStep)
    requires
        pre.wf(),
        pre.repeat > 0,
        Playback::advance_rel(pre, post, step),
    ensures
        (step == PlayStep::Finished) <==> (pre.steps_done() == pre.repeat as int
            * pre.program@.len() as int),
        step != PlayStep::Finished ==> post.steps_done() == pre.steps_done() + 1,
{
    let len = pre.program@.len() as int;
    let iter = pre.iter as int;
    let repeat = pre.repeat as int;
    if pre.spec_finished() {
        assert(pre.steps_done() == repeat * len) by (nonlinear_arith)
            requires
                len == 0 || (iter == repeat && pre.pos == 0),
                len == 0 ==> pre.pos == 0,
                pre.steps_done() == iter * len + pre.pos,
        ;
    } else {
        assert(pre.steps_done() < repeat * len) by (nonlinear_arith)
            requires
                0 <= iter < repeat,
                0 <= pre.pos < len,
                pre.steps_done() == iter * len + pre.pos,
        ;
        if pre.pos + 1 == len {
            assert((iter + 1) * len == iter * len + len) by (nonlinear_arith);
        }
    }
}

/// What one observed input occurrence adds to a recording: the elapsed
/// time as a sleep, then the event itself; a button press or release is
/// preceded by a move to the last known pointer position.
pub open spec fn recorded_of(point: (i32, i32), elapsed_ms: u64, e: InputEvent) -> Seq<ScriptEvent> {
    match e {
        InputEvent::KeyDown(k) => seq![ScriptEvent::Sleep(elapsed_ms), ScriptEvent::KeyDown(k)],
        InputEvent::KeyUp(k) => seq![ScriptEvent::Sleep(elapsed_ms), ScriptEvent::KeyUp(k)],
        InputEvent::ButtonDown(b) => seq![
            ScriptEvent::Sleep(elapsed_ms),
            ScriptEvent::Move(point.0, point.1),
            ScriptEvent::ClickDown(b),
        ],
        InputEvent::ButtonUp(b) => seq![
            ScriptEvent::Sleep(elapsed_ms),
            ScriptEvent::Move(point.0, point.1),
            ScriptEvent::ClickUp(b),
        ],
        InputEvent::Wheel { delta_x, delta_y } => seq![
            ScriptEvent::Sleep(elapsed_ms),
            ScriptEvent::Scroll(delta_x, delta_y),
        ],
        InputEvent::PointerMove { .. } => Seq::empty(),
    }
}

/// The pointer gesture that ends a recording: a move whose coordinate
/// sum is below 1 (the screen's top-left corner).
pub open spec fn null_region(x: i32, y: i32) -> bool {
    (x as int) + (y as int) < 1
}

/// Captures live input as an exportable declared-event sequence: the last
/// known pointer position and the events recorded so far.
#[derive(Debug)]
pub struct Recorder {
    pub point: (i32, i32),
    pub events: Vec<ScriptEvent>,
}

impl Recorder {
    /// An empty recording, with the pointer at the origin.
    pub fn new() -> (r: Recorder)
        ensures
            r.point == (0i32, 0i32),
            r.events@ == Seq::<ScriptEvent>::empty(),
    {
        Recorder { point: (0, 0), events: Vec::new() }
    }

    /// Feeds one observed event, with the milliseconds elapsed since the
    /// previous one.
    ///
    /// A pointer move into the null region (coordinate sum below 1) ends
    /// the recording — true is returned and nothing is recorded; any
    /// other pointer move only updates the tracked position. Every other
    /// event appends the elapsed time as a sleep and its own recording.
    pub fn observe(&mut self, elapsed_ms: u64, event: &InputEvent) -> (done: bool)
        ensures
            match *event {
                InputEvent::PointerMove { x, y } => {
                    &&& final(self).events@ == old(self).events@
                    &&& done == null_region(x, y)
                    &&& if done {
                        final(self).point == old(self).point
                    } else {
                        final(self).point == (x, y)
                    }
                },
                _ => {
                    &&& !done
                    &&& final(self).point == old(self).point
                    &&& final(self).events@ == old(self).events@ + recorded_of(
                        old(self).point,
                        elapsed_ms,
                        *event,
                    )
                },
            },
    {
        let ghost pre = *self;
        match event {
            InputEvent::PointerMove { x, y } => {
                if (*x as i64) + (*y as i64) < 1 {
                    return true;
                }
                self.point = (*x, *y);
                false
            },
            InputEvent::KeyDown(k) => {
                self.events.push(ScriptEvent::Sleep(elapsed_ms));
                self.events.push(ScriptEvent::KeyDown(*k));
                proof {
                    assert(self.events@ =~= pre.events@ + recorded_of(
                        pre.point,
                        elapsed_ms,
                        *event,
                    ));
                }
                false
            },
            InputEvent::KeyUp(k) => {
                self.events.push(ScriptEvent::Sleep(elapsed_ms));
                self.events.push(ScriptEvent::KeyUp(*k));
                proof {
                    assert(self.events@ =~= pre.events@ + recorded_of(
                        pre.point,
                        elapsed_ms,
                        *event,
                    ));
                }
                false
            },
            InputEvent::ButtonDown(b) => {
                self.events.push(ScriptEvent::Sleep(elapsed_ms));
                self.events.push(ScriptEvent::Move(self.point.0, self.point.1));
                self.events.push(ScriptEvent::ClickDown(*b));
                proof {
                    assert(self.events@ =~= pre.events@ + recorded_of(
                        pre.point,
                        elapsed_ms,
                        *event,
                    ));
                }
                false
            },
            InputEvent::ButtonUp(b) => {
                self.events.push(ScriptEvent::Sleep(elapsed_ms));
                self.events.push(ScriptEvent::Move(self.point.0, self.point.1));
                self.events.push(ScriptEvent::ClickUp(*b));
                proof {
                    assert(self.events@ =~= pre.events@ + recorded_of(
                        pre.point,
                        elapsed_ms,
                        *event,
                    ));
                }
                false
            },
            InputEvent::Wheel { delta_x, delta_y } => {
                self.events.push(ScriptEvent::Sleep(elapsed_ms));
                self.events.push(ScriptEvent::Scroll(*delta_x, *delta_y));
                proof {
                    assert(self.events@ =~= pre.events@ + recorded_of(
                        pre.point,
                        elapsed_ms,
                        *event,
                    ));
                }
                false
            },
        }
    }
}

} // verus!
