//! Declared script configuration and the script compiler.
//!
//! A configuration declares named event blocks and a list of scripts; the
//! compiler expands each script's event list — including inline and named
//! block references with repeat/sleep wrapping and coordinate correction —
//! into an immutable flat action program.

use vstd::arithmetic::div_mod::lemma_div_nonincreasing;
use vstd::prelude::*;

use crate::script::Script;
use crate::script::ScriptList;

verus! {

/// Key and mouse identities, as stable plain codes.
///
/// A keyboard key is identified by a `u32` code and a mouse button by a
/// `u8` code; the surrounding binary maps the capture library's key and
/// button values to these codes and back.
#[derive(Debug, Clone, Copy, PartialEq, Eq, Hash, Structural)]
pub enum KeyOrButton {
    Key(u32),
    Mouse(u8),
}

/// One primitive synthesized input action, the unit handed to the action
/// sink during playback. Pointer coordinates are physical (already
/// corrected) and wheel deltas are signed step counts.
#[derive(Debug, Clone, Copy, PartialEq, Eq, Structural)]
pub enum Action {
    KeyPress(u32),
    KeyRelease(u32),
    ButtonPress(u8),
    ButtonRelease(u8),
    MouseMove { x: i64, y: i64 },
    Wheel { delta_x: i64, delta_y: i64 },
}

/// A compiled step that is not handed to the action sink: an in-script
/// pause, or a deliberate termination of the whole process.
#[derive(Debug, Clone, Copy, PartialEq, Eq, Structural)]
pub enum Custom {
    /// Pause playback for the given number of milliseconds.
    Sleep(u64),
    /// Terminate the entire process immediately and unconditionally.
    Exit,
}

/// One entry of a compiled action program.
#[derive(Debug, Clone, Copy, PartialEq, Eq, Structural)]
pub enum Method {
    /// A primitive action for the action sink.
    Event(Action),
    /// A sleep or exit step, interpreted by the playback loop itself.
    Custom(Custom),
}

impl Method {
    /// The compiled form of pressing key `key`.
    pub fn key_down(key: u32) -> (r: Self)
        ensures
            r == Method::Event(Action::KeyPress(key)),
    {
        Method::Event(Action::KeyPress(key))
    }

    /// The compiled form of releasing key `key`.
    pub fn key_up(key: u32) -> (r: Self)
        ensures
            r == Method::Event(Action::KeyRelease(key)),
    {
        Method::Event(Action::KeyRelease(key))
    }

    /// The compiled form of pressing mouse button `button`.
    pub fn mouse_down(button: u8) -> (r: Self)
        ensures
            r == Method::Event(Action::ButtonPress(button)),
    {
        Method::Event(Action::ButtonPress(button))
    }

    /// The compiled form of releasing mouse button `button`.
    pub fn mouse_up(button: u8) -> (r: Self)
        ensures
            r == Method::Event(Action::ButtonRelease(button)),
    {
        Method::Event(Action::ButtonRelease(button))
    }
}

/// A display scale factor, kept as the exact rational `num / den`.
///
/// A scale of 2 is `num = 2, den = 1`; a scale of 1.25 is
/// `num = 5, den = 4` (or `num = 1250, den = 1000`).
#[derive(Debug, Clone, Copy, PartialEq, Eq, Structural)]
pub struct Scale {
    pub num: u32,
    pub den: u16,
}

impl Scale {
    /// A scale is usable when neither side of the ratio is zero.
    pub open spec fn wf(self) -> bool {
        self.num >= 1 && self.den >= 1
    }
}

/// Integer division that truncates toward zero, for a positive divisor.
pub open spec fn div_toward_zero(a: int, b: int) -> int
    recommends
        b > 0,
{
    if a >= 0 {
        a / b
    } else {
        -((-a) / b)
    }
}

/// Coordinate correction: a logical coordinate `v` maps to the physical
/// coordinate `(v + off) / scale`, that is `(v + off) * den / num`,
/// truncated toward zero.
pub open spec fn corrected(v: int, off: int, s: Scale) -> int
    recommends
        s.wf(),
{
    div_toward_zero((v + off) * s.den, s.num as int)
}

/// Applies coordinate correction to one logical coordinate.
pub fn correct(v: i32, off: i32, s: &Scale) -> (r: i64)
    requires
        s.wf(),
    ensures
        r == corrected(v as int, off as int, *s),
        -0x1_0000_0000_0000i64 <= r <= 0x1_0000_0000_0000i64,
{
    let sum: i64 = (v as i64) + (off as i64);
    let den: u64 = s.den as u64;
    let num: u64 = s.num as u64;
    if sum >= 0 {
        let mag: u64 = sum as u64;
        assert(mag * den <= 0x1_0000_0000u64 * 0x1_0000u64) by (nonlinear_arith)
            requires
                mag <= 0x1_0000_0000u64,
                den <= 0x1_0000u64,
        ;
        let prod: u64 = mag * den;
        let q: u64 = prod / num;
        proof {
            lemma_div_nonincreasing(prod as int, num as int);
        }
        q as i64
    } else {
        let mag: u64 = (-sum) as u64;
        assert(mag * den <= 0x1_0000_0000u64 * 0x1_0000u64) by (nonlinear_arith)
            requires
                mag <= 0x1_0000_0000u64,
                den <= 0x1_0000u64,
        ;
        let prod: u64 = mag * den;
        let q: u64 = prod / num;
        proof {
            lemma_div_nonincreasing(prod as int, num as int);
            assert(mag as int * den as int == -((sum as int) * (den as int))) by (nonlinear_arith)
                requires
                    mag as int == -(sum as int),
            ;
        }
        -(q as i64)
    }
}

/// A reusable event sub-sequence inside a `ScriptEvent::Block`: either the
/// name of an entry of the configuration's block table, or an inline list.
#[derive(Debug, PartialEq)]
pub enum Block {
    Name(String),
    Block(Vec<ScriptEvent>),
}

/// One declared (pre-compile) script event. Coordinates are logical and
/// are corrected once, at compile time.
#[derive(Debug, PartialEq)]
pub enum ScriptEvent {
    /// Press and release a mouse button.
    Click(u8),
    /// Release a mouse button.
    ClickUp(u8),
    /// Press a mouse button.
    ClickDown(u8),
    /// Move to a logical position, then press and release a button.
    ClickOn(u8, i32, i32),
    /// Drag: move, press, move to the second position, release.
    ClickTo(u8, i32, i32, i32, i32),
    /// Release a keyboard key.
    KeyUp(u32),
    /// Press a keyboard key.
    KeyDown(u32),
    /// Press and release a keyboard key.
    Key(u32),
    /// Press every listed key in declared order, then release them all in
    /// the same order — all presses before any release.
    Keys(Vec<u32>),
    /// Move the pointer to a logical position.
    Move(i32, i32),
    /// Turn the wheel by the given deltas.
    Scroll(i64, i64),
    /// A reusable sub-sequence, repeated `repeat` times with a sleep of
    /// `sleep` milliseconds between consecutive copies.
    Block { repeat: usize, sleep: u64, block: Block },
    /// Pause for the given number of milliseconds.
    Sleep(u64),
    /// Terminate the process.
    Exit,
}

/// One declared script: a unique title, the chord that triggers it, an
/// iteration count (0 means run until retriggered), an optional per-script
/// delay override, and the declared event list.
#[derive(Debug, PartialEq)]
pub struct ScriptItem {
    pub title: String,
    pub repeat: usize,
    pub trigger: Vec<KeyOrButton>,
    pub delay: Option<u64>,
    pub methods: Vec<ScriptEvent>,
}

/// A loaded configuration: the global inter-action delay, the coordinate
/// correction parameters, the named block table and the declared scripts.
#[derive(Debug)]
pub struct Config {
    /// Default delay in milliseconds between two played-back actions.
    pub delay: u64,
    /// Display scale used for coordinate correction.
    pub scaling: Scale,
    /// Offset added to each logical coordinate before scaling.
    pub offset: (i32, i32),
    /// Named block table: each entry maps a name to its event sequence.
    pub blocks: Vec<(String, Vec<ScriptEvent>)>,
    /// The declared scripts.
    pub scripts: Vec<ScriptItem>,
}

/// Why compiling an event list failed.
#[derive(Debug, Clone, PartialEq)]
pub enum CompileError {
    /// A `Block` referenced a name that the block table does not define.
    UndefinedBlock(String),
    /// A chain of named block references came back to a name that is
    /// already being expanded (a direct self-reference, or a longer cycle).
    CircularBlock(String),
}

/// The mathematical shape of a `CompileError`: the same two cases over the
/// character sequence of the offending name.
pub ghost enum SpecCompileError {
    Undefined(Seq<char>),
    Circular(Seq<char>),
}

impl View for CompileError {
    type V = SpecCompileError;

    open spec fn view(&self) -> SpecCompileError {
        match self {
            CompileError::UndefinedBlock(n) => SpecCompileError::Undefined(n@),
            CompileError::CircularBlock(n) => SpecCompileError::Circular(n@),
        }
    }
}

/// The size of one declared event: 1, plus the size of the inline event
/// list for an inline block. Termination measure for block expansion.
pub open spec fn event_size(e: ScriptEvent) -> nat
    decreases e,
{
    match e {
        ScriptEvent::Block { block: Block::Block(inner), .. } => 1 + events_size(inner@),
        _ => 1,
    }
}

/// The total size of a declared event list.
pub open spec fn events_size(evs: Seq<ScriptEvent>) -> nat
    decreases evs,
{
    if evs.len() == 0 {
        0
    } else {
        event_size(evs[0]) + events_size(evs.drop_first())
    }
}

/// First entry of the block table whose name reads `name`, if any.
pub open spec fn spec_lookup(table: Seq<(String, Vec<ScriptEvent>)>, name: Seq<char>) -> Option<
    Seq<ScriptEvent>,
>
    decreases table.len(),
{
    if table.len() == 0 {
        None
    } else if table[0].0@ == name {
        Some(table[0].1@)
    } else {
        spec_lookup(table.drop_first(), name)
    }
}

/// The set of names that the block table defines.
pub open spec fn block_names(table: Seq<(String, Vec<ScriptEvent>)>) -> Set<Seq<char>>
    decreases table.len(),
{
    if table.len() == 0 {
        Set::empty()
    } else {
        block_names(table.drop_first()).insert(table[0].0@)
    }
}

/// How many defined names are not yet on the expansion path. Termination
/// measure for named block expansion.
pub open spec fn free_names(table: Seq<(String, Vec<ScriptEvent>)>, path: Set<Seq<char>>) -> nat {
    block_names(table).difference(path).len()
}

proof fn lemma_block_names_finite(table: Seq<(String, Vec<ScriptEvent>)>)
    ensures
        block_names(table).finite(),
    decreases table.len(),
{
    if table.len() != 0 {
        lemma_block_names_finite(table.drop_first());
    }
}

proof fn lemma_lookup_defined(table: Seq<(String, Vec<ScriptEvent>)>, name: Seq<char>)
    ensures
        spec_lookup(table, name) is Some <==> block_names(table).contains(name),
    decreases table.len(),
{
    if table.len() != 0 {
        lemma_lookup_defined(table.drop_first(), name);
    }
}

/// Entering a defined name that is not yet on the path strictly shrinks
/// the pool of free names.
proof fn lemma_free_names_decreases(
    table: Seq<(String, Vec<ScriptEvent>)>,
    path: Set<Seq<char>>,
    name: Seq<char>,
)
    requires
        block_names(table).contains(name),
        !path.contains(name),
    ensures
        free_names(table, path.insert(name)) < free_names(table, path),
{
    let names = block_names(table);
    lemma_block_names_finite(table);
    let before = names.difference(path);
    let after = names.difference(path.insert(name));
    assert(after =~= before.remove(name));
    assert(before.contains(name));
    vstd::set_lib::lemma_set_subset_finite(names, before);
    vstd::set::axiom_set_remove_len(before, name);
}

/// The corrected move action for logical position `(x, y)`.
pub open spec fn spec_mouse_move(cfg: Config, x: int, y: int) -> Action
    recommends
        cfg.scaling.wf(),
{
    Action::MouseMove {
        x: corrected(x, cfg.offset.0 as int, cfg.scaling) as i64,
        y: corrected(y, cfg.offset.1 as int, cfg.scaling) as i64,
    }
}

/// The expansion of `Keys`: press every key in declared order, then
/// release every key in the same order — all presses before any release.
pub open spec fn keys_expansion(ks: Seq<u32>) -> Seq<Method> {
    Seq::new(ks.len(), |i: int| Method::Event(Action::KeyPress(ks[i]))) + Seq::new(
        ks.len(),
        |i: int| Method::Event(Action::KeyRelease(ks[i])),
    )
}

/// `n` copies of program `s`, with a sleep of `sleep` milliseconds between
/// consecutive copies and none after the last.
pub open spec fn repeat_sep(s: Seq<Method>, sleep: u64, n: nat) -> Seq<Method>
    decreases n,
{
    if n == 0 {
        Seq::empty()
    } else if n == 1 {
        s
    } else {
        repeat_sep(s, sleep, (n - 1) as nat) + seq![Method::Custom(Custom::Sleep(sleep))] + s
    }
}

/// The expansion of one declared event that is not a block.
pub open spec fn simple_expansion(cfg: Config, e: ScriptEvent) -> Seq<Method>
    recommends
        cfg.scaling.wf(),
        !(e matches ScriptEvent::Block { .. }),
{
    match e {
        ScriptEvent::Click(b) => seq![
            Method::Event(Action::ButtonPress(b)),
            Method::Event(Action::ButtonRelease(b)),
        ],
        ScriptEvent::ClickUp(b) => seq![Method::Event(Action::ButtonRelease(b))],
        ScriptEvent::ClickDown(b) => seq![Method::Event(Action::ButtonPress(b))],
        ScriptEvent::ClickOn(b, x, y) => seq![
            Method::Event(spec_mouse_move(cfg, x as int, y as int)),
            Method::Event(Action::ButtonPress(b)),
            Method::Event(Action::ButtonRelease(b)),
        ],
        ScriptEvent::ClickTo(b, x, y, x2, y2) => seq![
            Method::Event(spec_mouse_move(cfg, x as int, y as int)),
            Method::Event(Action::ButtonPress(b)),
            Method::Event(spec_mouse_move(cfg, x2 as int, y2 as int)),
            Method::Event(Action::ButtonRelease(b)),
        ],
        ScriptEvent::KeyUp(k) => seq![Method::Event(Action::KeyRelease(k))],
        ScriptEvent::KeyDown(k) => seq![Method::Event(Action::KeyPress(k))],
        ScriptEvent::Key(k) => seq![
            Method::Event(Action::KeyPress(k)),
            Method::Event(Action::KeyRelease(k)),
        ],
        ScriptEvent::Keys(ks) => keys_expansion(ks@),
        ScriptEvent::Move(x, y) => seq![Method::Event(spec_mouse_move(cfg, x as int, y as int))],
        ScriptEvent::Scroll(dx, dy) => seq![Method::Event(Action::Wheel { delta_x: dx, delta_y: dy })],
        ScriptEvent::Sleep(n) => seq![Method::Custom(Custom::Sleep(n))],
        ScriptEvent::Exit => seq![Method::Custom(Custom::Exit)],
        ScriptEvent::Block { .. } => Seq::empty(),
    }
}

/// The expansion of one declared event, on an expansion path holding the
/// block names currently being expanded.
///
/// A block resolves its body (table lookup or inline list), expands it
/// recursively, and emits `repeat` copies of the result separated by
/// sleeps. A name missing from the table is an `Undefined` error; a name
/// already on the path is a `Circular` error — every cycle of named
/// references is detected, the direct self-reference included.
pub open spec fn spec_expand_event(cfg: Config, e: ScriptEvent, path: Set<Seq<char>>) -> Result<
    Seq<Method>,
    SpecCompileError,
>
    recommends
        cfg.scaling.wf(),
    decreases free_names(cfg.blocks@, path), event_size(e), 0int,
        via spec_expand_event_dec
{
    match e {
        ScriptEvent::Block { repeat, sleep, block } => {
            let sub = match block {
                Block::Name(n) => match spec_lookup(cfg.blocks@, n@) {
                    None => Err(SpecCompileError::Undefined(n@)),
                    Some(body) => if path.contains(n@) {
                        Err(SpecCompileError::Circular(n@))
                    } else {
                        spec_expand_events(cfg, body, path.insert(n@))
                    },
                },
                Block::Block(inner) => spec_expand_events(cfg, inner@, path),
            };
            match sub {
                Ok(s) => Ok(repeat_sep(s, sleep, repeat as nat)),
                Err(err) => Err(err),
            }
        },
        _ => Ok(simple_expansion(cfg, e)),
    }
}

/// The expansion of a declared event list: each event expanded in order,
/// the results concatenated; the first error, if any, is the result.
pub open spec fn spec_expand_events(
    cfg: Config,
    evs: Seq<ScriptEvent>,
    path: Set<Seq<char>>,
) -> Result<Seq<Method>, SpecCompileError>
    recommends
        cfg.scaling.wf(),
    decreases free_names(cfg.blocks@, path), events_size(evs), 1int,
        via spec_expand_events_dec
{
    if evs.len() == 0 {
        Ok(Seq::empty())
    } else {
        match spec_expand_event(cfg, evs[0], path) {
            Err(err) => Err(err),
            Ok(head) => match spec_expand_events(cfg, evs.drop_first(), path) {
                Err(err) => Err(err),
                Ok(tail) => Ok(head + tail),
            },
        }
    }
}

#[via_fn]
proof fn spec_expand_events_dec(cfg: Config, evs: Seq<ScriptEvent>, path: Set<Seq<char>>) {
    if evs.len() != 0 {
        assert(events_size(evs) == event_size(evs[0]) + events_size(evs.drop_first()));
        assert(event_size(evs[0]) >= 1);
    }
}

#[via_fn]
proof fn spec_expand_event_dec(cfg: Config, e: ScriptEvent, path: Set<Seq<char>>) {
    if let ScriptEvent::Block { block: Block::Name(n), .. } = e {
        if spec_lookup(cfg.blocks@, n@) is Some && !path.contains(n@) {
            lemma_lookup_defined(cfg.blocks@, n@);
            lemma_free_names_decreases(cfg.blocks@, path, n@);
        }
    }
}

/// `s` with every `Sleep(0)` entry removed (dead-delay elimination).
pub open spec fn prune_sleep0(s: Seq<Method>) -> Seq<Method>
    decreases s.len(),
{
    if s.len() == 0 {
        Seq::empty()
    } else if s.last() == Method::Custom(Custom::Sleep(0u64)) {
        prune_sleep0(s.drop_last())
    } else {
        prune_sleep0(s.drop_last()) + seq![s.last()]
    }
}

/// What compiling a declared event list yields: the full expansion, on an
/// empty path, with every `Sleep(0)` pruned afterwards.
pub open spec fn spec_transform(cfg: Config, evs: Seq<ScriptEvent>) -> Result<
    Seq<Method>,
    SpecCompileError,
>
    recommends
        cfg.scaling.wf(),
{
    match spec_expand_events(cfg, evs, Set::empty()) {
        Ok(s) => Ok(prune_sleep0(s)),
        Err(err) => Err(err),
    }
}

/// The names on an expansion path held as a stack of strings.
pub open spec fn path_set(p: Seq<String>) -> Set<Seq<char>>
    decreases p.len(),
{
    if p.len() == 0 {
        Set::empty()
    } else {
        path_set(p.drop_last()).insert(p.last()@)
    }
}

proof fn lemma_path_set_contains(p: Seq<String>, x: Seq<char>)
    ensures
        path_set(p).contains(x) <==> exists|j: int| 0 <= j < p.len() && p[j]@ == x,
    decreases p.len(),
{
    if p.len() != 0 {
        lemma_path_set_contains(p.drop_last(), x);
        if p.last()@ == x {
            assert(p[p.len() - 1]@ == x);
        } else if path_set(p).contains(x) {
            let j = choose|j: int| 0 <= j < p.len() - 1 && p.drop_last()[j]@ == x;
            assert(p[j]@ == x);
        } else if exists|j: int| 0 <= j < p.len() && p[j]@ == x {
            let j = choose|j: int| 0 <= j < p.len() && p[j]@ == x;
            assert(p.drop_last()[j]@ == x);
        }
    }
}

/// Every event of a list weighs no more than the whole list.
proof fn lemma_events_size_elem(evs: Seq<ScriptEvent>, i: int)
    requires
        0 <= i < evs.len(),
    ensures
        event_size(evs[i]) <= events_size(evs),
    decreases evs.len(),
{
    if i > 0 {
        lemma_events_size_elem(evs.drop_first(), i - 1);
        assert(evs.drop_first()[i - 1] == evs[i]);
    }
}

/// An already-expanded prefix, followed by the expansion of the rest:
/// the whole expansion, unless the rest fails.
pub open spec fn chain_expansion(
    prefix: Seq<Method>,
    rest: Result<Seq<Method>, SpecCompileError>,
) -> Result<Seq<Method>, SpecCompileError> {
    match rest {
        Ok(tail) => Ok(prefix + tail),
        Err(err) => Err(err),
    }
}

proof fn lemma_chain_step(
    cfg: Config,
    evs: Seq<ScriptEvent>,
    p: Set<Seq<char>>,
    i: int,
    prev: Seq<Method>,
    h: Seq<Method>,
)
    requires
        0 <= i < evs.len(),
        spec_expand_event(cfg, evs[i], p) == Ok::<_, SpecCompileError>(h),
        spec_expand_events(cfg, evs, p) == chain_expansion(
            prev,
            spec_expand_events(cfg, evs.skip(i), p),
        ),
    ensures
        spec_expand_events(cfg, evs, p) == chain_expansion(
            prev + h,
            spec_expand_events(cfg, evs.skip(i + 1), p),
        ),
{
    assert(evs.skip(i)[0] == evs[i]);
    assert(evs.skip(i).drop_first() =~= evs.skip(i + 1));
    let rest = spec_expand_events(cfg, evs.skip(i + 1), p);
    if rest is Ok {
        assert(prev + (h + rest->Ok_0) =~= (prev + h) + rest->Ok_0);
    }
}

proof fn lemma_chain_err(
    cfg: Config,
    evs: Seq<ScriptEvent>,
    p: Set<Seq<char>>,
    i: int,
    prev: Seq<Method>,
    err: SpecCompileError,
)
    requires
        0 <= i < evs.len(),
        spec_expand_event(cfg, evs[i], p) == Err::<Seq<Method>, _>(err),
        spec_expand_events(cfg, evs, p) == chain_expansion(
            prev,
            spec_expand_events(cfg, evs.skip(i), p),
        ),
    ensures
        spec_expand_events(cfg, evs, p) == Err::<Seq<Method>, _>(err),
{
    assert(evs.skip(i)[0] == evs[i]);
}

/// True when `name` is on the expansion path.
fn path_contains(path: &Vec<String>, name: &String) -> (r: bool)
    ensures
        r == path_set(path@).contains(name@),
{
    let mut i: usize = 0;
    let mut found = false;
    while i < path.len()
        invariant
            i <= path.len(),
            found == exists|j: int| 0 <= j < i && path@[j]@ == name@,
        decreases path.len() - i,
    {
        if path[i] == *name {
            found = true;
            assert(path@[i as int]@ == name@);
        }
        i += 1;
    }
    proof {
        lemma_path_set_contains(path@, name@);
    }
    found
}

/// Looks a name up in the block table; first match wins.
fn lookup_block<'a>(table: &'a Vec<(String, Vec<ScriptEvent>)>, name: &String) -> (r: Option<
    &'a Vec<ScriptEvent>,
>)
    ensures
        match r {
            Some(body) => spec_lookup(table@, name@) == Some(body@),
            None => spec_lookup(table@, name@) is None,
        },
{
    let mut i: usize = 0;
    proof {
        assert(table@.skip(0) =~= table@);
    }
    while i < table.len()
        invariant
            i <= table.len(),
            spec_lookup(table@, name@) == spec_lookup(table@.skip(i as int), name@),
        decreases table.len() - i,
    {
        proof {
            assert(table@.skip(i as int)[0] == table@[i as int]);
            assert(table@.skip(i as int).drop_first() =~= table@.skip(i as int + 1));
        }
        if table[i].0 == *name {
            return Some(&table[i].1);
        }
        i += 1;
    }
    None
}

impl Config {
    /// The corrected move action for the logical position `(x, y)`:
    /// `physical = (logical + offset) / scale`, applied to each coordinate.
    pub fn mouse_move(&self, x: i32, y: i32) -> (r: Action)
        requires
            self.scaling.wf(),
        ensures
            r == spec_mouse_move(*self, x as int, y as int),
    {
        Action::MouseMove {
            x: correct(x, self.offset.0, &self.scaling),
            y: correct(y, self.offset.1, &self.scaling),
        }
    }

    /// Expands a declared event list on the given expansion path.
    fn expand_events(&self, evs: &Vec<ScriptEvent>, path: &mut Vec<String>) -> (r: Result<
        Vec<Method>,
        CompileError,
    >)
        requires
            self.scaling.wf(),
        ensures
            final(path)@ == old(path)@,
            match r {
                Ok(v) => spec_expand_events(*self, evs@, path_set(old(path)@))
                    == Ok::<_, SpecCompileError>(v@),
                Err(e) => spec_expand_events(*self, evs@, path_set(old(path)@))
                    == Err::<Seq<Method>, _>(e@),
            },
        decreases free_names(self.blocks@, path_set(old(path)@)), events_size(evs@),
    {
        let ghost path0 = path@;
        let ghost p = path_set(path0);
        let mut out: Vec<Method> = Vec::new();
        let mut i: usize = 0;
        proof {
            assert(evs@.skip(0) =~= evs@);
            assert(Seq::<Method>::empty() + spec_expand_events(*self, evs@, p)->Ok_0
                =~= spec_expand_events(*self, evs@, p)->Ok_0);
        }
        while i < evs.len()
            invariant
                self.scaling.wf(),
                i <= evs.len(),
                path0 == old(path)@,
                path@ == path0,
                p == path_set(path0),
                spec_expand_events(*self, evs@, p) == chain_expansion(
                    out@,
                    spec_expand_events(*self, evs@.skip(i as int), p),
                ),
            decreases evs.len() - i,
        {
            let ghost prev = out@;
            let ghost e = evs@[i as int];
            match &evs[i] {
                ScriptEvent::Click(b) => {
                    out.push(Method::Event(Action::ButtonPress(*b)));
                    out.push(Method::Event(Action::ButtonRelease(*b)));
                    proof {
                        assert(out@ =~= prev + simple_expansion(*self, e));
                        lemma_chain_step(*self, evs@, p, i as int, prev, simple_expansion(*self, e));
                    }
                },
                ScriptEvent::ClickUp(b) => {
                    out.push(Method::Event(Action::ButtonRelease(*b)));
                    proof {
                        assert(out@ =~= prev + simple_expansion(*self, e));
                        lemma_chain_step(*self, evs@, p, i as int, prev, simple_expansion(*self, e));
                    }
                },
                ScriptEvent::ClickDown(b) => {
                    out.push(Method::Event(Action::ButtonPress(*b)));
                    proof {
                        assert(out@ =~= prev + simple_expansion(*self, e));
                        lemma_chain_step(*self, evs@, p, i as int, prev, simple_expansion(*self, e));
                    }
                },
                ScriptEvent::ClickOn(b, x, y) => {
                    out.push(Method::Event(self.mouse_move(*x, *y)));
                    out.push(Method::Event(Action::ButtonPress(*b)));
                    out.push(Method::Event(Action::ButtonRelease(*b)));
                    proof {
                        assert(out@ =~= prev + simple_expansion(*self, e));
                        lemma_chain_step(*self, evs@, p, i as int, prev, simple_expansion(*self, e));
                    }
                },
                ScriptEvent::ClickTo(b, x, y, x2, y2) => {
                    out.push(Method::Event(self.mouse_move(*x, *y)));
                    out.push(Method::Event(Action::ButtonPress(*b)));
                    out.push(Method::Event(self.mouse_move(*x2, *y2)));
                    out.push(Method::Event(Action::ButtonRelease(*b)));
                    proof {
                        assert(out@ =~= prev + simple_expansion(*self, e));
                        lemma_chain_step(*self, evs@, p, i as int, prev, simple_expansion(*self, e));
                    }
                },
                ScriptEvent::KeyUp(k) => {
                    out.push(Method::Event(Action::KeyRelease(*k)));
                    proof {
                        assert(out@ =~= prev + simple_expansion(*self, e));
                        lemma_chain_step(*self, evs@, p, i as int, prev, simple_expansion(*self, e));
                    }
                },
                ScriptEvent::KeyDown(k) => {
                    out.push(Method::Event(Action::KeyPress(*k)));
                    proof {
                        assert(out@ =~= prev + simple_expansion(*self, e));
                        lemma_chain_step(*self, evs@, p, i as int, prev, simple_expansion(*self, e));
                    }
                },
                ScriptEvent::Key(k) => {
                    out.push(Method::Event(Action::KeyPress(*k)));
                    out.push(Method::Event(Action::KeyRelease(*k)));
                    proof {
                        assert(out@ =~= prev + simple_expansion(*self, e));
                        lemma_chain_step(*self, evs@, p, i as int, prev, simple_expansion(*self, e));
                    }
                },
                ScriptEvent::Keys(ks) => {
                    let mut j: usize = 0;
                    while j < ks.len()
                        invariant
                            j <= ks.len(),
                            out@ == prev + Seq::new(
                                j as nat,
                                |x: int| Method::Event(Action::KeyPress(ks@[x])),
                            ),
                        decreases ks.len() - j,
                    {
                        out.push(Method::Event(Action::KeyPress(ks[j])));
                        proof {
                            assert(out@ =~= prev + Seq::new(
                                (j + 1) as nat,
                                |x: int| Method::Event(Action::KeyPress(ks@[x])),
                            ));
                        }
                        j += 1;
                    }
                    let ghost presses = out@;
                    j = 0;
                    while j < ks.len()
                        invariant
                            j <= ks.len(),
                            out@ == presses + Seq::new(
                                j as nat,
                                |x: int| Method::Event(Action::KeyRelease(ks@[x])),
                            ),
                        decreases ks.len() - j,
                    {
                        out.push(Method::Event(Action::KeyRelease(ks[j])));
                        proof {
                            assert(out@ =~= presses + Seq::new(
                                (j + 1) as nat,
                                |x: int| Method::Event(Action::KeyRelease(ks@[x])),
                            ));
                        }
                        j += 1;
                    }
                    proof {
                        assert(out@ =~= prev + keys_expansion(ks@));
                        lemma_chain_step(*self, evs@, p, i as int, prev, keys_expansion(ks@));
                    }
                },
                ScriptEvent::Move(x, y) => {
                    out.push(Method::Event(self.mouse_move(*x, *y)));
                    proof {
                        assert(out@ =~= prev + simple_expansion(*self, e));
                        lemma_chain_step(*self, evs@, p, i as int, prev, simple_expansion(*self, e));
                    }
                },
                ScriptEvent::Scroll(dx, dy) => {
                    out.push(Method::Event(Action::Wheel { delta_x: *dx, delta_y: *dy }));
                    proof {
                        assert(out@ =~= prev + simple_expansion(*self, e));
                        lemma_chain_step(*self, evs@, p, i as int, prev, simple_expansion(*self, e));
                    }
                },
                ScriptEvent::Sleep(n) => {
                    out.push(Method::Custom(Custom::Sleep(*n)));
                    proof {
                        assert(out@ =~= prev + simple_expansion(*self, e));
                        lemma_chain_step(*self, evs@, p, i as int, prev, simple_expansion(*self, e));
                    }
                },
                ScriptEvent::Exit => {
                    out.push(Method::Custom(Custom::Exit));
                    proof {
                        assert(out@ =~= prev + simple_expansion(*self, e));
                        lemma_chain_step(*self, evs@, p, i as int, prev, simple_expansion(*self, e));
                    }
                },
                ScriptEvent::Block { repeat, sleep, block } => {
                    let sub: Vec<Method> = match block {
                        Block::Name(name) => match lookup_block(&self.blocks, name) {
                            None => {
                                proof {
                                    lemma_chain_err(
                                        *self,
                                        evs@,
                                        p,
                                        i as int,
                                        prev,
                                        SpecCompileError::Undefined(name@),
                                    );
                                }
                                return Err(CompileError::UndefinedBlock(name.clone()));
                            },
                            Some(body) => {
                                if path_contains(path, name) {
                                    proof {
                                        lemma_chain_err(
                                            *self,
                                            evs@,
                                            p,
                                            i as int,
                                            prev,
                                            SpecCompileError::Circular(name@),
                                        );
                                    }
                                    return Err(CompileError::CircularBlock(name.clone()));
                                }
                                path.push(name.clone());
                                proof {
                                    assert(path@.drop_last() =~= path0);
                                    assert(path_set(path@) == p.insert(name@));
                                    lemma_lookup_defined(self.blocks@, name@);
                                    lemma_free_names_decreases(self.blocks@, p, name@);
                                }
                                let r = self.expand_events(body, path);
                                let _ = path.pop();
                                proof {
                                    assert(path@ =~= path0);
                                }
                                match r {
                                    Err(e) => {
                                        proof {
                                            lemma_chain_err(*self, evs@, p, i as int, prev, e@);
                                        }
                                        return Err(e);
                                    },
                                    Ok(s) => s,
                                }
                            },
                        },
                        Block::Block(val) => {
                            proof {
                                lemma_events_size_elem(evs@, i as int);
                            }
                            match self.expand_events(val, path) {
                                Err(e) => {
                                    proof {
                                        lemma_chain_err(*self, evs@, p, i as int, prev, e@);
                                    }
                                    return Err(e);
                                },
                                Ok(s) => s,
                            }
                        },
                    };
                    let ghost sub_spec = sub@;
                    let mut k: usize = 0;
                    while k < *repeat
                        invariant
                            k <= *repeat,
                            out@ == prev + repeat_sep(sub_spec, *sleep, k as nat),
                            sub@ == sub_spec,
                        decreases *repeat - k,
                    {
                        if k > 0 {
                            out.push(Method::Custom(Custom::Sleep(*sleep)));
                        }
                        let ghost mid = out@;
                        let mut m: usize = 0;
                        while m < sub.len()
                            invariant
                                m <= sub.len(),
                                sub@ == sub_spec,
                                out@ == mid + sub_spec.take(m as int),
                            decreases sub.len() - m,
                        {
                            out.push(sub[m]);
                            proof {
                                assert(sub_spec.take(m + 1).drop_last() =~= sub_spec.take(m as int));
                                assert(out@ =~= mid + sub_spec.take(m + 1));
                            }
                            m += 1;
                        }
                        proof {
                            assert(sub_spec.take(sub_spec.len() as int) =~= sub_spec);
                            if k == 0 {
                                assert(out@ =~= prev + repeat_sep(sub_spec, *sleep, 1nat));
                            } else {
                                assert(out@ =~= prev + (repeat_sep(sub_spec, *sleep, k as nat)
                                    + seq![Method::Custom(Custom::Sleep(*sleep))] + sub_spec));
                                assert(out@ =~= prev + repeat_sep(sub_spec, *sleep, (k + 1) as nat));
                            }
                        }
                        k += 1;
                    }
                    proof {
                        lemma_chain_step(
                            *self,
                            evs@,
                            p,
                            i as int,
                            prev,
                            repeat_sep(sub_spec, *sleep, *repeat as nat),
                        );
                    }
                },
            }
            i += 1;
        }
        proof {
            assert(evs@.skip(evs@.len() as int) =~= Seq::<ScriptEvent>::empty());
            assert(out@ + Seq::<Method>::empty() =~= out@);
        }
        Ok(out)
    }

    /// Compiles a declared event list into a flat action program.
    ///
    /// The result is the full expansion of the list against this
    /// configuration's block table, with coordinate correction applied and
    /// every `Sleep(0)` pruned; or the first `CompileError` met, reading
    /// the list left to right and block bodies depth-first.
    pub fn transform(&self, methods: &Vec<ScriptEvent>) -> (r: Result<Vec<Method>, CompileError>)
        requires
            self.scaling.wf(),
        ensures
            match r {
                Ok(v) => spec_transform(*self, methods@) == Ok::<_, SpecCompileError>(v@),
                Err(e) => spec_transform(*self, methods@) == Err::<Seq<Method>, _>(e@),
            },
    {
        let mut path: Vec<String> = Vec::new();
        proof {
            assert(path_set(path@) =~= Set::<Seq<char>>::empty());
        }
        match self.expand_events(methods, &mut path) {
            Err(e) => Err(e),
            Ok(v) => Ok(prune_methods(v)),
        }
    }
}

/// Why loading a configuration failed. Load aborts entirely on the first
/// error; nothing is partially constructed.
#[derive(Debug, PartialEq)]
pub enum ConfigError {
    /// Two scripts declare the same title.
    DuplicateTitle(String),
    /// A script's event list does not compile.
    Compile(CompileError),
}

/// The mathematical shape of a `ConfigError`.
pub ghost enum SpecConfigError {
    DuplicateTitle(Seq<char>),
    Compile(SpecCompileError),
}

impl View for ConfigError {
    type V = SpecConfigError;

    open spec fn view(&self) -> SpecConfigError {
        match self {
            ConfigError::DuplicateTitle(t) => SpecConfigError::DuplicateTitle(t@),
            ConfigError::Compile(e) => SpecConfigError::Compile(e@),
        }
    }
}

/// The titles of the declared scripts, in order.
pub open spec fn script_titles(items: Seq<ScriptItem>) -> Seq<Seq<char>> {
    items.map_values(|it: ScriptItem| it.title@)
}

/// The first title that repeats an earlier one, if any: scanning left to
/// right, the first entry already seen.
pub open spec fn first_duplicate(titles: Seq<Seq<char>>) -> Option<Seq<char>>
    decreases titles.len(),
{
    if titles.len() == 0 {
        None
    } else if first_duplicate(titles.drop_last()) is Some {
        first_duplicate(titles.drop_last())
    } else if titles.drop_last().contains(titles.last()) {
        Some(titles.last())
    } else {
        None
    }
}

proof fn lemma_first_duplicate_extends(titles: Seq<Seq<char>>, k: int)
    requires
        0 <= k <= titles.len(),
        first_duplicate(titles.take(k)) is Some,
    ensures
        first_duplicate(titles) == first_duplicate(titles.take(k)),
    decreases titles.len(),
{
    if k == titles.len() {
        assert(titles.take(k) =~= titles);
    } else {
        assert(titles.drop_last() =~= titles.take(titles.len() - 1));
        assert(titles.take(titles.len() - 1).take(k) =~= titles.take(k));
        lemma_first_duplicate_extends(titles.take(titles.len() - 1), k);
    }
}

/// The members of a trigger list, first occurrences kept in order,
/// repetitions dropped.
pub open spec fn dedup_members(s: Seq<KeyOrButton>) -> Seq<KeyOrButton>
    decreases s.len(),
{
    if s.len() == 0 {
        Seq::empty()
    } else if s.drop_last().contains(s.last()) {
        dedup_members(s.drop_last())
    } else {
        dedup_members(s.drop_last()) + seq![s.last()]
    }
}

proof fn lemma_dedup_members_contains(s: Seq<KeyOrButton>, x: KeyOrButton)
    ensures
        dedup_members(s).contains(x) <==> s.contains(x),
    decreases s.len(),
{
    if s.len() != 0 {
        let dl = s.drop_last();
        let d = dedup_members(s);
        lemma_dedup_members_contains(dl, x);
        if dl.contains(x) {
            let j = choose|j: int| 0 <= j < dl.len() && dl[j] == x;
            assert(s[j] == x);
        }
        if s.contains(x) {
            let j = choose|j: int| 0 <= j < s.len() && s[j] == x;
            if j < s.len() - 1 {
                assert(dl[j] == x);
            } else {
                assert(s.last() == x);
            }
        }
        if !dl.contains(s.last()) {
            if dedup_members(dl).contains(x) {
                let j = choose|j: int| 0 <= j < dedup_members(dl).len() && dedup_members(dl)[j]
                    == x;
                assert(d[j] == x);
            }
            if d.contains(x) && x != s.last() {
                let j = choose|j: int| 0 <= j < d.len() && d[j] == x;
                assert(j < d.len() - 1);
                assert(dedup_members(dl)[j] == x);
            }
            if x == s.last() {
                assert(d[d.len() - 1] == x);
                assert(s[s.len() - 1] == x);
            }
        }
    }
}

/// The chord members of a trigger state, in order.
pub open spec fn trigger_members(tr: Seq<(KeyOrButton, bool)>) -> Seq<KeyOrButton> {
    tr.map_values(|t: (KeyOrButton, bool)| t.0)
}

/// True when `m` is among the members of `r`.
fn members_contain(r: &Vec<(KeyOrButton, bool)>, m: KeyOrButton) -> (b: bool)
    ensures
        b == trigger_members(r@).contains(m),
{
    let mut i: usize = 0;
    while i < r.len()
        invariant
            i <= r@.len(),
            forall|j: int| 0 <= j < i ==> (#[trigger] r@[j]).0 != m,
        decreases r@.len() - i,
    {
        if r[i].0 == m {
            assert(trigger_members(r@)[i as int] == m);
            return true;
        }
        i += 1;
    }
    proof {
        if trigger_members(r@).contains(m) {
            let j = choose|j: int|
                0 <= j < trigger_members(r@).len() && trigger_members(r@)[j] == m;
            assert(r@[j].0 == m);
        }
    }
    false
}

/// The initial trigger state for a declared chord: every distinct member
/// once, first occurrences in order, no member held.
fn dedup_trigger(members: &Vec<KeyOrButton>) -> (r: Vec<(KeyOrButton, bool)>)
    ensures
        trigger_members(r@) == dedup_members(members@),
        forall|j: int| 0 <= j < r@.len() ==> !(#[trigger] r@[j]).1,
{
    let mut r: Vec<(KeyOrButton, bool)> = Vec::new();
    proof {
        assert(trigger_members(r@) =~= dedup_members(members@.take(0)));
    }
    let mut i: usize = 0;
    while i < members.len()
        invariant
            i <= members@.len(),
            trigger_members(r@) == dedup_members(members@.take(i as int)),
            forall|j: int| 0 <= j < r@.len() ==> !(#[trigger] r@[j]).1,
        decreases members@.len() - i,
    {
        let m = members[i];
        let ghost prefix = members@.take(i as int);
        proof {
            assert(members@.take(i + 1).drop_last() =~= prefix);
            assert(members@.take(i + 1).last() == m);
            lemma_dedup_members_contains(prefix, m);
        }
        if !members_contain(&r, m) {
            r.push((m, false));
            proof {
                assert(trigger_members(r@) =~= dedup_members(prefix) + seq![m]);
            }
        }
        i += 1;
    }
    proof {
        assert(members@.take(members@.len() as int) =~= members@);
    }
    r
}

/// How one loaded script relates to its declaration: same title and
/// iteration count, the per-script delay override or the global default,
/// the compiled program of its event list, the chord deduplicated with
/// nothing held, and no playback task running.
pub open spec fn script_built(cfg: Config, item: ScriptItem, s: Script) -> bool {
    &&& s.title@ == item.title@
    &&& s.repeat == item.repeat
    &&& s.delay == (match item.delay {
        Some(d) => d,
        None => cfg.delay,
    })
    &&& s.running == false
    &&& spec_transform(cfg, item.methods@) == Ok::<Seq<Method>, SpecCompileError>(s.methods@)
    &&& trigger_members(s.trigger@) == dedup_members(item.trigger@)
    &&& forall|j: int| 0 <= j < s.trigger@.len() ==> !(#[trigger] s.trigger@[j]).1
}

/// Script `i` is the first whose event list fails to compile, and `ce`
/// is its error.
pub open spec fn first_compile_error(
    cfg: Config,
    items: Seq<ScriptItem>,
    i: int,
    ce: SpecCompileError,
) -> bool {
    &&& 0 <= i < items.len()
    &&& spec_transform(cfg, items[i].methods@) == Err::<Seq<Method>, _>(ce)
    &&& forall|j: int| 0 <= j < i ==> (#[trigger] spec_transform(cfg, items[j].methods@)) is Ok
}

impl Config {
    /// Builds the runtime script list from this configuration.
    ///
    /// Titles must be unique — the first repeated title is the error —
    /// and every script's event list must compile; the first script that
    /// fails to compile, in declaration order, is the error. Nothing is
    /// partially constructed on failure.
    pub fn load(self) -> (r: Result<ScriptList, ConfigError>)
        requires
            self.scaling.wf(),
        ensures
            match r {
                Ok(list) => {
                    &&& first_duplicate(script_titles(self.scripts@)) is None
                    &&& list.0@.len() == self.scripts@.len()
                    &&& forall|i: int|
                        0 <= i < self.scripts@.len() ==> script_built(
                            self,
                            self.scripts@[i],
                            #[trigger] list.0@[i],
                        )
                },
                Err(e) => match e@ {
                    SpecConfigError::DuplicateTitle(t) => first_duplicate(
                        script_titles(self.scripts@),
                    ) == Some(t),
                    SpecConfigError::Compile(ce) => {
                        &&& first_duplicate(script_titles(self.scripts@)) is None
                        &&& exists|i: int| #[trigger] first_compile_error(self, self.scripts@, i, ce)
                    },
                },
            },
    {
        let ghost titles = script_titles(self.scripts@);
        let n = self.scripts.len();
        let mut j: usize = 0;
        while j < n
            invariant
                n == self.scripts@.len(),
                titles == script_titles(self.scripts@),
                j <= n,
                first_duplicate(titles.take(j as int)) is None,
            decreases n - j,
        {
            let mut t: usize = 0;
            while t < j
                invariant
                    n == self.scripts@.len(),
                    titles == script_titles(self.scripts@),
                    j < n,
                    t <= j,
                    forall|u: int| 0 <= u < t ==> titles[u] != titles[j as int],
                    first_duplicate(titles.take(j as int)) is None,
                decreases j - t,
            {
                proof {
                    assert(titles[t as int] == self.scripts@[t as int].title@);
                    assert(titles[j as int] == self.scripts@[j as int].title@);
                }
                if self.scripts[t].title == self.scripts[j].title {
                    proof {
                        assert(titles.take(j + 1).drop_last() =~= titles.take(j as int));
                        assert(titles.take(j + 1).last() == titles[j as int]);
                        assert(titles.take(j as int)[t as int] == titles[j as int]);
                        assert(titles.take(j as int).contains(titles[j as int]));
                        lemma_first_duplicate_extends(titles, j + 1);
                    }
                    return Err(ConfigError::DuplicateTitle(self.scripts[j].title.clone()));
                }
                t += 1;
            }
            proof {
                assert(titles.take(j + 1).drop_last() =~= titles.take(j as int));
                assert(titles.take(j + 1).last() == titles[j as int]);
                assert(!titles.take(j as int).contains(titles[j as int])) by {
                    if titles.take(j as int).contains(titles[j as int]) {
                        let u = choose|u: int|
                            0 <= u < j && titles.take(j as int)[u] == titles[j as int];
                        assert(titles[u] == titles[j as int]);
                    }
                }
            }
            j += 1;
        }
        proof {
            assert(titles.take(n as int) =~= titles);
        }
        let mut list: Vec<Script> = Vec::new();
        let mut i: usize = 0;
        while i < n
            invariant
                n == self.scripts@.len(),
                titles == script_titles(self.scripts@),
                self.scaling.wf(),
                first_duplicate(titles) is None,
                i <= n,
                list@.len() == i,
                forall|t: int|
                    0 <= t < i ==> script_built(self, self.scripts@[t], #[trigger] list@[t]),
            decreases n - i,
        {
            let methods = match self.transform(&self.scripts[i].methods) {
                Ok(v) => v,
                Err(e) => {
                    proof {
                        assert forall|t: int|
                            0 <= t < i implies (#[trigger] spec_transform(
                            self,
                            self.scripts@[t].methods@,
                        )) is Ok by {
                            assert(script_built(self, self.scripts@[t], list@[t]));
                        }
                        assert(first_compile_error(self, self.scripts@, i as int, e@));
                    }
                    return Err(ConfigError::Compile(e));
                },
            };
            let trigger = dedup_trigger(&self.scripts[i].trigger);
            let delay = match self.scripts[i].delay {
                Some(d) => d,
                None => self.delay,
            };
            let script = Script {
                title: self.scripts[i].title.clone(),
                delay,
                repeat: self.scripts[i].repeat,
                methods,
                trigger,
                running: false,
            };
            list.push(script);
            i += 1;
        }
        Ok(ScriptList(list))
    }
}

/// Removes every `Sleep(0)` entry (dead-delay elimination).
fn prune_methods(v: Vec<Method>) -> (r: Vec<Method>)
    ensures
        r@ == prune_sleep0(v@),
{
    let mut out: Vec<Method> = Vec::new();
    let mut i: usize = 0;
    while i < v.len()
        invariant
            i <= v.len(),
            out@ == prune_sleep0(v@.take(i as int)),
        decreases v.len() - i,
    {
        proof {
            assert(v@.take(i + 1).drop_last() =~= v@.take(i as int));
            assert(v@.take(i + 1).last() == v@[i as int]);
        }
        match v[i] {
            Method::Custom(Custom::Sleep(0u64)) => {},
            m => {
                out.push(m);
                proof {
                    assert(out@ =~= prune_sleep0(v@.take(i as int)) + seq![v@[i as int]]);
                }
            },
        }
        i += 1;
    }
    proof {
        assert(v@.take(v@.len() as int) =~= v@);
    }
    out
}

/// Pruning changes nothing in a program without `Sleep(0)` entries.
pub proof fn lemma_prune_no_sleep0(s: Seq<Method>)
    requires
        forall|i: int| 0 <= i < s.len() ==> s[i] != Method::Custom(Custom::Sleep(0u64)),
    ensures
        prune_sleep0(s) == s,
    decreases s.len(),
{
    if s.len() != 0 {
        assert(forall|i: int| 0 <= i < s.drop_last().len() ==> s.drop_last()[i] == s[i]);
        lemma_prune_no_sleep0(s.drop_last());
        assert(prune_sleep0(s) =~= s);
    }
}

/// Compiling `Keys([k1 .. kn])` presses every key in declared order and
/// then releases them all in the same order: all presses stand before
/// any release, never interleaved.
pub proof fn lemma_keys_never_interleaved(cfg: Config, ks: Vec<u32>)
    ensures
        spec_transform(cfg, seq![ScriptEvent::Keys(ks)]) == Ok::<_, SpecCompileError>(
            Seq::new(ks@.len(), |i: int| Method::Event(Action::KeyPress(ks@[i]))) + Seq::new(
                ks@.len(),
                |i: int| Method::Event(Action::KeyRelease(ks@[i])),
            ),
        ),
{
    let evs = seq![ScriptEvent::Keys(ks)];
    let p = Set::<Seq<char>>::empty();
    let expansion = keys_expansion(ks@);
    assert(evs.drop_first() =~= Seq::<ScriptEvent>::empty());
    reveal_with_fuel(spec_expand_events, 2);
    assert(spec_expand_events(cfg, evs, p) == Ok::<_, SpecCompileError>(
        expansion + Seq::empty(),
    ));
    assert(expansion + Seq::empty() =~= expansion);
    assert forall|i: int|
        0 <= i < expansion.len() implies expansion[i] != Method::Custom(
        Custom::Sleep(0u64),
    ) by {
        if i < ks@.len() {
            assert(expansion[i] == Method::Event(Action::KeyPress(ks@[i])));
        } else {
            assert(expansion[i] == Method::Event(Action::KeyRelease(ks@[i - ks@.len()])));
        }
    }
    lemma_prune_no_sleep0(expansion);
}

/// Expanding a block with repeat 3 yields its compiled body three times
/// with one separating sleep between consecutive copies and none after
/// the last: `S, Sleep(sl), S, Sleep(sl), S`. (The surrounding
/// compilation then prunes any `Sleep(0)`, the separators included.)
pub proof fn lemma_block_repeat_three(
    cfg: Config,
    sleep: u64,
    name: String,
    body: Seq<ScriptEvent>,
    sub: Seq<Method>,
    path: Set<Seq<char>>,
)
    requires
        spec_lookup(cfg.blocks@, name@) == Some(body),
        !path.contains(name@),
        spec_expand_events(cfg, body, path.insert(name@)) == Ok::<_, SpecCompileError>(sub),
    ensures
        spec_expand_event(
            cfg,
            ScriptEvent::Block { repeat: 3usize, sleep, block: Block::Name(name) },
            path,
        ) == Ok::<_, SpecCompileError>(
            sub + seq![Method::Custom(Custom::Sleep(sleep))] + sub + seq![
                Method::Custom(Custom::Sleep(sleep)),
            ] + sub,
        ),
{
    reveal_with_fuel(repeat_sep, 4);
    assert(repeat_sep(sub, sleep, 3nat) == repeat_sep(sub, sleep, 2nat) + seq![
        Method::Custom(Custom::Sleep(sleep)),
    ] + sub);
}

/// A list with one failing event fails as a whole.
proof fn lemma_expand_events_err(cfg: Config, evs: Seq<ScriptEvent>, path: Set<Seq<char>>, i: int)
    requires
        0 <= i < evs.len(),
        spec_expand_event(cfg, evs[i], path) is Err,
    ensures
        spec_expand_events(cfg, evs, path) is Err,
    decreases evs.len(),
{
    if i > 0 && !(spec_expand_event(cfg, evs[0], path) is Err) {
        lemma_expand_events_err(cfg, evs.drop_first(), path, i - 1);
        assert(evs.drop_first()[i - 1] == evs[i]);
    }
}

/// A list whose every event expands fails nowhere.
proof fn lemma_expand_events_all_ok(cfg: Config, evs: Seq<ScriptEvent>, path: Set<Seq<char>>)
    requires
        forall|i: int| 0 <= i < evs.len() ==> (#[trigger] spec_expand_event(cfg, evs[i], path)) is Ok,
    ensures
        spec_expand_events(cfg, evs, path) is Ok,
    decreases evs.len(),
{
    if evs.len() != 0 {
        assert(spec_expand_event(cfg, evs[0], path) is Ok);
        assert forall|i: int|
            0 <= i < evs.drop_first().len() implies (#[trigger] spec_expand_event(
            cfg,
            evs.drop_first()[i],
            path,
        )) is Ok by {
            assert(evs.drop_first()[i] == evs[i + 1]);
        }
        lemma_expand_events_all_ok(cfg, evs.drop_first(), path);
    }
}

/// No event of the list is a block.
pub open spec fn block_free(evs: Seq<ScriptEvent>) -> bool {
    forall|i: int| 0 <= i < evs.len() ==> !((#[trigger] evs[i]) matches ScriptEvent::Block { .. })
}

/// A block-free list always expands.
proof fn lemma_block_free_expands(cfg: Config, evs: Seq<ScriptEvent>, path: Set<Seq<char>>)
    requires
        block_free(evs),
    ensures
        spec_expand_events(cfg, evs, path) is Ok,
{
    assert forall|i: int|
        0 <= i < evs.len() implies (#[trigger] spec_expand_event(cfg, evs[i], path)) is Ok by {
        assert(!(evs[i] matches ScriptEvent::Block { .. }));
    }
    lemma_expand_events_all_ok(cfg, evs, path);
}

/// A block whose own top-level body references the block's name fails to
/// compile, whatever else the body holds: the reference is found on the
/// expansion path and reported as circular.
pub proof fn lemma_direct_self_reference_fails(
    cfg: Config,
    repeat: usize,
    sleep: u64,
    name: String,
    body: Seq<ScriptEvent>,
    i: int,
)
    requires
        spec_lookup(cfg.blocks@, name@) == Some(body),
        0 <= i < body.len(),
        body[i] matches ScriptEvent::Block { block: Block::Name(n), .. } && n@ == name@,
    ensures
        spec_expand_event(
            cfg,
            ScriptEvent::Block { repeat, sleep, block: Block::Name(name) },
            Set::empty(),
        ) is Err,
{
    let inner = Set::<Seq<char>>::empty().insert(name@);
    assert(spec_expand_event(cfg, body[i], inner) is Err);
    lemma_expand_events_err(cfg, body, inner, i);
}

/// Every element of `body` is either no block at all, or a reference to
/// a named block other than `avoid` whose body is block-free (terminal).
pub open spec fn one_hop_body(cfg: Config, body: Seq<ScriptEvent>, avoid: Seq<char>) -> bool {
    forall|i: int|
        0 <= i < body.len() ==> match #[trigger] body[i] {
            ScriptEvent::Block { block, .. } => match block {
                Block::Name(n) => {
                    &&& n@ != avoid
                    &&& spec_lookup(cfg.blocks@, n@) is Some
                    &&& block_free(spec_lookup(cfg.blocks@, n@)->Some_0)
                },
                Block::Block(_) => false,
            },
            _ => true,
        }
}

/// A two-level reference compiles: a block whose body references only
/// other, terminal blocks — `A` referencing `B`, `B` block-free — always
/// expands, while the direct self-reference above always fails.
pub proof fn lemma_two_level_reference_compiles(
    cfg: Config,
    repeat: usize,
    sleep: u64,
    name: String,
    body: Seq<ScriptEvent>,
)
    requires
        spec_lookup(cfg.blocks@, name@) == Some(body),
        one_hop_body(cfg, body, name@),
    ensures
        spec_expand_event(
            cfg,
            ScriptEvent::Block { repeat, sleep, block: Block::Name(name) },
            Set::empty(),
        ) is Ok,
{
    let inner = Set::<Seq<char>>::empty().insert(name@);
    assert forall|i: int|
        0 <= i < body.len() implies (#[trigger] spec_expand_event(cfg, body[i], inner)) is Ok by {
        match body[i] {
            ScriptEvent::Block { block, .. } => match block {
                Block::Name(n) => {
                    assert(!inner.contains(n@));
                    lemma_block_free_expands(
                        cfg,
                        spec_lookup(cfg.blocks@, n@)->Some_0,
                        inner.insert(n@),
                    );
                },
                Block::Block(_) => {},
            },
            _ => {},
        }
    }
    lemma_expand_events_all_ok(cfg, body, inner);
}

} // verus!
