use vstd::prelude::*;
use crate::geometry::{Pixel, VisualType, MAX_EXTENT};
use crate::cursor::{Motion, moved, on_canvas, wrapping_displace};
use crate::keys::{parse_from, parse_keys, spells, split_words, words};

verus! {

/// Editing mode.
#[derive(Clone, Copy, Debug, PartialEq, Eq, Structural)]
pub enum Mode {
    Normal,
    Insertion,
    Visual,
    Command,
}

/// A key press, reduced to what the engine tells apart.
#[derive(Clone, Copy, Debug, PartialEq, Eq, Structural)]
pub enum Key {
    /// A printable character, Shift already applied.
    Char(char),
    /// A character with Control held.
    Ctrl(char),
    /// A character with Alt held.
    Alt(char),
    Esc,
    Enter,
    Left,
    Right,
    Up,
    Down,
}

/// Named actions bound in Normal and Visual mode.
#[derive(Clone, Copy, Debug, PartialEq, Eq, Structural)]
pub enum Verb {
    /// `s`: fill the traversed pixels; needs an object.
    Fill,
    /// `_`: does nothing with the traversed pixels; needs an object.
    Nothing,
    /// `+` and `-`.
    ZoomIn,
    ZoomOut,
    /// `:`.
    EnterCommand,
    /// `i`.
    EnterInsert,
    /// `v` and `V`.
    EnterVisual(VisualType),
    /// `H`, `J`, `K`, `L`: move the view.
    Pan(Motion),
    /// Escape: drop the selection, back to Normal.
    Escape,
}

/// Failure reported on the status line.
#[derive(Clone, Copy, Debug, PartialEq, Eq, Structural)]
pub enum EngineError {
    UnknownCommand,
    RemapCycle,
    /// A known command given the wrong arguments.
    BadArguments,
}

/// What the host must do to its own state after a key.
#[derive(Debug)]
pub enum Effect {
    Nil,
    /// Paint these pixels white.
    Fill(Vec<Pixel>),
    /// A key typed in Insertion mode, to be applied to these pixels.
    Edit(char, Vec<Pixel>),
    /// Zoom the view in (`true`) or out.
    Zoom(bool),
    /// Move the view by one unit.
    Pan(Motion),
}

impl Verb {
    /// Whether `create_ui` registers the verb to wait for an object's
    /// traversed pixels.
    pub open spec fn needs_positions(self) -> bool {
        self == Verb::Fill || self == Verb::Nothing
    }
}

/// The verb bound to a key in Normal and Visual mode.
pub open spec fn verb_spec(k: Key) -> Option<Verb> {
    match k {
        Key::Esc => Some(Verb::Escape),
        Key::Char(c) => if c == 's' {
            Some(Verb::Fill)
        } else if c == '_' {
            Some(Verb::Nothing)
        } else if c == '+' {
            Some(Verb::ZoomIn)
        } else if c == '-' {
            Some(Verb::ZoomOut)
        } else if c == ':' {
            Some(Verb::EnterCommand)
        } else if c == 'i' {
            Some(Verb::EnterInsert)
        } else if c == 'v' {
            Some(Verb::EnterVisual(VisualType::Square))
        } else if c == 'V' {
            Some(Verb::EnterVisual(VisualType::Circle))
        } else if c == 'H' {
            Some(Verb::Pan(Motion::Left))
        } else if c == 'J' {
            Some(Verb::Pan(Motion::Down))
        } else if c == 'K' {
            Some(Verb::Pan(Motion::Up))
        } else if c == 'L' {
            Some(Verb::Pan(Motion::Right))
        } else {
            None
        },
        _ => None,
    }
}

/// The object (cursor motion) bound to a key.
pub open spec fn object_spec(k: Key) -> Option<Motion> {
    match k {
        Key::Char(c) => if c == 'h' {
            Some(Motion::Left)
        } else if c == 'j' {
            Some(Motion::Down)
        } else if c == 'k' {
            Some(Motion::Up)
        } else if c == 'l' {
            Some(Motion::Right)
        } else if c == '.' {
            Some(Motion::Stay)
        } else {
            None
        },
        _ => None,
    }
}

/// Top-left and bottom-right corners of the rectangle spanned by two pixels.
pub open spec fn corners(p: Pixel, q: Pixel) -> (Pixel, Pixel) {
    (
        (if p.0 <= q.0 { p.0 } else { q.0 }, if p.1 <= q.1 { p.1 } else { q.1 }),
        (if p.0 <= q.0 { q.0 } else { p.0 }, if p.1 <= q.1 { q.1 } else { p.1 }),
    )
}

/// Whether two character lists are equal.
fn same_chars(a: &Vec<char>, b: &Vec<char>) -> (r: bool)
    ensures
        r == (a@ == b@),
{
    if a.len() != b.len() {
        return false;
    }
    let mut i: usize = 0;
    while i < a.len()
        invariant
            a@.len() == b@.len(),
            i <= a@.len(),
            forall|j: int| 0 <= j < i ==> a@[j] == b@[j],
        decreases a@.len() - i,
    {
        if a[i] != b[i] {
            return false;
        }
        i = i + 1;
    }
    assert(a@ =~= b@);
    true
}

/// `n` keeps everything of `o` but the registries.
pub open spec fn retained(o: Editor, n: Editor) -> bool {
    &&& n.wf() == o.wf()
    &&& n.mode == o.mode
    &&& n.cursor == o.cursor
    &&& n.width == o.width
    &&& n.height == o.height
    &&& n.anchor == o.anchor
    &&& n.policy == o.policy
    &&& n.pending == o.pending
    &&& n.buffer@ == o.buffer@
    &&& n.selection@ == o.selection@
    &&& n.closed == o.closed
    &&& n.error == o.error
    &&& n.bindings@ == o.bindings@
    &&& n.typed@ == o.typed@
}

/// Whether two key lists are equal.
fn same_keys(a: &Vec<Key>, b: &Vec<Key>) -> (r: bool)
    ensures
        r == (a@ == b@),
{
    if a.len() != b.len() {
        return false;
    }
    let mut i: usize = 0;
    while i < a.len()
        invariant
            a@.len() == b@.len(),
            i <= a@.len(),
            forall|j: int| 0 <= j < i ==> a@[j] == b@[j],
        decreases a@.len() - i,
    {
        if a[i] != b[i] {
            return false;
        }
        i = i + 1;
    }
    assert(a@ =~= b@);
    true
}

/// Whether `p` is a proper beginning of `t`.
fn begins(t: &Vec<Key>, p: &Vec<Key>) -> (r: bool)
    ensures
        r == (p@.len() < t@.len() && t@.subrange(0, p@.len() as int) == p@),
{
    if p.len() >= t.len() {
        return false;
    }
    let mut i: usize = 0;
    while i < p.len()
        invariant
            p@.len() < t@.len(),
            i <= p@.len(),
            forall|j: int| 0 <= j < i ==> t@[j] == p@[j],
        decreases p@.len() - i,
    {
        if t[i] != p[i] {
            assert(t@.subrange(0, p@.len() as int)[i as int] != p@[i as int]);
            return false;
        }
        i = i + 1;
    }
    assert(t@.subrange(0, p@.len() as int) =~= p@);
    true
}

/// An element-wise copy of a key list.
fn copy_keys(v: &Vec<Key>) -> (r: Vec<Key>)
    ensures
        r@ == v@,
{
    let mut r: Vec<Key> = Vec::new();
    let mut i: usize = 0;
    while i < v.len()
        invariant
            i <= v@.len(),
            r@ == v@.subrange(0, i as int),
        decreases v@.len() - i,
    {
        r.push(v[i]);
        i = i + 1;
        assert(r@ =~= v@.subrange(0, i as int));
    }
    assert(r@ =~= v@);
    r
}

/// An element-wise copy of a pixel list.
fn copy_pixels(v: &Vec<Pixel>) -> (r: Vec<Pixel>)
    ensures
        r@ == v@,
{
    let mut r: Vec<Pixel> = Vec::new();
    let mut i: usize = 0;
    while i < v.len()
        invariant
            i <= v@.len(),
            r@ == v@.subrange(0, i as int),
        decreases v@.len() - i,
    {
        r.push(v[i]);
        i = i + 1;
        assert(r@ =~= v@.subrange(0, i as int));
    }
    assert(r@ =~= v@);
    r
}

/// What a command line can ask for.
#[derive(Clone, Copy, Debug, PartialEq, Eq, Structural)]
pub enum Command {
    /// Close the editor.
    Quit,
    /// `imap <trigger> <expansion>`: add an Insertion-mode remap.
    Imap,
}

/// A registered verb: `key` runs `verb`, which first waits for an object's
/// traversed pixels when `positions` is set.
pub struct VerbEntry {
    pub key: Key,
    pub positions: bool,
    pub verb: Verb,
}

/// A registered object: `key` moves the cursor by `motion`.
pub struct ObjectEntry {
    pub key: Key,
    pub motion: Motion,
}

/// A registered command: the command-line word `name` runs `command`.
pub struct CommandEntry {
    pub name: Vec<char>,
    pub command: Command,
}

/// The verb registered last under `k`, with its `positions` flag.
pub open spec fn verb_at(vs: Seq<VerbEntry>, k: Key) -> Option<(bool, Verb)>
    decreases vs.len(),
{
    if vs.len() == 0 {
        None
    } else if vs.last().key == k {
        Some((vs.last().positions, vs.last().verb))
    } else {
        verb_at(vs.drop_last(), k)
    }
}

/// The object registered last under `k`.
pub open spec fn object_at(os: Seq<ObjectEntry>, k: Key) -> Option<Motion>
    decreases os.len(),
{
    if os.len() == 0 {
        None
    } else if os.last().key == k {
        Some(os.last().motion)
    } else {
        object_at(os.drop_last(), k)
    }
}

/// The command registered last under `name`.
pub open spec fn command_at(cs: Seq<CommandEntry>, name: Seq<char>) -> Option<Command>
    decreases cs.len(),
{
    if cs.len() == 0 {
        None
    } else if cs.last().name@ == name {
        Some(cs.last().command)
    } else {
        command_at(cs.drop_last(), name)
    }
}

/// The verbs `create_ui` registers, with their `positions` flags.
pub open spec fn builtin_verb(k: Key) -> Option<(bool, Verb)> {
    match verb_spec(k) {
        Some(v) => Some((v.needs_positions(), v)),
        None => None,
    }
}

/// The commands `create_ui` registers: `q` and `quit`, and `imap`.
pub open spec fn builtin_command(name: Seq<char>) -> Option<Command> {
    if name == seq!['q'] || name == seq!['q', 'u', 'i', 't'] {
        Some(Command::Quit)
    } else if name == seq!['i', 'm', 'a', 'p'] {
        Some(Command::Imap)
    } else {
        None
    }
}

/// Whether `name` is a registered quit command.
pub open spec fn is_quit(cs: Seq<CommandEntry>, name: Seq<char>) -> bool {
    command_at(cs, name) == Some(Command::Quit)
}

/// Deepest chain of remaps followed from one key.
pub const MAX_REMAP_DEPTH: u32 = 32;

/// Most keys processed for one key fed in, remaps included.
pub const MAX_EXPANDED_KEYS: usize = 1024;

/// A remap: in `mode`, the keys of `trigger`, typed in a row, stand for
/// the keys of `expansion`.
pub struct Binding {
    pub mode: Mode,
    pub trigger: Vec<Key>,
    pub expansion: Vec<Key>,
}

/// The expansion bound to `k` in `mode`; the binding registered last wins.
pub open spec fn lookup(bs: Seq<Binding>, mode: Mode, k: Seq<Key>) -> Option<Seq<Key>>
    decreases bs.len(),
{
    if bs.len() == 0 {
        None
    } else {
        let b = bs.last();
        if b.mode == mode && b.trigger@ == k {
            Some(b.expansion@)
        } else {
            lookup(bs.drop_last(), mode, k)
        }
    }
}

/// `p` is a proper beginning of some trigger bound in `mode`: more keys may
/// still complete it.
pub open spec fn awaits(bs: Seq<Binding>, mode: Mode, p: Seq<Key>) -> bool {
    exists|i: int|
        0 <= i < bs.len() && bs[i].mode == mode && p.len() < bs[i].trigger@.len()
            && #[trigger] bs[i].trigger@.subrange(0, p.len() as int) == p
}

/// Whether `name` is a registered remap command.
pub open spec fn is_imap(cs: Seq<CommandEntry>, name: Seq<char>) -> bool {
    command_at(cs, name) == Some(Command::Imap)
}

/// The remap that `imap <trigger> <expansion>` asks for: the trigger must be
/// at least one key, and both must be well-formed key text.
pub open spec fn imap_args(cs: Seq<CommandEntry>, ws: Seq<Seq<char>>) -> Option<(Seq<Key>, Seq<Key>)> {
    if ws.len() == 3 && is_imap(cs, ws[0]) {
        match (parse_from(ws[1], 0), parse_from(ws[2], 0)) {
            (Ok(t), Ok(e)) => if t.len() >= 1 {
                Some((t, e))
            } else {
                None
            },
            _ => None,
        }
    } else {
        None
    }
}

/// The error a command line leaves on the status line.
pub open spec fn command_error(
    cs: Seq<CommandEntry>,
    ws: Seq<Seq<char>>,
    prior: Option<EngineError>,
) -> Option<
    EngineError,
> {
    if ws.len() == 0 {
        prior
    } else if is_quit(cs, ws[0]) {
        None
    } else if is_imap(cs, ws[0]) {
        if imap_args(cs, ws).is_some() {
            None
        } else {
            Some(EngineError::BadArguments)
        }
    } else {
        Some(EngineError::UnknownCommand)
    }
}

/// Whether the mode reads keys as verbs and objects.
pub open spec fn grammar_mode(m: Mode) -> bool {
    m == Mode::Normal || m == Mode::Visual
}

/// Mode after a verb that needs no positions.
pub open spec fn verb_mode(o: Editor, v: Verb) -> Mode {
    match v {
        Verb::EnterCommand => Mode::Command,
        Verb::EnterInsert => Mode::Insertion,
        Verb::EnterVisual(_) => Mode::Visual,
        Verb::Escape => Mode::Normal,
        _ => o.mode,
    }
}

/// Region policy after a verb that needs no positions.
pub open spec fn verb_policy(o: Editor, v: Verb) -> VisualType {
    match v {
        Verb::EnterVisual(p) => p,
        _ => o.policy,
    }
}

/// Visual anchor after a verb that needs no positions.
pub open spec fn verb_anchor(o: Editor, v: Verb) -> Option<Pixel> {
    match v {
        Verb::EnterVisual(_) => Some(o.cursor),
        Verb::EnterCommand | Verb::EnterInsert | Verb::Escape => None,
        _ => o.anchor,
    }
}

/// The selection after a verb that needs no positions: Escape empties it;
/// entering Insertion from Visual makes it the region of the visual
/// rectangle, each pixel once; otherwise it is kept.
pub open spec fn verb_selection(o: Editor, v: Verb, n: Editor) -> bool {
    if v == Verb::Escape {
        n.selection@.len() == 0
    } else if v == Verb::EnterInsert && o.mode == Mode::Visual {
        let (a, b) = corners(o.anchor->Some_0, o.cursor);
        (forall|q: Pixel| #[trigger] n.selection@.contains(q) <==> o.policy.covers(a, b, q))
            && n.selection@.no_duplicates()
    } else {
        n.selection@ == o.selection@
    }
}

/// The effect of a verb that needs no positions.
pub open spec fn verb_effect(v: Verb, e: Effect) -> bool {
    match v {
        Verb::ZoomIn => e == Effect::Zoom(true),
        Verb::ZoomOut => e == Effect::Zoom(false),
        Verb::Pan(m) => e == Effect::Pan(m),
        _ => e == Effect::Nil,
    }
}

/// The bindings `nb` after a command line of words `ws`, from `ob`: the
/// remap that `imap` asks for is added, and nothing else changes.
pub open spec fn imap_post(
    cs: Seq<CommandEntry>,
    ob: Seq<Binding>,
    nb: Seq<Binding>,
    ws: Seq<Seq<char>>,
) -> bool {
    match imap_args(cs, ws) {
        Some(b) => lookup(nb, Mode::Insertion, b.0) == Some(b.1) && forall|m: Mode, t: Seq<Key>|
            !(m == Mode::Insertion && t == b.0) ==> #[trigger] lookup(nb, m, t) == lookup(ob, m, t),
        None => nb == ob,
    }
}

/// Everything one key does to the engine `o`, giving `n` and the effect
/// `e`, with no remap applied.
pub open spec fn step_post(o: Editor, k: Key, n: Editor, e: Effect) -> bool {
    &&& n.wf()
    &&& n.width == o.width
    &&& n.height == o.height
    &&& n.typed@ == o.typed@
    &&& n.verbs@ == o.verbs@
    &&& n.objects@ == o.objects@
    &&& n.commands@ == o.commands@
    &&& match o.mode {
        Mode::Command => {
            &&& n.cursor == o.cursor
            &&& n.policy == o.policy
            &&& n.pending == o.pending
            &&& n.selection@ == o.selection@
            &&& e == Effect::Nil
            &&& match k {
                Key::Char(c) => n.mode == Mode::Command && n.anchor == o.anchor && n.buffer@
                    == o.buffer@.push(c) && n.closed == o.closed && n.error == o.error
                    && n.bindings@ == o.bindings@,
                Key::Esc => n.mode == Mode::Normal && n.anchor.is_none() && n.buffer@.len() == 0
                    && n.closed == o.closed && n.error == o.error && n.bindings@ == o.bindings@,
                Key::Enter => {
                    let ws = words(o.buffer@);
                    &&& n.mode == Mode::Normal
                    &&& n.anchor.is_none()
                    &&& n.buffer@.len() == 0
                    &&& n.closed == (o.closed || (ws.len() > 0 && is_quit(o.commands@, ws[0])))
                    &&& n.error == command_error(o.commands@, ws, o.error)
                    &&& imap_post(o.commands@, o.bindings@, n.bindings@, ws)
                },
                _ => n.mode == Mode::Command && n.anchor == o.anchor && n.buffer@ == o.buffer@
                    && n.closed == o.closed && n.error == o.error && n.bindings@ == o.bindings@,
            }
        },
        Mode::Insertion => {
            &&& n.cursor == o.cursor
            &&& n.policy == o.policy
            &&& n.pending == o.pending
            &&& n.anchor.is_none()
            &&& n.buffer@ == o.buffer@
            &&& n.closed == o.closed
            &&& n.error == o.error
            &&& n.bindings@ == o.bindings@
            &&& match k {
                Key::Esc => n.mode == Mode::Normal && n.selection@.len() == 0 && e == Effect::Nil,
                Key::Char(c) => n.mode == Mode::Insertion && n.selection@ == o.selection@ && (
                e is Edit && e->Edit_0 == c && e->Edit_1@ == (if o.selection@.len() == 0 {
                    seq![o.cursor]
                } else {
                    o.selection@
                })),
                _ => n.mode == Mode::Insertion && n.selection@ == o.selection@ && e == Effect::Nil,
            }
        },
        _ => {
            &&& n.buffer@ == o.buffer@
            &&& n.closed == o.closed
            &&& n.error == o.error
            &&& n.bindings@ == o.bindings@
            &&& match verb_at(o.verbs@, k) {
                Some((pos, v)) => if pos {
                    &&& n.pending == Some(v)
                    &&& n.mode == o.mode
                    &&& n.cursor == o.cursor
                    &&& n.policy == o.policy
                    &&& n.anchor == o.anchor
                    &&& n.selection@ == o.selection@
                    &&& e == Effect::Nil
                } else {
                    &&& n.pending.is_none()
                    &&& n.cursor == o.cursor
                    &&& n.mode == verb_mode(o, v)
                    &&& n.policy == verb_policy(o, v)
                    &&& n.anchor == verb_anchor(o, v)
                    &&& verb_selection(o, v, n)
                    &&& verb_effect(v, e)
                },
                None => {
                    &&& n.pending.is_none()
                    &&& n.mode == o.mode
                    &&& n.policy == o.policy
                    &&& n.anchor == o.anchor
                    &&& n.selection@ == o.selection@
                    &&& match object_at(o.objects@, k) {
                        Some(m) => {
                            &&& n.cursor == moved(o.cursor, m, o.width, o.height)
                            &&& if o.pending == Some(Verb::Fill) {
                                e is Fill && e->Fill_0@ == seq![o.cursor, n.cursor]
                            } else {
                                e == Effect::Nil
                            }
                        },
                        None => n.cursor == o.cursor && e == Effect::Nil,
                    }
                },
            }
        },
    }
}

/// An expansion `exp` as it is stacked for later keys: last key at the
/// bottom, so that the first is taken first.
pub open spec fn pushed(exp: Seq<Key>, depth: u32) -> Seq<(Key, u32)> {
    Seq::new(exp.len(), |i: int| (exp[exp.len() - 1 - i], depth))
}

/// `n` is `s` with a remap cycle reported, and nothing else changed.
pub open spec fn cycle_post(s: Editor, n: Editor) -> bool {
    &&& n.mode == s.mode
    &&& n.cursor == s.cursor
    &&& n.width == s.width
    &&& n.height == s.height
    &&& n.anchor == s.anchor
    &&& n.policy == s.policy
    &&& n.pending == s.pending
    &&& n.buffer@ == s.buffer@
    &&& n.selection@ == s.selection@
    &&& n.closed == s.closed
    &&& n.error == Some(EngineError::RemapCycle)
    &&& n.bindings@ == s.bindings@
    &&& n.typed@ == s.typed@
    &&& n.verbs@ == s.verbs@
    &&& n.objects@ == s.objects@
    &&& n.commands@ == s.commands@
}

/// Working through the stack `work` of keys (each with the depth of remaps
/// it came from; the top is last) with `budget` keys left takes the engine
/// from `s` to `f`, through the states `tr` after each stepped key, and
/// yields the effects `es`. A key bound in the mode of its turn is replaced
/// by its expansion, one deeper, at the cost of its length plus one; past
/// `MAX_REMAP_DEPTH`, or when the budget would run out, `RemapCycle` is
/// reported and the rest dropped. Any other key is stepped.
pub open spec fn expands(
    s: Editor,
    work: Seq<(Key, u32)>,
    budget: nat,
    f: Editor,
    es: Seq<Effect>,
    tr: Seq<Editor>,
) -> bool
    decreases budget, work.len(),
{
    if work.len() == 0 {
        f == s && es.len() == 0 && tr.len() == 0
    } else {
        let (t, d) = work.last();
        let rest = work.drop_last();
        match lookup(s.bindings@, s.mode, seq![t]) {
            Some(exp) => if d >= MAX_REMAP_DEPTH || budget <= exp.len() {
                cycle_post(s, f) && es.len() == 0 && tr.len() == 0
            } else {
                expands(
                    s,
                    rest + pushed(exp, (d + 1) as u32),
                    (budget - exp.len() - 1) as nat,
                    f,
                    es,
                    tr,
                )
            },
            None => es.len() > 0 && tr.len() > 0 && step_post(s, t, tr[0], es[0]) && expands(
                tr[0],
                rest,
                budget,
                f,
                es.drop_first(),
                tr.drop_first(),
            ),
        }
    }
}

/// `n` is `o` with `typed` holding `t`, and nothing else changed.
pub open spec fn retyped(o: Editor, n: Editor, t: Seq<Key>) -> bool {
    &&& n.mode == o.mode
    &&& n.cursor == o.cursor
    &&& n.width == o.width
    &&& n.height == o.height
    &&& n.anchor == o.anchor
    &&& n.policy == o.policy
    &&& n.pending == o.pending
    &&& n.buffer@ == o.buffer@
    &&& n.selection@ == o.selection@
    &&& n.closed == o.closed
    &&& n.error == o.error
    &&& n.bindings@ == o.bindings@
    &&& n.typed@ == t
    &&& n.verbs@ == o.verbs@
    &&& n.objects@ == o.objects@
    &&& n.commands@ == o.commands@
}

/// Feeding `k` to `o` gives `f` and the effects `es`. The typed keys with
/// `k` after them are looked up as a trigger: if bound, the typed keys are
/// cleared (state `s0`) and the expansion is worked through, one level deep,
/// at the cost of its length plus one (an expansion that does not fit the
/// budget reports `RemapCycle`); if they begin a longer trigger, they are
/// kept waiting and nothing else happens; otherwise they are cleared and
/// worked through one by one. `tr` holds the states after each stepped key.
pub open spec fn feed_post(
    o: Editor,
    k: Key,
    f: Editor,
    es: Seq<Effect>,
    s0: Editor,
    tr: Seq<Editor>,
) -> bool {
    let t = o.typed@.push(k);
    match lookup(o.bindings@, o.mode, t) {
        Some(exp) => retyped(o, s0, Seq::empty()) && if MAX_EXPANDED_KEYS <= exp.len() {
            cycle_post(s0, f) && es.len() == 0
        } else {
            expands(s0, pushed(exp, 1), (MAX_EXPANDED_KEYS - exp.len() - 1) as nat, f, es, tr)
        },
        None => if awaits(o.bindings@, o.mode, t) {
            retyped(o, f, t) && es.len() == 0
        } else {
            retyped(o, s0, Seq::empty()) && expands(s0, pushed(t, 0), MAX_EXPANDED_KEYS as nat, f, es, tr)
        },
    }
}

/// Pushes `keys` onto the work stack, last first, so that the first key is
/// taken first.
fn push_reversed(work: &mut Vec<(Key, u32)>, keys: &Vec<Key>, depth: u32)
    ensures
        final(work)@ == old(work)@ + pushed(keys@, depth),
{
    let ghost rest = work@;
    let mut j: usize = keys.len();
    assert(keys@.subrange(j as int, keys@.len() as int) =~= Seq::<Key>::empty());
    assert(work@ =~= rest + pushed(Seq::<Key>::empty(), depth));
    while j > 0
        invariant
            j <= keys@.len(),
            work@ == rest + pushed(keys@.subrange(j as int, keys@.len() as int), depth),
        decreases j,
    {
        work.push((keys[j - 1], depth));
        proof {
            let tail = keys@.subrange(j as int, keys@.len() as int);
            let tail2 = keys@.subrange(j - 1, keys@.len() as int);
            assert(tail2 =~= seq![keys@[j - 1]] + tail);
            assert(pushed(tail2, depth) =~= pushed(tail, depth).push((keys@[j - 1], depth)));
            assert(work@ =~= rest + pushed(tail2, depth));
        }
        j = j - 1;
    }
    assert(keys@.subrange(0, keys@.len() as int) =~= keys@);
}

/// Feeding `keys` in order takes the engine from `s` to `f` and yields the
/// effects `es`: key `i` ends in state `mids[i]`, through the states
/// `s0s[i]` and `trs[i]` of `feed_post`, and yields the `cuts[i]` effects that follow those of the keys
/// before it.
pub open spec fn feeds(
    s: Editor,
    keys: Seq<Key>,
    f: Editor,
    es: Seq<Effect>,
    cuts: Seq<int>,
    mids: Seq<Editor>,
    s0s: Seq<Editor>,
    trs: Seq<Seq<Editor>>,
) -> bool
    decreases keys.len(),
{
    if keys.len() == 0 {
        f == s && es.len() == 0
    } else {
        &&& cuts.len() > 0 && mids.len() > 0 && s0s.len() > 0 && trs.len() > 0
        &&& 0 <= cuts[0] <= es.len()
        &&& feed_post(s, keys[0], mids[0], es.subrange(0, cuts[0]), s0s[0], trs[0])
        &&& feeds(
            mids[0],
            keys.drop_first(),
            f,
            es.subrange(cuts[0], es.len() as int),
            cuts.drop_first(),
            mids.drop_first(),
            s0s.drop_first(),
            trs.drop_first(),
        )
    }
}

/// The modal dispatcher: mode, cursor, visual anchor, pending verb and the
/// command line.
pub struct Editor {
    pub mode: Mode,
    pub cursor: Pixel,
    pub width: usize,
    pub height: usize,
    pub anchor: Option<Pixel>,
    pub policy: VisualType,
    pub pending: Option<Verb>,
    pub buffer: Vec<char>,
    pub selection: Vec<Pixel>,
    pub closed: bool,
    pub error: Option<EngineError>,
    pub bindings: Vec<Binding>,
    /// Keys typed so far that begin a multi-key trigger.
    pub typed: Vec<Key>,
    /// Registered verbs, objects and commands; the last registration of a
    /// key or name wins.
    pub verbs: Vec<VerbEntry>,
    pub objects: Vec<ObjectEntry>,
    pub commands: Vec<CommandEntry>,
}

impl Editor {
    /// Invariant of the engine state. The canvas is at most `MAX_EXTENT`
    /// wide and high, so any visual rectangle on it fits the ring test.
    pub open spec fn wf(&self) -> bool {
        &&& 0 < self.width <= MAX_EXTENT
        &&& 0 < self.height <= MAX_EXTENT
        &&& on_canvas(self.cursor, self.width, self.height)
        &&& (self.mode == Mode::Visual <==> self.anchor.is_some())
        &&& (self.anchor matches Some(a) ==> on_canvas(a, self.width, self.height))
        &&& (self.pending.is_some() ==> (self.mode == Mode::Normal || self.mode == Mode::Visual))
        &&& (self.mode != Mode::Command ==> self.buffer@.len() == 0)
    }

    /// A fresh engine for a `width` by `height` canvas: Normal mode, cursor
    /// at the origin, nothing selected or pending.
    pub fn new(width: usize, height: usize) -> (r: Editor)
        requires
            0 < width <= MAX_EXTENT,
            0 < height <= MAX_EXTENT,
        ensures
            r.wf(),
            r.mode == Mode::Normal,
            r.cursor == (0usize, 0usize),
            r.width == width,
            r.height == height,
            r.anchor.is_none(),
            r.pending.is_none(),
            r.policy == VisualType::Square,
            r.buffer@.len() == 0,
            r.selection@.len() == 0,
            !r.closed,
            r.error.is_none(),
            r.bindings@.len() == 0,
            r.typed@.len() == 0,
            r.verbs@.len() == 0,
            r.objects@.len() == 0,
            r.commands@.len() == 0,
    {
        Editor {
            mode: Mode::Normal,
            cursor: (0, 0),
            width,
            height,
            anchor: None,
            policy: VisualType::Square,
            pending: None,
            buffer: Vec::new(),
            selection: Vec::new(),
            closed: false,
            error: None,
            bindings: Vec::new(),
            typed: Vec::new(),
            verbs: Vec::new(),
            objects: Vec::new(),
            commands: Vec::new(),
        }
    }

    /// A close request, from a command or from the window: the next
    /// `input` reports `false`.
    pub fn close(&mut self)
        requires
            old(self).wf(),
        ensures
            final(self).closed,
            final(self).verbs@ == old(self).verbs@,
            final(self).objects@ == old(self).objects@,
            final(self).commands@ == old(self).commands@,
            final(self).wf(),
            final(self).mode == old(self).mode,
            final(self).cursor == old(self).cursor,
            final(self).anchor == old(self).anchor,
            final(self).policy == old(self).policy,
            final(self).pending == old(self).pending,
            final(self).buffer@ == old(self).buffer@,
            final(self).selection@ == old(self).selection@,
            final(self).error == old(self).error,
            final(self).bindings@ == old(self).bindings@,
            final(self).typed@ == old(self).typed@,
    {
        self.closed = true;
    }

    /// The current mode.
    pub fn get_mode(&self) -> (r: Mode)
        ensures
            r == self.mode,
    {
        self.mode
    }

    /// The current cursor.
    pub fn get_cursor(&self) -> (r: Pixel)
        ensures
            r == self.cursor,
    {
        self.cursor
    }

    /// Switches mode; entering Visual anchors the selection at the cursor,
    /// leaving it drops the anchor. A mode without verbs drops the pending
    /// verb, and any mode but Command clears the command line.
    pub fn set_mode(&mut self, mode: Mode)
        requires
            old(self).wf(),
        ensures
            final(self).wf(),
            final(self).mode == mode,
            final(self).anchor == (if mode == Mode::Visual {
                Some(old(self).cursor)
            } else {
                None::<Pixel>
            }),
            final(self).cursor == old(self).cursor,
            final(self).width == old(self).width,
            final(self).height == old(self).height,
            final(self).policy == old(self).policy,
            final(self).pending == (if grammar_mode(mode) {
                old(self).pending
            } else {
                None::<Verb>
            }),
            final(self).buffer@ == (if mode == Mode::Command {
                old(self).buffer@
            } else {
                Seq::<char>::empty()
            }),
            final(self).selection@ == old(self).selection@,
            final(self).closed == old(self).closed,
            final(self).error == old(self).error,
            final(self).bindings@ == old(self).bindings@,
            final(self).typed@ == old(self).typed@,
            final(self).verbs@ == old(self).verbs@,
            final(self).objects@ == old(self).objects@,
            final(self).commands@ == old(self).commands@,
    {
        if !(mode == Mode::Normal || mode == Mode::Visual) {
            self.pending = None;
        }
        if mode != Mode::Command && self.buffer.len() > 0 {
            self.buffer = Vec::new();
        }
        self.anchor = if mode == Mode::Visual { Some(self.cursor) } else { None };
        self.mode = mode;
    }

    /// The normalised corners of the visual rectangle (anchor to cursor).
    pub fn get_selection(&self) -> (r: (Pixel, Pixel))
        requires
            self.wf(),
            self.mode == Mode::Visual,
        ensures
            r == corners(self.anchor->Some_0, self.cursor),
            r.0.0 <= r.1.0, r.1.0 - r.0.0 <= MAX_EXTENT,
            r.0.1 <= r.1.1, r.1.1 - r.0.1 <= MAX_EXTENT,
    {
        let a = match self.anchor {
            Some(a) => a,
            None => self.cursor,
        };
        let c = self.cursor;
        (
            (if a.0 <= c.0 { a.0 } else { c.0 }, if a.1 <= c.1 { a.1 } else { c.1 }),
            (if a.0 <= c.0 { c.0 } else { a.0 }, if a.1 <= c.1 { c.1 } else { a.1 }),
        )
    }
    /// The pixels the host highlights: the visual region while in Visual
    /// mode, otherwise the selection, or the cursor alone when nothing is
    /// selected.
    pub fn highlighted(&self) -> (r: Vec<Pixel>)
        requires
            self.wf(),
        ensures
            self.mode == Mode::Visual ==> (forall|q: Pixel|
                #[trigger] r@.contains(q) <==> self.policy.covers(
                    corners(self.anchor->Some_0, self.cursor).0,
                    corners(self.anchor->Some_0, self.cursor).1,
                    q,
                )),
            self.mode != Mode::Visual ==> r@ == (if self.selection@.len() == 0 {
                seq![self.cursor]
            } else {
                self.selection@
            }),
    {
        if self.mode == Mode::Visual {
            let (a, b) = self.get_selection();
            self.policy.selection(a, b)
        } else if self.selection.len() == 0 {
            let r = vec![self.cursor];
            assert(r@ =~= seq![self.cursor]);
            r
        } else {
            copy_pixels(&self.selection)
        }
    }

    /// Processes one key (after remapping) and returns what the host must
    /// do to its own state.
    pub fn step(&mut self, k: Key) -> (e: Effect)
        requires
            old(self).wf(),
        ensures
            step_post(*old(self), k, *final(self), e),
    {
        match self.mode {
            Mode::Command => self.step_command(k),
            Mode::Insertion => self.step_insert(k),
            _ => self.step_grammar(k),
        }
    }

    fn step_command(&mut self, k: Key) -> (e: Effect)
        requires
            old(self).wf(),
            old(self).mode == Mode::Command,
        ensures
            step_post(*old(self), k, *final(self), e),
    {
        match k {
            Key::Char(c) => {
                self.buffer.push(c);
            },
            Key::Esc => {
                self.buffer = Vec::new();
                self.set_mode(Mode::Normal);
            },
            Key::Enter => {
                self.run_command();
                self.buffer = Vec::new();
                self.set_mode(Mode::Normal);
            },
            _ => {},
        }
        Effect::Nil
    }

    fn step_insert(&mut self, k: Key) -> (e: Effect)
        requires
            old(self).wf(),
            old(self).mode == Mode::Insertion,
        ensures
            step_post(*old(self), k, *final(self), e),
    {
        let ghost o = *self;
        match k {
            Key::Esc => {
                self.selection = Vec::new();
                self.set_mode(Mode::Normal);
                assert(self.buffer@ =~= o.buffer@);
                Effect::Nil
            },
            Key::Char(c) => {
                let ps = if self.selection.len() == 0 {
                    vec![self.cursor]
                } else {
                    copy_pixels(&self.selection)
                };
                let e = Effect::Edit(c, ps);
                assert(e->Edit_1@ == (if o.selection@.len() == 0 {
                    seq![o.cursor]
                } else {
                    o.selection@
                }));
                e
            },
            _ => Effect::Nil,
        }
    }

    fn step_grammar(&mut self, k: Key) -> (e: Effect)
        requires
            old(self).wf(),
            grammar_mode(old(self).mode),
        ensures
            step_post(*old(self), k, *final(self), e),
    {
        match self.find_verb(k) {
            Some((pos, v)) => {
                if pos {
                    self.pending = Some(v);
                    Effect::Nil
                } else {
                    self.pending = None;
                    self.run_verb(v)
                }
            },
            None => {
                let pending = self.pending;
                self.pending = None;
                match self.find_object(k) {
                    Some(m) => {
                        let start = self.cursor;
                        self.cursor = wrapping_displace(start, m, self.width, self.height);
                        match pending {
                            Some(Verb::Fill) => Effect::Fill(vec![start, self.cursor]),
                            _ => Effect::Nil,
                        }
                    },
                    None => Effect::Nil,
                }
            },
        }
    }


    /// Runs a verb that needs no positions, in Normal or Visual mode.
    fn run_verb(&mut self, v: Verb) -> (e: Effect)
        requires
            old(self).wf(),
            old(self).mode == Mode::Normal || old(self).mode == Mode::Visual,
            old(self).pending.is_none(),
        ensures
            final(self).wf(),
            final(self).width == old(self).width,
            final(self).height == old(self).height,
            final(self).cursor == old(self).cursor,
            final(self).closed == old(self).closed,
            final(self).error == old(self).error,
            final(self).pending.is_none(),
            final(self).buffer@ == old(self).buffer@,
            final(self).bindings@ == old(self).bindings@,
            final(self).typed@ == old(self).typed@,
            final(self).verbs@ == old(self).verbs@,
            final(self).objects@ == old(self).objects@,
            final(self).commands@ == old(self).commands@,
            final(self).mode == verb_mode(*old(self), v),
            final(self).policy == verb_policy(*old(self), v),
            final(self).anchor == verb_anchor(*old(self), v),
            verb_selection(*old(self), v, *final(self)),
            verb_effect(v, e),
    {
        match v {
            Verb::ZoomIn => Effect::Zoom(true),
            Verb::ZoomOut => Effect::Zoom(false),
            Verb::Pan(m) => Effect::Pan(m),
            Verb::EnterCommand => {
                self.set_mode(Mode::Command);
                Effect::Nil
            },
            Verb::EnterVisual(p) => {
                self.policy = p;
                self.set_mode(Mode::Visual);
                Effect::Nil
            },
            Verb::Escape => {
                self.selection = Vec::new();
                self.set_mode(Mode::Normal);
                Effect::Nil
            },
            Verb::Fill | Verb::Nothing => Effect::Nil,
            Verb::EnterInsert => {
                if self.mode == Mode::Visual {
                    let (a, b) = self.get_selection();
                    self.selection = self.policy.selection(a, b);
                }
                self.set_mode(Mode::Insertion);
                Effect::Nil
            },
        }
    }

    /// Runs the command line: `q` or `quit` closes the editor, `imap
    /// <trigger> <expansion>` adds an Insertion-mode remap; anything else is
    /// reported. An empty line does nothing.
    fn run_command(&mut self)
        requires
            old(self).wf(),
            old(self).mode == Mode::Command,
        ensures
            final(self).wf(),
            final(self).mode == Mode::Command,
            final(self).policy == old(self).policy,
            final(self).buffer@ == old(self).buffer@,
            final(self).cursor == old(self).cursor,
            final(self).anchor == old(self).anchor,
            final(self).pending == old(self).pending,
            final(self).selection@ == old(self).selection@,
            final(self).width == old(self).width,
            final(self).height == old(self).height,
            final(self).closed == (old(self).closed || (words(old(self).buffer@).len() > 0
                && is_quit(old(self).commands@, words(old(self).buffer@)[0]))),
            final(self).error == command_error(old(self).commands@, words(old(self).buffer@), old(self).error),
            imap_post(old(self).commands@, old(self).bindings@, final(self).bindings@, words(old(self).buffer@)),
            final(self).typed@ == old(self).typed@,
            final(self).verbs@ == old(self).verbs@,
            final(self).objects@ == old(self).objects@,
            final(self).commands@ == old(self).commands@,
    {
        let ws = split_words(&self.buffer);
        let ghost w = words(self.buffer@);
        if ws.len() == 0 {
            return;
        }
        let name = &ws[0];
        assert(name@ == w[0]);
        match self.find_command(name) {
            Some(Command::Quit) => {
                self.closed = true;
                self.error = None;
            },
            Some(Command::Imap) => {
                if ws.len() != 3 {
                    self.error = Some(EngineError::BadArguments);
                    return;
                }
                assert(ws@[1]@ == w[1] && ws@[2]@ == w[2]);
                match (parse_keys(&ws[1]), parse_keys(&ws[2])) {
                    (Ok(t), Ok(e)) => {
                        if t.len() == 0 {
                            self.error = Some(EngineError::BadArguments);
                        } else {
                            self.error = None;
                            self.bind_key(t, Mode::Insertion, e);
                        }
                    },
                    _ => {
                        self.error = Some(EngineError::BadArguments);
                    },
                }
            },
            None => {
                self.error = Some(EngineError::UnknownCommand);
            },
        }
    }

    /// The verb registered last under `k`, with its `positions` flag.
    fn find_verb(&self, k: Key) -> (r: Option<(bool, Verb)>)
        ensures
            r == verb_at(self.verbs@, k),
    {
        let mut i: usize = self.verbs.len();
        assert(self.verbs@.subrange(0, i as int) =~= self.verbs@);
        while i > 0
            invariant
                i <= self.verbs@.len(),
                verb_at(self.verbs@, k) == verb_at(self.verbs@.subrange(0, i as int), k),
            decreases i,
        {
            let ghost pre = self.verbs@.subrange(0, i as int);
            assert(pre.drop_last() =~= self.verbs@.subrange(0, i - 1));
            let v = &self.verbs[i - 1];
            if v.key == k {
                return Some((v.positions, v.verb));
            }
            i = i - 1;
        }
        None
    }

    /// The object registered last under `k`.
    fn find_object(&self, k: Key) -> (r: Option<Motion>)
        ensures
            r == object_at(self.objects@, k),
    {
        let mut i: usize = self.objects.len();
        assert(self.objects@.subrange(0, i as int) =~= self.objects@);
        while i > 0
            invariant
                i <= self.objects@.len(),
                object_at(self.objects@, k) == object_at(self.objects@.subrange(0, i as int), k),
            decreases i,
        {
            let ghost pre = self.objects@.subrange(0, i as int);
            assert(pre.drop_last() =~= self.objects@.subrange(0, i - 1));
            let o = &self.objects[i - 1];
            if o.key == k {
                return Some(o.motion);
            }
            i = i - 1;
        }
        None
    }

    /// The command registered last under `name`.
    fn find_command(&self, name: &Vec<char>) -> (r: Option<Command>)
        ensures
            r == command_at(self.commands@, name@),
    {
        let mut i: usize = self.commands.len();
        assert(self.commands@.subrange(0, i as int) =~= self.commands@);
        while i > 0
            invariant
                i <= self.commands@.len(),
                command_at(self.commands@, name@) == command_at(
                    self.commands@.subrange(0, i as int),
                    name@,
                ),
            decreases i,
        {
            let ghost pre = self.commands@.subrange(0, i as int);
            assert(pre.drop_last() =~= self.commands@.subrange(0, i - 1));
            let c = &self.commands[i - 1];
            if same_chars(&c.name, name) {
                return Some(c.command);
            }
            i = i - 1;
        }
        None
    }

    /// Registers `verb` under `key`, replacing any earlier verb of that key.
    /// With `positions` set, the verb waits for an object and receives the
    /// pixels it traversed.
    pub fn add_verb(&mut self, key: Key, positions: bool, verb: Verb)
        requires
            old(self).wf(),
        ensures
            forall|k: Key|
                #[trigger] verb_at(final(self).verbs@, k) == if k == key {
                    Some((positions, verb))
                } else {
                    verb_at(old(self).verbs@, k)
                },
            final(self).objects@ == old(self).objects@,
            final(self).commands@ == old(self).commands@,
            retained(*old(self), *final(self)),
    {
        let ghost before = self.verbs@;
        self.verbs.push(VerbEntry { key, positions, verb });
        assert(self.verbs@.drop_last() =~= before);
    }

    /// Registers `motion` as the object under `key`, replacing any earlier
    /// object of that key.
    pub fn add_object(&mut self, key: Key, motion: Motion)
        requires
            old(self).wf(),
        ensures
            forall|k: Key|
                #[trigger] object_at(final(self).objects@, k) == if k == key {
                    Some(motion)
                } else {
                    object_at(old(self).objects@, k)
                },
            final(self).verbs@ == old(self).verbs@,
            final(self).commands@ == old(self).commands@,
            retained(*old(self), *final(self)),
    {
        let ghost before = self.objects@;
        self.objects.push(ObjectEntry { key, motion });
        assert(self.objects@.drop_last() =~= before);
    }

    /// Registers `command` under the command-line word `name`, replacing any
    /// earlier command of that name.
    pub fn add_command(&mut self, name: Vec<char>, command: Command)
        requires
            old(self).wf(),
        ensures
            forall|n: Seq<char>|
                #[trigger] command_at(final(self).commands@, n) == if n == name@ {
                    Some(command)
                } else {
                    command_at(old(self).commands@, n)
                },
            final(self).verbs@ == old(self).verbs@,
            final(self).objects@ == old(self).objects@,
            retained(*old(self), *final(self)),
    {
        let ghost before = self.commands@;
        let ghost nm = name@;
        self.commands.push(CommandEntry { name, command });
        assert(self.commands@.drop_last() =~= before);
        assert(self.commands@.last().name@ == nm);
    }

    /// Registers a remap: in `mode`, `trigger` now stands for `expansion`,
    /// replacing any earlier remap of the same key in that mode.
    pub fn bind_key(&mut self, trigger: Vec<Key>, mode: Mode, expansion: Vec<Key>)
        requires
            old(self).wf(),
        ensures
            final(self).wf(),
            lookup(final(self).bindings@, mode, trigger@) == Some(expansion@),
            forall|m: Mode, t: Seq<Key>|
                !(m == mode && t == trigger@) ==> #[trigger] lookup(final(self).bindings@, m, t)
                    == lookup(old(self).bindings@, m, t),
            forall|m: Mode, p: Seq<Key>|
                #[trigger] awaits(final(self).bindings@, m, p) <==> (awaits(old(self).bindings@, m, p)
                    || (m == mode && p.len() < trigger@.len() && trigger@.subrange(0, p.len() as int)
                    == p)),
            final(self).typed@ == old(self).typed@,
            final(self).verbs@ == old(self).verbs@,
            final(self).objects@ == old(self).objects@,
            final(self).commands@ == old(self).commands@,
            final(self).mode == old(self).mode,
            final(self).cursor == old(self).cursor,
            final(self).closed == old(self).closed,
            final(self).error == old(self).error,
            final(self).policy == old(self).policy,
            final(self).buffer@ == old(self).buffer@,
            final(self).anchor == old(self).anchor,
            final(self).pending == old(self).pending,
            final(self).selection@ == old(self).selection@,
            final(self).width == old(self).width,
            final(self).height == old(self).height,
    {
        let ghost before = self.bindings@;
        let ghost tg = trigger@;
        self.bindings.push(Binding { mode, trigger, expansion });
        assert(self.bindings@.drop_last() =~= before);
        assert forall|m: Mode, p: Seq<Key>|
            #[trigger] awaits(self.bindings@, m, p) <==> (awaits(before, m, p) || (m == mode
                && p.len() < tg.len() && tg.subrange(0, p.len() as int) == p)) by {
            if awaits(before, m, p) {
                let i = choose|i: int|
                    0 <= i < before.len() && before[i].mode == m && p.len() < before[i].trigger@.len()
                        && #[trigger] before[i].trigger@.subrange(0, p.len() as int) == p;
                assert(self.bindings@[i] == before[i]);
            }
            if m == mode && p.len() < tg.len() && tg.subrange(0, p.len() as int) == p {
                assert(self.bindings@[before.len() as int].trigger@ == tg);
            }
            if awaits(self.bindings@, m, p) {
                let i = choose|i: int|
                    0 <= i < self.bindings@.len() && self.bindings@[i].mode == m && p.len()
                        < self.bindings@[i].trigger@.len() && #[trigger] self.bindings@[i].trigger@.subrange(
                        0,
                        p.len() as int,
                    ) == p;
                if i < before.len() {
                    assert(before[i] == self.bindings@[i]);
                }
            }
        }
    }

    /// The expansion bound to `k` in the current mode, if any.
    fn find_binding(&self, k: &Vec<Key>) -> (r: Option<&Vec<Key>>)
        ensures
            match r {
                Some(v) => lookup(self.bindings@, self.mode, k@) == Some(v@),
                None => lookup(self.bindings@, self.mode, k@).is_none(),
            },
    {
        let mut i: usize = self.bindings.len();
        assert(self.bindings@.subrange(0, i as int) =~= self.bindings@);
        while i > 0
            invariant
                i <= self.bindings@.len(),
                lookup(self.bindings@, self.mode, k@) == lookup(
                    self.bindings@.subrange(0, i as int),
                    self.mode,
                    k@,
                ),
            decreases i,
        {
            let b = &self.bindings[i - 1];
            let ghost pre = self.bindings@.subrange(0, i as int);
            assert(pre.drop_last() =~= self.bindings@.subrange(0, i - 1));
            if b.mode == self.mode && same_keys(&b.trigger, k) {
                return Some(&b.expansion);
            }
            i = i - 1;
        }
        None
    }

    /// Feeds one key. The keys typed so far, with `k` after them, are
    /// looked up as a trigger of the current mode: bound, they are replaced
    /// by the expansion; a proper beginning of some trigger, they wait in
    /// `typed` for more keys; otherwise they are taken one by one. Each key
    /// of an expansion is itself looked up again (as a one-key trigger, in
    /// the mode of its turn), and every resulting key is stepped in order,
    /// its effect appended to `effects`. A chain of remaps deeper than
    /// `MAX_REMAP_DEPTH`, or an expansion that would exceed the budget of
    /// `MAX_EXPANDED_KEYS`, stops there and reports `RemapCycle`; the keys
    /// still waiting are dropped.
    pub fn feed(&mut self, k: Key, effects: &mut Vec<Effect>)
        requires
            old(self).wf(),
        ensures
            final(self).wf(),
            final(effects)@.len() >= old(effects)@.len(),
            final(effects)@.subrange(0, old(effects)@.len() as int) == old(effects)@,
            exists|s0: Editor, tr: Seq<Editor>|
                #[trigger] feed_post(
                    *old(self),
                    k,
                    *final(self),
                    final(effects)@.subrange(old(effects)@.len() as int, final(effects)@.len() as int),
                    s0,
                    tr,
                ),
            old(self).typed@.len() == 0 && lookup(old(self).bindings@, old(self).mode, seq![k]).is_none()
                && !awaits(old(self).bindings@, old(self).mode, seq![k]) ==> final(effects)@.len()
                == old(effects)@.len() + 1 && step_post(
                *old(self),
                k,
                *final(self),
                final(effects)@.last(),
            ),
    {
        let ghost o = *self;
        let ghost start = effects@;
        let mut trig = copy_keys(&self.typed);
        trig.push(k);
        proof {
            if o.typed@.len() == 0 {
                assert(trig@ =~= seq![k]);
            }
        }
        let found: Option<Vec<Key>> = match self.find_binding(&trig) {
            Some(e) => Some(copy_keys(e)),
            None => None,
        };
        let mut work: Vec<(Key, u32)> = Vec::new();
        let mut budget: usize = MAX_EXPANDED_KEYS;
        match found {
            Some(exp) => {
                self.typed = Vec::new();
                if exp.len() >= MAX_EXPANDED_KEYS {
                    let ghost s0 = *self;
                    self.error = Some(EngineError::RemapCycle);
                    proof {
                        assert(effects@.subrange(start.len() as int, effects@.len() as int) =~= Seq::<Effect>::empty());
                        assert(feed_post(o, k, *self, Seq::empty(), s0, Seq::empty()));
                    }
                    return;
                }
                budget = MAX_EXPANDED_KEYS - exp.len() - 1;
                push_reversed(&mut work, &exp, 1);
                assert(work@ =~= pushed(exp@, 1));
            },
            None => {
                if self.awaiting(&trig) {
                    self.typed = trig;
                    proof {
                        assert(effects@.subrange(start.len() as int, effects@.len() as int) =~= Seq::<Effect>::empty());
                        assert(feed_post(o, k, *self, Seq::empty(), o, Seq::empty()));
                    }
                    return;
                }
                self.typed = Vec::new();
                push_reversed(&mut work, &trig, 0);
                assert(work@ =~= pushed(trig@, 0));
            },
        }
        let ghost s0 = *self;
        let ghost init = work@;
        let ghost b0 = budget;
        let ghost mut dtr: Seq<Editor> = Seq::empty();
        assert forall|f: Editor, es: Seq<Effect>, tr: Seq<Editor>|
            #[trigger] expands(*self, work@, budget as nat, f, es, tr) implies expands(
            s0,
            init,
            b0 as nat,
            f,
            effects@.subrange(start.len() as int, effects@.len() as int) + es,
            dtr + tr,
        ) by {
            assert(effects@.subrange(start.len() as int, effects@.len() as int) + es =~= es);
            assert(dtr + tr =~= tr);
        }
        while work.len() > 0
            invariant
                self.wf(),
                effects@.len() >= start.len(),
                effects@.subrange(0, start.len() as int) == start,
                forall|f: Editor, es: Seq<Effect>, tr: Seq<Editor>|
                    #[trigger] expands(*self, work@, budget as nat, f, es, tr) ==> expands(
                        s0,
                        init,
                        b0 as nat,
                        f,
                        effects@.subrange(start.len() as int, effects@.len() as int) + es,
                        dtr + tr,
                    ),
            decreases budget, work@.len(),
        {
            let ghost cur = *self;
            let ghost w0 = work@;
            let ghost done = effects@.subrange(start.len() as int, effects@.len() as int);
            let (t, depth) = work.pop().unwrap();
            assert(w0.last() == (t, depth) && work@ == w0.drop_last());
            let single = vec![t];
            assert(single@ =~= seq![t]);
            match self.find_binding(&single) {
                Some(exp) => {
                    if depth >= MAX_REMAP_DEPTH || budget <= exp.len() {
                        self.error = Some(EngineError::RemapCycle);
                        work = Vec::new();
                        proof {
                            assert forall|f: Editor, es: Seq<Effect>, tr: Seq<Editor>|
                                #[trigger] expands(*self, work@, budget as nat, f, es, tr) implies expands(
                                s0,
                                init,
                                b0 as nat,
                                f,
                                effects@.subrange(start.len() as int, effects@.len() as int) + es,
                                dtr + tr,
                            ) by {
                                assert(expands(cur, w0, budget as nat, f, es, tr));
                            }
                        }
                    } else {
                        let ghost bb = budget;
                        let ghost rest = work@;
                        budget = budget - exp.len() - 1;
                        push_reversed(&mut work, exp, depth + 1);
                        proof {
                            assert forall|f: Editor, es: Seq<Effect>, tr: Seq<Editor>|
                                #[trigger] expands(*self, work@, budget as nat, f, es, tr) implies expands(
                                s0,
                                init,
                                b0 as nat,
                                f,
                                effects@.subrange(start.len() as int, effects@.len() as int) + es,
                                dtr + tr,
                            ) by {
                                assert(expands(cur, w0, bb as nat, f, es, tr));
                            }
                        }
                    }
                },
                None => {
                    let e = self.step(t);
                    let ghost ge = e;
                    effects.push(e);
                    proof {
                        let dtr0 = dtr;
                        dtr = dtr.push(*self);
                        assert(effects@.subrange(0, start.len() as int) =~= start);
                        assert(effects@.subrange(start.len() as int, effects@.len() as int) =~= done.push(ge));
                        assert forall|f: Editor, es: Seq<Effect>, tr: Seq<Editor>|
                            #[trigger] expands(*self, work@, budget as nat, f, es, tr) implies expands(
                            s0,
                            init,
                            b0 as nat,
                            f,
                            effects@.subrange(start.len() as int, effects@.len() as int) + es,
                            dtr + tr,
                        ) by {
                            let es2 = seq![ge] + es;
                            let tr2 = seq![*self] + tr;
                            assert(es2.drop_first() =~= es);
                            assert(tr2.drop_first() =~= tr);
                            assert(w0.drop_last() == work@);
                            assert(lookup(cur.bindings@, cur.mode, seq![t]).is_none());
                            assert(expands(cur, w0, budget as nat, f, es2, tr2));
                            assert(done + es2 =~= done.push(ge) + es);
                            assert(dtr0 + tr2 =~= dtr + tr);
                        }
                    }
                },
            }
        }
        proof {
            assert(expands(*self, work@, budget as nat, *self, Seq::empty(), Seq::empty()));
            let ne = effects@.subrange(start.len() as int, effects@.len() as int);
            assert(ne + Seq::<Effect>::empty() =~= ne);
            assert(dtr + Seq::<Editor>::empty() =~= dtr);
            assert(expands(s0, init, b0 as nat, *self, ne, dtr));
            assert(feed_post(o, k, *self, ne, s0, dtr));
            if o.typed@.len() == 0 && lookup(o.bindings@, o.mode, seq![k]).is_none() && !awaits(o.bindings@, o.mode, seq![k]) {
                assert(o.typed@.push(k) =~= seq![k]);
                assert(init =~= seq![(k, 0u32)]);
                assert(init.drop_last() =~= Seq::<(Key, u32)>::empty());
                assert(lookup(s0.bindings@, s0.mode, seq![init.last().0]).is_none());
                assert(ne.len() > 0 && dtr.len() > 0);
                assert(step_post(s0, k, dtr[0], ne[0]));
                assert(expands(dtr[0], init.drop_last(), b0 as nat, *self, ne.drop_first(), dtr.drop_first()));
                assert(*self == dtr[0]);
                assert(ne.len() == 1);
                assert(ne[0] == effects@.last());
                assert(o.typed@ =~= s0.typed@);
            }
        }
    }

    /// Whether the keys `p` are a proper beginning of a trigger of the
    /// current mode.
    fn awaiting(&self, p: &Vec<Key>) -> (r: bool)
        ensures
            r == awaits(self.bindings@, self.mode, p@),
    {
        let mut i: usize = 0;
        while i < self.bindings.len()
            invariant
                i <= self.bindings@.len(),
                forall|j: int|
                    0 <= j < i ==> !(self.bindings@[j].mode == self.mode && p@.len()
                        < self.bindings@[j].trigger@.len() && #[trigger] self.bindings@[j].trigger@.subrange(
                        0,
                        p@.len() as int,
                    ) == p@),
            decreases self.bindings@.len() - i,
        {
            let b = &self.bindings[i];
            if b.mode == self.mode && begins(&b.trigger, p) {
                return true;
            }
            i = i + 1;
        }
        false
    }

    /// Binds `arrow` in Insertion mode to leave, move by `motion`, and
    /// insert again.
    fn bind_arrow(&mut self, arrow: Key, motion: char)
        requires
            old(self).wf(),
        ensures
            final(self).wf(),
            lookup(final(self).bindings@, Mode::Insertion, seq![arrow]) == Some(
                seq![Key::Esc, Key::Char(motion), Key::Char('i')],
            ),
            forall|m: Mode, p: Seq<Key>| #[trigger] awaits(final(self).bindings@, m, p) <==> awaits(old(self).bindings@, m, p) || (m == Mode::Insertion && p.len() == 0),
            final(self).typed@ == old(self).typed@,
            final(self).verbs@ == old(self).verbs@,
            final(self).objects@ == old(self).objects@,
            final(self).commands@ == old(self).commands@,
            forall|m: Mode, t: Seq<Key>|
                !(m == Mode::Insertion && t == seq![arrow]) ==> #[trigger] lookup(
                    final(self).bindings@,
                    m,
                    t,
                ) == lookup(old(self).bindings@, m, t),
            final(self).mode == old(self).mode,
            final(self).cursor == old(self).cursor,
            final(self).closed == old(self).closed,
            final(self).error == old(self).error,
            final(self).policy == old(self).policy,
            final(self).buffer@ == old(self).buffer@,
            final(self).anchor == old(self).anchor,
            final(self).pending == old(self).pending,
            final(self).selection@ == old(self).selection@,
            final(self).width == old(self).width,
            final(self).height == old(self).height,
    {
        let exp = vec![Key::Esc, Key::Char(motion), Key::Char('i')];
        let trigger = vec![arrow];
        assert(trigger@ =~= seq![arrow]);
        self.bind_key(trigger, Mode::Insertion, exp);
        assert forall|m: Mode, p: Seq<Key>| #[trigger] awaits(self.bindings@, m, p) <==> awaits(old(self).bindings@, m, p) || (m == Mode::Insertion && p.len() == 0) by {
            if p.len() == 0 {
                assert(seq![arrow].subrange(0, 0) =~= p);
            }
        }
    }

    /// Feeds a frame's keys in order. Reports `false`, without touching
    /// anything, once a command has closed the editor.
    pub fn input(&mut self, keys: &Vec<Key>, effects: &mut Vec<Effect>) -> (open: bool)
        requires
            old(self).wf(),
        ensures
            final(self).wf(),
            open == !old(self).closed,
            old(self).closed ==> *final(self) == *old(self) && final(effects)@ == old(effects)@,
            final(effects)@.len() >= old(effects)@.len(),
            final(effects)@.subrange(0, old(effects)@.len() as int) == old(effects)@,
            !old(self).closed ==> exists|cuts: Seq<int>, mids: Seq<Editor>, s0s: Seq<Editor>, trs: Seq<Seq<Editor>>|
                #[trigger] feeds(
                    *old(self),
                    keys@,
                    *final(self),
                    final(effects)@.subrange(old(effects)@.len() as int, final(effects)@.len() as int),
                    cuts,
                    mids,
                    s0s,
                    trs,
                ),
    {
        if self.closed {
            return false;
        }
        let ghost o = *self;
        let ghost start = effects@;
        let ghost mut dcuts: Seq<int> = Seq::empty();
        let ghost mut dmids: Seq<Editor> = Seq::empty();
        let ghost mut ds0s: Seq<Editor> = Seq::empty();
        let ghost mut dtrs: Seq<Seq<Editor>> = Seq::empty();
        let mut i: usize = 0;
        assert forall|f: Editor, es: Seq<Effect>, cuts: Seq<int>, mids: Seq<Editor>, s0s: Seq<Editor>, trs: Seq<Seq<Editor>>|
            #[trigger] feeds(*self, keys@.subrange(i as int, keys@.len() as int), f, es, cuts, mids, s0s, trs)
            implies feeds(
            o,
            keys@,
            f,
            effects@.subrange(start.len() as int, effects@.len() as int) + es,
            dcuts + cuts,
            dmids + mids,
            ds0s + s0s,
            dtrs + trs,
        ) by {
            assert(keys@.subrange(0, keys@.len() as int) =~= keys@);
            assert(effects@.subrange(start.len() as int, effects@.len() as int) + es =~= es);
            assert(dcuts + cuts =~= cuts);
            assert(dmids + mids =~= mids);
            assert(ds0s + s0s =~= s0s);
            assert(dtrs + trs =~= trs);
        }
        while i < keys.len()
            invariant
                self.wf(),
                i <= keys@.len(),
                effects@.len() >= start.len(),
                effects@.subrange(0, start.len() as int) == start,
                forall|f: Editor, es: Seq<Effect>, cuts: Seq<int>, mids: Seq<Editor>, s0s: Seq<Editor>, trs: Seq<Seq<Editor>>|
                    #[trigger] feeds(*self, keys@.subrange(i as int, keys@.len() as int), f, es, cuts, mids, s0s, trs)
                        ==> feeds(
                        o,
                        keys@,
                        f,
                        effects@.subrange(start.len() as int, effects@.len() as int) + es,
                        dcuts + cuts,
                        dmids + mids,
                        ds0s + s0s,
                        dtrs + trs,
                    ),
            decreases keys@.len() - i,
        {
            let ghost cur = *self;
            let ghost e0 = effects@;
            let ghost done = effects@.subrange(start.len() as int, effects@.len() as int);
            self.feed(keys[i], effects);
            proof {
                let e1 = effects@.subrange(e0.len() as int, effects@.len() as int);
                let (z0, tr) = choose|z0: Editor, tr: Seq<Editor>|
                    #[trigger] feed_post(cur, keys@[i as int], *self, e1, z0, tr);
                assert(effects@.subrange(0, start.len() as int) =~= start) by {
                    assert(effects@.subrange(0, e0.len() as int) == e0);
                    assert(effects@.subrange(0, start.len() as int) =~= e0.subrange(0, start.len() as int));
                }
                assert(effects@.subrange(start.len() as int, effects@.len() as int) =~= done + e1) by {
                    assert(effects@.subrange(0, e0.len() as int) == e0);
                }
                let ks = keys@.subrange(i as int, keys@.len() as int);
                let ks2 = keys@.subrange(i + 1, keys@.len() as int);
                assert(ks.drop_first() =~= ks2);
                assert(ks[0] == keys@[i as int]);
                let dc0 = dcuts;
                let dm0 = dmids;
                let dt0 = dtrs;
                let dz0 = ds0s;
                ds0s = ds0s.push(z0);
                let n = e1.len() as int;
                dcuts = dcuts.push(n);
                dmids = dmids.push(*self);
                dtrs = dtrs.push(tr);
                assert forall|f: Editor, es: Seq<Effect>, cuts: Seq<int>, mids: Seq<Editor>, s0s: Seq<Editor>, trs: Seq<Seq<Editor>>|
                    #[trigger] feeds(*self, ks2, f, es, cuts, mids, s0s, trs) implies feeds(
                    o,
                    keys@,
                    f,
                    effects@.subrange(start.len() as int, effects@.len() as int) + es,
                    dcuts + cuts,
                    dmids + mids,
                    ds0s + s0s,
                    dtrs + trs,
                ) by {
                    let all = e1 + es;
                    let c2 = seq![n] + cuts;
                    let m2 = seq![*self] + mids;
                    let t2 = seq![tr] + trs;
                    let z2 = seq![z0] + s0s;
                    assert(z2.drop_first() =~= s0s);
                    assert(dz0 + z2 =~= ds0s + s0s);
                    assert(all.subrange(0, n) =~= e1);
                    assert(all.subrange(n, all.len() as int) =~= es);
                    assert(c2.drop_first() =~= cuts);
                    assert(m2.drop_first() =~= mids);
                    assert(t2.drop_first() =~= trs);
                    assert(feeds(cur, ks, f, all, c2, m2, z2, t2));
                    assert(done + all =~= (done + e1) + es);
                    assert(dc0 + c2 =~= dcuts + cuts);
                    assert(dm0 + m2 =~= dmids + mids);
                    assert(dt0 + t2 =~= dtrs + trs);
                }
            }
            i = i + 1;
        }
        proof {
            assert(keys@.subrange(i as int, keys@.len() as int) =~= Seq::<Key>::empty());
            assert(feeds(*self, keys@.subrange(i as int, keys@.len() as int), *self, Seq::empty(), Seq::empty(), Seq::empty(), Seq::empty(), Seq::empty()));
            let ne = effects@.subrange(start.len() as int, effects@.len() as int);
            assert(ne + Seq::<Effect>::empty() =~= ne);
            assert(dcuts + Seq::<int>::empty() =~= dcuts);
            assert(dmids + Seq::<Editor>::empty() =~= dmids);
            assert(ds0s + Seq::<Editor>::empty() =~= ds0s);
            assert(dtrs + Seq::<Seq<Editor>>::empty() =~= dtrs);
            assert(feeds(o, keys@, *self, ne, dcuts, dmids, ds0s, dtrs));
        }
        true
    }
}

/// The editor with its standard remaps: in Insertion mode each arrow key
/// leaves, moves the cursor one pixel that way, and inserts again.
pub fn create_ui(width: usize, height: usize) -> (r: Editor)
    requires
        0 < width <= MAX_EXTENT,
        0 < height <= MAX_EXTENT,
    ensures
        r.wf(),
        r.mode == Mode::Normal,
        r.cursor == (0usize, 0usize),
        r.width == width,
        r.height == height,
        !r.closed,
        r.error.is_none(),
        r.anchor.is_none(),
        r.pending.is_none(),
        r.policy == VisualType::Square,
        r.buffer@.len() == 0,
        r.selection@.len() == 0,
        lookup(r.bindings@, Mode::Insertion, seq![Key::Left]) == Some(
            seq![Key::Esc, Key::Char('h'), Key::Char('i')],
        ),
        lookup(r.bindings@, Mode::Insertion, seq![Key::Right]) == Some(
            seq![Key::Esc, Key::Char('l'), Key::Char('i')],
        ),
        lookup(r.bindings@, Mode::Insertion, seq![Key::Down]) == Some(
            seq![Key::Esc, Key::Char('j'), Key::Char('i')],
        ),
        lookup(r.bindings@, Mode::Insertion, seq![Key::Up]) == Some(
            seq![Key::Esc, Key::Char('k'), Key::Char('i')],
        ),
        forall|m: Mode, t: Seq<Key>| m != Mode::Insertion ==> #[trigger] lookup(r.bindings@, m, t).is_none(),
        forall|t: Seq<Key>|
            t != seq![Key::Left] && t != seq![Key::Right] && t != seq![Key::Down] && t != seq![Key::Up]
                ==> #[trigger] lookup(r.bindings@, Mode::Insertion, t).is_none(),
        forall|m: Mode, p: Seq<Key>| #[trigger] awaits(r.bindings@, m, p) <==> (m == Mode::Insertion && p.len() == 0),
        r.typed@.len() == 0,
        forall|k: Key| #[trigger] verb_at(r.verbs@, k) == builtin_verb(k),
        forall|k: Key| #[trigger] object_at(r.objects@, k) == object_spec(k),
        forall|n: Seq<char>| #[trigger] command_at(r.commands@, n) == builtin_command(n),
{
    let mut ui = Editor::new(width, height);
    ui.add_object(Key::Char('h'), Motion::Left);
    ui.add_object(Key::Char('j'), Motion::Down);
    ui.add_object(Key::Char('k'), Motion::Up);
    ui.add_object(Key::Char('l'), Motion::Right);
    ui.add_object(Key::Char('.'), Motion::Stay);
    ui.add_verb(Key::Char('s'), true, Verb::Fill);
    ui.add_verb(Key::Char('+'), false, Verb::ZoomIn);
    ui.add_verb(Key::Char('-'), false, Verb::ZoomOut);
    ui.add_verb(Key::Char(':'), false, Verb::EnterCommand);
    ui.add_verb(Key::Char('i'), false, Verb::EnterInsert);
    ui.add_verb(Key::Char('v'), false, Verb::EnterVisual(VisualType::Square));
    ui.add_verb(Key::Char('V'), false, Verb::EnterVisual(VisualType::Circle));
    ui.add_verb(Key::Char('H'), false, Verb::Pan(Motion::Left));
    ui.add_verb(Key::Char('J'), false, Verb::Pan(Motion::Down));
    ui.add_verb(Key::Char('K'), false, Verb::Pan(Motion::Up));
    ui.add_verb(Key::Char('L'), false, Verb::Pan(Motion::Right));
    ui.add_verb(Key::Char('_'), true, Verb::Nothing);
    ui.add_verb(Key::Esc, false, Verb::Escape);
    let q = vec!['q'];
    let quit = vec!['q', 'u', 'i', 't'];
    let imap = vec!['i', 'm', 'a', 'p'];
    assert(q@ =~= seq!['q']);
    assert(quit@ =~= seq!['q', 'u', 'i', 't']);
    assert(imap@ =~= seq!['i', 'm', 'a', 'p']);
    ui.add_command(q, Command::Quit);
    ui.add_command(quit, Command::Quit);
    ui.add_command(imap, Command::Imap);
    ui.bind_arrow(Key::Left, 'h');
    ui.bind_arrow(Key::Right, 'l');
    ui.bind_arrow(Key::Down, 'j');
    ui.bind_arrow(Key::Up, 'k');
    proof {
        let l = seq![Key::Left];
        let r = seq![Key::Right];
        let d = seq![Key::Down];
        let u = seq![Key::Up];
        assert(l[0] != r[0] && l[0] != d[0] && l[0] != u[0] && r[0] != d[0] && r[0] != u[0]);
        assert(l != r && l != d && l != u && r != d && r != u);
        assert forall|k: Key| #[trigger] verb_at(ui.verbs@, k) == builtin_verb(k) by {}
        assert forall|k: Key| #[trigger] object_at(ui.objects@, k) == object_spec(k) by {}
        assert forall|n: Seq<char>| #[trigger] command_at(ui.commands@, n) == builtin_command(n) by {
            if n.len() == 4 && n[0] == 'q' {
                assert(n != seq!['i', 'm', 'a', 'p']);
            }
        }
    }
    ui
}

} // verus!
