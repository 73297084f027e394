//! The modal policies: how each mode turns pending keys into an action.
//!
//! A mode owns its own key trie and a fallback rule for keys the trie does
//! not know. Normal mode additionally owns the pending repeat-count digits;
//! switching modes builds a fresh instance of the destination mode, so that
//! in-progress digit state is discarded on a switch.

use vstd::prelude::*;
use crate::action::{multi2, multi3, Action, ActionV};
use crate::keys::{bind_spec, match_spec, Key, KeyCode, KeyMap, KeyMatch, MatchV, TrieV};
use crate::point::Direction;

verus! {

/// The name of a mode.
#[derive(PartialEq, Eq, Structural, Copy, Clone, Debug, Hash)]
pub enum ModeType {
    Insert,
    Normal,
    Replace,
}

/// The accent color a mode paints the status bar with. Presentation
/// metadata only, consumed by the renderer.
#[derive(PartialEq, Eq, Structural, Copy, Clone, Debug)]
pub enum AccentColor {
    DarkBlue,
    Green,
}

/// Mathematical model of a mode: its name, its key trie, and Normal mode's
/// pending repeat-count digits (empty for the other modes).
#[verifier::ext_equal]
pub struct ModeV {
    pub kind: ModeType,
    pub trie: TrieV,
    pub pending: Seq<char>,
}

/// An input-interpretation policy, one variant per mode, each owning its
/// own key trie.
pub enum Mode {
    Normal { keymap: KeyMap, operator_pending: Vec<char> },
    Insert { keymap: KeyMap },
    Replace { keymap: KeyMap },
}

impl View for Mode {
    type V = ModeV;

    open spec fn view(&self) -> ModeV {
        match self {
            Mode::Normal { keymap, operator_pending } => (ModeV {
                kind: ModeType::Normal,
                trie: keymap@,
                pending: operator_pending@,
            }),
            Mode::Insert { keymap } => (ModeV {
                kind: ModeType::Insert,
                trie: keymap@,
                pending: Seq::empty(),
            }),
            Mode::Replace { keymap } => (ModeV {
                kind: ModeType::Replace,
                trie: keymap@,
                pending: Seq::empty(),
            }),
        }
    }
}

/// The key event for a plain character, no modifiers.
pub open spec fn ch(c: char) -> Key {
    Key { code: KeyCode::Char(c), ctrl: false, alt: false }
}

/// The key event for a non-character code, no modifiers.
pub open spec fn kc(code: KeyCode) -> Key {
    Key { code, ctrl: false, alt: false }
}

/// The trie with no bindings.
pub open spec fn empty_trie() -> TrieV {
    TrieV::Node(Seq::empty())
}

/// The bindings every mode shares, installed on top of `t`: escape cancels
/// back to Normal mode and the arrow keys move the cursor.
pub open spec fn with_default_bindings(t: TrieV) -> TrieV {
    let t = bind_spec(t, seq![kc(KeyCode::Esc)], ActionV::Cancel);
    let t = bind_spec(t, seq![kc(KeyCode::Up)], ActionV::MoveCursor(Direction::Up));
    let t = bind_spec(t, seq![kc(KeyCode::Down)], ActionV::MoveCursor(Direction::Down));
    let t = bind_spec(t, seq![kc(KeyCode::Left)], ActionV::MoveCursor(Direction::Left));
    let t = bind_spec(t, seq![kc(KeyCode::Right)], ActionV::MoveCursor(Direction::Right));
    t
}

/// The bindings every mode starts from.
pub open spec fn shared_trie() -> TrieV {
    with_default_bindings(empty_trie())
}

/// Normal mode's default bindings.
pub open spec fn normal_trie() -> TrieV {
    let t = shared_trie();
    let t = bind_spec(t, seq![ch('k')], ActionV::MoveCursor(Direction::Up));
    let t = bind_spec(t, seq![ch('j')], ActionV::MoveCursor(Direction::Down));
    let t = bind_spec(t, seq![ch('h')], ActionV::MoveCursor(Direction::Left));
    let t = bind_spec(t, seq![ch('l')], ActionV::MoveCursor(Direction::Right));
    let t = bind_spec(t, seq![ch('o')], ActionV::NewLine);
    let t = bind_spec(
        t,
        seq![ch('O')],
        ActionV::Multi(seq![ActionV::MoveCursor(Direction::Up), ActionV::NewLine]),
    );
    let t = bind_spec(t, seq![ch('i')], ActionV::ChangeMode(ModeType::Insert));
    let t = bind_spec(t, seq![ch('R')], ActionV::ChangeMode(ModeType::Replace));
    let t = bind_spec(t, seq![ch('x')], ActionV::Delete);
    let t = bind_spec(t, seq![ch('p')], ActionV::Paste);
    let t = bind_spec(t, seq![ch('.')], ActionV::RepeatPrevious);
    let t = bind_spec(t, seq![ch('0')], ActionV::MoveCursor(Direction::BeginningOfLine));
    let t = bind_spec(t, seq![ch('$')], ActionV::MoveCursor(Direction::EndOfLine));
    let t = bind_spec(t, seq![ch('G')], ActionV::MoveCursor(Direction::EndOfFile));
    let t = bind_spec(
        t,
        seq![ch('g'), ch('g')],
        ActionV::MoveCursor(Direction::BeginningOfFile),
    );
    let t = bind_spec(t, seq![ch('y'), ch('y')], ActionV::YankLine);
    let t = bind_spec(t, seq![ch('d'), ch('d')], ActionV::DeleteLine);
    let t = bind_spec(t, seq![ch(' '), ch('b'), ch('n')], ActionV::NextBuffer);
    let t = bind_spec(t, seq![ch(' '), ch('b'), ch('p')], ActionV::PrevBuffer);
    let t = bind_spec(
        t,
        seq![ch('A')],
        ActionV::Multi(
            seq![
                ActionV::MoveCursor(Direction::EndOfLine),
                ActionV::ChangeMode(ModeType::Insert),
                ActionV::MoveCursor(Direction::Right),
            ],
        ),
    );
    let t = bind_spec(
        t,
        seq![ch('I')],
        ActionV::Multi(
            seq![
                ActionV::MoveCursor(Direction::BeginningOfLine),
                ActionV::ChangeMode(ModeType::Insert),
            ],
        ),
    );
    let t = bind_spec(
        t,
        seq![ch('a')],
        ActionV::Multi(
            seq![
                ActionV::MoveCursor(Direction::Right),
                ActionV::ChangeMode(ModeType::Insert),
            ],
        ),
    );
    t
}

/// Insert mode's default bindings.
pub open spec fn insert_trie() -> TrieV {
    let t = shared_trie();
    let t = bind_spec(t, seq![ch('d')], ActionV::DeleteLine);
    let t = bind_spec(t, seq![kc(KeyCode::Backspace)], ActionV::BackwardDelete);
    let t = bind_spec(t, seq![kc(KeyCode::Enter)], ActionV::NewLineAtPoint);
    t
}

/// Replace mode's default bindings.
pub open spec fn replace_trie() -> TrieV {
    let t = shared_trie();
    let t = bind_spec(
        t,
        seq![kc(KeyCode::Backspace)],
        ActionV::MoveCursor(Direction::Left),
    );
    let t = bind_spec(t, seq![kc(KeyCode::Enter)], ActionV::NewLineAtPoint);
    t
}

/// The default trie of each mode.
pub open spec fn default_trie(kind: ModeType) -> TrieV {
    match kind {
        ModeType::Normal => normal_trie(),
        ModeType::Insert => insert_trie(),
        ModeType::Replace => replace_trie(),
    }
}

/// The model of a freshly constructed mode.
pub open spec fn fresh_mode(kind: ModeType) -> ModeV {
    ModeV { kind, trie: default_trie(kind), pending: Seq::empty() }
}

/// A mode's structural invariant: the pending repeat-count string holds
/// decimal digits only.
pub open spec fn mode_wf(m: ModeV) -> bool {
    forall|i: int| 0 <= i < m.pending.len() ==> spec_is_digit(#[trigger] m.pending[i])
}

/// Whether `c` is a decimal digit.
pub open spec fn spec_is_digit(c: char) -> bool {
    48 <= c as u32 <= 57
}

/// The numeric value of a digit string, most significant first.
pub open spec fn digits_val(s: Seq<char>) -> int
    decreases s.len(),
{
    if s.len() == 0 {
        0
    } else {
        digits_val(s.drop_last()) * 10 + (s.last() as u32 - 48)
    }
}

/// The repeat count a digit string stands for: its value, or 1 when the
/// value overflows the parser's range.
pub open spec fn count_of(s: Seq<char>) -> int {
    if digits_val(s) <= 0x7fff_ffff {
        digits_val(s)
    } else {
        1
    }
}

/// What the fallback rule of `kind` makes of an unmatched key.
pub open spec fn fallback_spec(kind: ModeType, key: Key) -> Option<ActionV> {
    match kind {
        ModeType::Insert => match key.code {
            KeyCode::Char(c) => Some(ActionV::Insert(c)),
            _ => None,
        },
        ModeType::Replace => match key.code {
            KeyCode::Char(c) => Some(ActionV::Replace(c)),
            _ => None,
        },
        ModeType::Normal => None,
    }
}

/// How a mode reacts to the pending key sequence `keys`: the successor mode
/// state and the resolved action, if any. A trie match that needs more keys
/// becomes the `PartialKey` sentinel; an unmatched sequence falls back to
/// the mode's fallback rule, with Normal mode first accumulating
/// repeat-count digits; a resolved action is wrapped in `Repeat` when
/// digits are pending.
pub open spec fn resolve_spec(m: ModeV, keys: Seq<Key>) -> (ModeV, Option<ActionV>) {
    if m.kind == ModeType::Normal && keys[0].code == KeyCode::Char('0') && m.pending.len()
        > 0 {
        (ModeV { pending: m.pending.push('0'), ..m }, None)
    } else {
        match match_spec(m.trie, keys) {
            MatchV::Resolved(a) => if m.kind == ModeType::Normal && m.pending.len() > 0 {
                (
                    ModeV { pending: Seq::empty(), ..m },
                    Some(ActionV::Repeat(Box::new(a), count_of(m.pending) as usize)),
                )
            } else {
                (m, Some(a))
            },
            MatchV::Partial => (m, Some(ActionV::PartialKey)),
            MatchV::NoBinding => match keys[0].code {
                KeyCode::Char(c) => if m.kind == ModeType::Normal && spec_is_digit(c) {
                    (ModeV { pending: m.pending.push(c), ..m }, None)
                } else {
                    (m, fallback_spec(m.kind, keys[0]))
                },
                _ => (m, fallback_spec(m.kind, keys[0])),
            },
        }
    }
}

/// Bind a one-key sequence.
fn bind1(km: &mut KeyMap, k: Key, action: Action)
    ensures
        final(km)@ == bind_spec(old(km)@, seq![k], action@),
{
    let mut keys: Vec<Key> = Vec::new();
    keys.push(k);
    km.bind(keys.as_slice(), action);
    proof {
        assert(keys@ =~= seq![k]);
    }
}

/// Bind a two-key sequence.
fn bind2(km: &mut KeyMap, k1: Key, k2: Key, action: Action)
    ensures
        final(km)@ == bind_spec(old(km)@, seq![k1, k2], action@),
{
    let mut keys: Vec<Key> = Vec::new();
    keys.push(k1);
    keys.push(k2);
    km.bind(keys.as_slice(), action);
    proof {
        assert(keys@ =~= seq![k1, k2]);
    }
}

/// Bind a three-key sequence.
fn bind3(km: &mut KeyMap, k1: Key, k2: Key, k3: Key, action: Action)
    ensures
        final(km)@ == bind_spec(old(km)@, seq![k1, k2, k3], action@),
{
    let mut keys: Vec<Key> = Vec::new();
    keys.push(k1);
    keys.push(k2);
    keys.push(k3);
    km.bind(keys.as_slice(), action);
    proof {
        assert(keys@ =~= seq![k1, k2, k3]);
    }
}

impl KeyMap {
    /// Install the bindings every mode shares.
    pub fn bind_defaults(&mut self)
        ensures
            final(self)@ == with_default_bindings(old(self)@),
    {
        bind1(self, Key::new(KeyCode::Esc), Action::Cancel);
        bind1(self, Key::new(KeyCode::Up), Action::MoveCursor(Direction::Up));
        bind1(self, Key::new(KeyCode::Down), Action::MoveCursor(Direction::Down));
        bind1(self, Key::new(KeyCode::Left), Action::MoveCursor(Direction::Left));
        bind1(self, Key::new(KeyCode::Right), Action::MoveCursor(Direction::Right));
    }
}

impl Mode {
    /// A fresh Normal mode with its default bindings and no pending digits.
    pub fn normal_mode() -> (r: Mode)
        ensures
            r@ == fresh_mode(ModeType::Normal),
    {
        let mut km = KeyMap::new();
        km.bind_defaults();
        bind1(&mut km, Key::new(KeyCode::Char('k')), Action::MoveCursor(Direction::Up));
        bind1(&mut km, Key::new(KeyCode::Char('j')), Action::MoveCursor(Direction::Down));
        bind1(&mut km, Key::new(KeyCode::Char('h')), Action::MoveCursor(Direction::Left));
        bind1(&mut km, Key::new(KeyCode::Char('l')), Action::MoveCursor(Direction::Right));
        bind1(&mut km, Key::new(KeyCode::Char('o')), Action::NewLine);
        bind1(
            &mut km,
            Key::new(KeyCode::Char('O')),
            multi2(Action::MoveCursor(Direction::Up), Action::NewLine),
        );
        bind1(&mut km, Key::new(KeyCode::Char('i')), Action::ChangeMode(ModeType::Insert));
        bind1(&mut km, Key::new(KeyCode::Char('R')), Action::ChangeMode(ModeType::Replace));
        bind1(&mut km, Key::new(KeyCode::Char('x')), Action::Delete);
        bind1(&mut km, Key::new(KeyCode::Char('p')), Action::Paste);
        bind1(&mut km, Key::new(KeyCode::Char('.')), Action::RepeatPrevious);
        bind1(
            &mut km,
            Key::new(KeyCode::Char('0')),
            Action::MoveCursor(Direction::BeginningOfLine),
        );
        bind1(&mut km, Key::new(KeyCode::Char('$')), Action::MoveCursor(Direction::EndOfLine));
        bind1(&mut km, Key::new(KeyCode::Char('G')), Action::MoveCursor(Direction::EndOfFile));
        bind2(
            &mut km,
            Key::new(KeyCode::Char('g')),
            Key::new(KeyCode::Char('g')),
            Action::MoveCursor(Direction::BeginningOfFile),
        );
        bind2(
            &mut km,
            Key::new(KeyCode::Char('y')),
            Key::new(KeyCode::Char('y')),
            Action::YankLine,
        );
        bind2(
            &mut km,
            Key::new(KeyCode::Char('d')),
            Key::new(KeyCode::Char('d')),
            Action::DeleteLine,
        );
        bind3(
            &mut km,
            Key::new(KeyCode::Char(' ')),
            Key::new(KeyCode::Char('b')),
            Key::new(KeyCode::Char('n')),
            Action::NextBuffer,
        );
        bind3(
            &mut km,
            Key::new(KeyCode::Char(' ')),
            Key::new(KeyCode::Char('b')),
            Key::new(KeyCode::Char('p')),
            Action::PrevBuffer,
        );
        bind1(
            &mut km,
            Key::new(KeyCode::Char('A')),
            multi3(
                Action::MoveCursor(Direction::EndOfLine),
                Action::ChangeMode(ModeType::Insert),
                Action::MoveCursor(Direction::Right),
            ),
        );
        bind1(
            &mut km,
            Key::new(KeyCode::Char('I')),
            multi2(
                Action::MoveCursor(Direction::BeginningOfLine),
                Action::ChangeMode(ModeType::Insert),
            ),
        );
        bind1(
            &mut km,
            Key::new(KeyCode::Char('a')),
            multi2(
                Action::MoveCursor(Direction::Right),
                Action::ChangeMode(ModeType::Insert),
            ),
        );
        Mode::Normal { keymap: km, operator_pending: Vec::new() }
    }

    /// A fresh Insert mode with its default bindings.
    pub fn insert_mode() -> (r: Mode)
        ensures
            r@ == fresh_mode(ModeType::Insert),
    {
        let mut km = KeyMap::new();
        km.bind_defaults();
        bind1(&mut km, Key::new(KeyCode::Char('d')), Action::DeleteLine);
        bind1(&mut km, Key::new(KeyCode::Backspace), Action::BackwardDelete);
        bind1(&mut km, Key::new(KeyCode::Enter), Action::NewLineAtPoint);
        Mode::Insert { keymap: km }
    }

    /// A fresh Replace mode with its default bindings.
    pub fn replace_mode() -> (r: Mode)
        ensures
            r@ == fresh_mode(ModeType::Replace),
    {
        let mut km = KeyMap::new();
        km.bind_defaults();
        bind1(&mut km, Key::new(KeyCode::Backspace), Action::MoveCursor(Direction::Left));
        bind1(&mut km, Key::new(KeyCode::Enter), Action::NewLineAtPoint);
        Mode::Replace { keymap: km }
    }

    /// A fresh mode of the given kind.
    pub fn of_type(kind: ModeType) -> (r: Mode)
        ensures
            r@ == fresh_mode(kind),
    {
        match kind {
            ModeType::Normal => Mode::normal_mode(),
            ModeType::Insert => Mode::insert_mode(),
            ModeType::Replace => Mode::replace_mode(),
        }
    }

    /// The name of this mode.
    pub fn mode_type(&self) -> (r: ModeType)
        ensures
            r == self@.kind,
    {
        match self {
            Mode::Normal { .. } => ModeType::Normal,
            Mode::Insert { .. } => ModeType::Insert,
            Mode::Replace { .. } => ModeType::Replace,
        }
    }

    /// The action to run when this mode is replaced by another: leaving
    /// Insert mode steps the cursor back one column, the classic
    /// convention; the other modes exit silently.
    pub fn on_exit(&self) -> (r: Option<Action>)
        ensures
            r.deep_view() == spec_on_exit(self@.kind),
    {
        match self {
            Mode::Insert { .. } => Some(Action::MoveCursor(Direction::Left)),
            _ => None,
        }
    }

    /// The mode's display name, shown in the bottom bar.
    pub fn display(&self) -> (r: &'static str)
        ensures
            self@.kind == ModeType::Normal ==> r@ == "Normal"@,
            self@.kind == ModeType::Insert ==> r@ == "Insert"@,
            self@.kind == ModeType::Replace ==> r@ == "Replace"@,
    {
        match self {
            Mode::Normal { .. } => "Normal",
            Mode::Insert { .. } => "Insert",
            Mode::Replace { .. } => "Replace",
        }
    }

    /// The accent color for the bottom bar.
    pub fn color(&self) -> (r: AccentColor)
        ensures
            r == spec_color(self@.kind),
    {
        match self {
            Mode::Normal { .. } => AccentColor::DarkBlue,
            _ => AccentColor::Green,
        }
    }

    /// React to the pending key sequence: resolve it through this mode's
    /// trie, fall back to the mode's fallback rule for unmatched keys, and
    /// keep Normal mode's repeat-count digits up to date.
    pub fn keys_pressed(&mut self, keys: &[Key]) -> (r: Option<Action>)
        requires
            keys@.len() > 0,
            mode_wf(old(self)@),
        ensures
            final(self)@ == resolve_spec(old(self)@, keys@).0,
            r.deep_view() == resolve_spec(old(self)@, keys@).1,
            mode_wf(final(self)@),
    {
        match self {
            Mode::Normal { keymap, operator_pending } => {
                let first = keys[0];
                if first.code == KeyCode::Char('0') && operator_pending.len() > 0 {
                    operator_pending.push('0');
                    return None;
                }
                match keymap.match_keys(keys) {
                    KeyMatch::Action(action) => {
                        if operator_pending.len() == 0 {
                            Some(action)
                        } else {
                            let n = parse_count(operator_pending);
                            operator_pending.clear();
                            Some(Action::Repeat(Box::new(action), n))
                        }
                    }
                    KeyMatch::Partial => Some(Action::PartialKey),
                    KeyMatch::NoMatch => {
                        match first.code {
                            KeyCode::Char(c) => {
                                let u = c as u32;
                                if 48 <= u && u <= 57 {
                                    operator_pending.push(c);
                                    None
                                } else {
                                    None
                                }
                            }
                            _ => None,
                        }
                    }
                }
            }
            Mode::Insert { keymap } => {
                match keymap.match_keys(keys) {
                    KeyMatch::Action(action) => Some(action),
                    KeyMatch::Partial => Some(Action::PartialKey),
                    KeyMatch::NoMatch => {
                        match keys[0].code {
                            KeyCode::Char(c) => Some(Action::Insert(c)),
                            _ => None,
                        }
                    }
                }
            }
            Mode::Replace { keymap } => {
                match keymap.match_keys(keys) {
                    KeyMatch::Action(action) => Some(action),
                    KeyMatch::Partial => Some(Action::PartialKey),
                    KeyMatch::NoMatch => {
                        match keys[0].code {
                            KeyCode::Char(c) => Some(Action::Replace(c)),
                            _ => None,
                        }
                    }
                }
            }
        }
    }
}

/// The action run on leaving a mode.
pub open spec fn spec_on_exit(kind: ModeType) -> Option<ActionV> {
    match kind {
        ModeType::Insert => Some(ActionV::MoveCursor(Direction::Left)),
        _ => None,
    }
}

/// The accent color of a mode.
pub open spec fn spec_color(kind: ModeType) -> AccentColor {
    match kind {
        ModeType::Normal => AccentColor::DarkBlue,
        _ => AccentColor::Green,
    }
}

/// Appending digits never shrinks the value of a digit string.
proof fn lemma_digits_val_grows(s: Seq<char>, n: int)
    requires
        0 <= n <= s.len(),
        forall|i: int| 0 <= i < s.len() ==> spec_is_digit(s[i]),
    ensures
        digits_val(s.subrange(0, n)) <= digits_val(s),
        digits_val(s) >= 0,
    decreases s.len(),
{
    if s.len() == 0 {
    } else {
        lemma_digits_val_grows(s.drop_last(), if n <= s.len() - 1 {
            n
        } else {
            n - 1
        });
        assert(forall|i: int| 0 <= i < s.drop_last().len() ==> spec_is_digit(
            s.drop_last()[i],
        ));
        if n <= s.len() - 1 {
            assert(s.drop_last().subrange(0, n) =~= s.subrange(0, n));
            assert(digits_val(s.drop_last()) * 10 >= digits_val(s.drop_last())) by {
                assert(digits_val(s.drop_last()) >= 0);
            }
        } else {
            assert(s.subrange(0, n) =~= s);
        }
    }
}

/// Parse Normal mode's pending digits into a repeat count; a value past the
/// parser's range falls back to 1.
fn parse_count(digits: &Vec<char>) -> (r: usize)
    requires
        forall|i: int| 0 <= i < digits@.len() ==> spec_is_digit(digits@[i]),
    ensures
        r == count_of(digits@),
{
    let mut acc: usize = 0;
    let mut i: usize = 0;
    proof {
        assert(digits@.subrange(0, 0) =~= Seq::<char>::empty());
    }
    while i < digits.len()
        invariant
            i <= digits@.len(),
            forall|j: int| 0 <= j < digits@.len() ==> spec_is_digit(digits@[j]),
            acc == digits_val(digits@.subrange(0, i as int)),
            acc <= 0x7fff_ffff,
        decreases digits@.len() - i,
    {
        let d = (digits[i] as u32 - 48) as usize;
        proof {
            assert(digits@.subrange(0, i + 1).drop_last() =~= digits@.subrange(
                0,
                i as int,
            ));
        }
        if acc > (0x7fff_ffff - d) / 10 {
            proof {
                assert(acc * 10 + d > 0x7fff_ffff) by (nonlinear_arith)
                    requires
                        acc > (0x7fff_ffff - d) / 10,
                        0 <= d <= 9,
                ;
                assert(digits_val(digits@.subrange(0, i + 1)) == acc * 10 + d);
                lemma_digits_val_grows(digits@, i + 1);
                assert(digits_val(digits@) > 0x7fff_ffff);
            }
            return 1;
        }
        proof {
            assert(acc * 10 + d <= 0x7fff_ffff) by (nonlinear_arith)
                requires
                    acc <= (0x7fff_ffff - d) / 10,
                    0 <= d <= 9,
            ;
        }
        acc = acc * 10 + d;
        i = i + 1;
    }
    proof {
        assert(digits@.subrange(0, digits@.len() as int) =~= digits@);
    }
    acc
}

} // verus!
