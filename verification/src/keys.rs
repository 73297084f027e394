//! Key events and the prefix trie that maps key sequences to actions.
//!
//! Matching distinguishes three outcomes: no binding starts with the given
//! sequence, the sequence is a proper prefix of a binding (more keys are
//! needed), or the sequence resolves to an action. A shorter binding
//! pre-empts a longer one sharing its prefix: there is no longest-match
//! backtracking.

use vstd::prelude::*;
use crate::action::{clone_action, Action, ActionV};

verus! {

/// The code of a key event, without its modifiers.
#[derive(PartialEq, Eq, Structural, Copy, Clone, Debug, Hash)]
pub enum KeyCode {
    Char(char),
    Esc,
    Backspace,
    Enter,
    Up,
    Down,
    Left,
    Right,
}

/// An abstract key event: a key code plus its modifier set.
#[derive(PartialEq, Eq, Structural, Copy, Clone, Debug, Hash)]
pub struct Key {
    pub code: KeyCode,
    pub ctrl: bool,
    pub alt: bool,
}

impl Key {
    /// A key event without modifiers.
    pub fn new(code: KeyCode) -> (r: Key)
        ensures
            r == (Key { code, ctrl: false, alt: false }),
    {
        Key { code, ctrl: false, alt: false }
    }
}

/// A trie node: either a resolved action or a table of child nodes, one per
/// next key. A leaf and a non-empty child table never coexist at one node.
pub enum KeyMap {
    Node(Vec<(Key, KeyMap)>),
    Action(Action),
}

/// The result of matching a key sequence against a `KeyMap`.
#[derive(PartialEq, Eq, Debug)]
pub enum KeyMatch {
    NoMatch,
    Partial,
    Action(Action),
}

/// Mathematical model of a `KeyMap`.
pub enum TrieV {
    Node(Seq<(Key, TrieV)>),
    Action(ActionV),
}

/// Mathematical model of a `KeyMatch`.
pub enum MatchV {
    NoBinding,
    Partial,
    Resolved(ActionV),
}

impl View for KeyMap {
    type V = TrieV;

    open spec fn view(&self) -> TrieV
        decreases self,
    {
        match self {
            KeyMap::Node(children) => TrieV::Node(view_children(children@)),
            KeyMap::Action(a) => TrieV::Action(a@),
        }
    }
}

impl View for KeyMatch {
    type V = MatchV;

    open spec fn view(&self) -> MatchV {
        match self {
            KeyMatch::NoMatch => MatchV::NoBinding,
            KeyMatch::Partial => MatchV::Partial,
            KeyMatch::Action(a) => MatchV::Resolved(a@),
        }
    }
}

/// The views of a child table, element by element.
pub open spec fn view_children(s: Seq<(Key, KeyMap)>) -> Seq<(Key, TrieV)>
    decreases s, s.len(),
{
    if s.len() == 0 {
        Seq::empty()
    } else {
        seq![(s[0].0, s[0].1@)] + view_children(s.drop_first())
    }
}

/// `view_children` maps the view over the table.
pub proof fn lemma_view_children(s: Seq<(Key, KeyMap)>)
    ensures
        view_children(s).len() == s.len(),
        forall|i: int| 0 <= i < s.len() ==> view_children(s)[i] == (s[i].0, s[i].1@),
    decreases s.len(),
{
    if s.len() > 0 {
        lemma_view_children(s.drop_first());
        assert(view_children(s) == seq![(s[0].0, s[0].1@)] + view_children(s.drop_first()));
        assert forall|i: int| 0 <= i < s.len() implies view_children(s)[i] == (
            s[i].0,
            s[i].1@,
        ) by {
            if i > 0 {
                assert(s.drop_first()[i - 1] == s[i]);
                assert(view_children(s)[i] == view_children(s.drop_first())[i - 1]);
            }
        }
    } else {
        assert(view_children(s) =~= Seq::<(Key, TrieV)>::empty());
    }
}

/// The subtree bound to `k` in a child table, if any: the first entry wins.
pub open spec fn lookup_child(children: Seq<(Key, TrieV)>, k: Key) -> Option<TrieV>
    decreases children.len(),
{
    if children.len() == 0 {
        None
    } else if children[0].0 == k {
        Some(children[0].1)
    } else {
        lookup_child(children.drop_first(), k)
    }
}

/// The child table with `sub` bound to `k`: the first entry for `k` is
/// replaced, or a new entry is appended.
pub open spec fn store_child(children: Seq<(Key, TrieV)>, k: Key, sub: TrieV) -> Seq<
    (Key, TrieV),
>
    decreases children.len(),
{
    if children.len() == 0 {
        seq![(k, sub)]
    } else if children[0].0 == k {
        seq![(k, sub)] + children.drop_first()
    } else {
        seq![children[0]] + store_child(children.drop_first(), k, sub)
    }
}

/// A node's child table; a leaf has none.
pub open spec fn spec_children(t: TrieV) -> Seq<(Key, TrieV)> {
    match t {
        TrieV::Node(ch) => ch,
        TrieV::Action(_) => Seq::empty(),
    }
}

/// The trie after binding `action` at `keys`. Intermediate nodes are created
/// as needed; a leaf in the way is replaced by a fresh subtree holding only
/// the new binding; binding at a node that already has children keeps those
/// children and drops the action.
pub open spec fn bind_spec(t: TrieV, keys: Seq<Key>, action: ActionV) -> TrieV
    decreases keys.len(),
{
    if keys.len() == 0 {
        if spec_children(t).len() > 0 {
            t
        } else {
            TrieV::Action(action)
        }
    } else {
        let ch = spec_children(t);
        let sub = match lookup_child(ch, keys[0]) {
            Some(s) => s,
            None => TrieV::Node(Seq::empty()),
        };
        TrieV::Node(store_child(ch, keys[0], bind_spec(sub, keys.drop_first(), action)))
    }
}

/// What matching `keys` against `t` yields. A leaf resolves at once, even
/// with keys left over; the empty sequence at a node is always `Partial`; a
/// missing child is `NoBinding`.
pub open spec fn match_spec(t: TrieV, keys: Seq<Key>) -> MatchV
    decreases keys.len(),
{
    match t {
        TrieV::Action(a) => MatchV::Resolved(a),
        TrieV::Node(ch) => if keys.len() == 0 {
            MatchV::Partial
        } else {
            match lookup_child(ch, keys[0]) {
                None => MatchV::NoBinding,
                Some(sub) => match_spec(sub, keys.drop_first()),
            }
        },
    }
}

impl KeyMap {
    /// A fresh trie with no bindings.
    pub fn new() -> (r: KeyMap)
        ensures
            r@ == TrieV::Node(Seq::<(Key, TrieV)>::empty()),
    {
        let r = KeyMap::Node(Vec::new());
        proof {
            assert(view_children(Seq::<(Key, KeyMap)>::empty()) =~= Seq::<
                (Key, TrieV),
            >::empty());
        }
        r
    }

    /// Bind `action` to the key sequence `keys`.
    pub fn bind(&mut self, keys: &[Key], action: Action)
        ensures
            final(self)@ == bind_spec(old(self)@, keys@, action@),
    {
        let mut t = KeyMap::Node(Vec::new());
        core::mem::swap(&mut t, self);
        *self = KeyMap::bind_step(t, keys, 0, action);
        proof {
            assert(keys@.subrange(0, keys@.len() as int) =~= keys@);
        }
    }

    /// Bind `action` at `keys[i..]` in the owned trie `t`.
    #[verifier::loop_isolation(false)]
    fn bind_step(t: KeyMap, keys: &[Key], i: usize, action: Action) -> (r: KeyMap)
        requires
            i <= keys@.len(),
        ensures
            r@ == bind_spec(t@, keys@.subrange(i as int, keys@.len() as int), action@),
        decreases keys@.len() - i,
    {
        let ghost rest = keys@.subrange(i as int, keys@.len() as int);
        let mut children: Vec<(Key, KeyMap)> = match t {
            KeyMap::Node(ch) => ch,
            KeyMap::Action(_) => Vec::new(),
        };
        proof {
            assert(view_children(Seq::<(Key, KeyMap)>::empty()) =~= Seq::<
                (Key, TrieV),
            >::empty());
            assert(spec_children(t@) == view_children(children@));
            lemma_view_children(children@);
        }
        if i == keys.len() {
            proof {
                assert(rest.len() == 0);
            }
            if children.len() > 0 {
                proof {
                    assert(t@ == TrieV::Node(view_children(children@)));
                }
                KeyMap::Node(children)
            } else {
                KeyMap::Action(action)
            }
        } else {
            let ghost orig = children@;
            let k = keys[i];
            proof {
                assert(rest[0] == keys@[i as int]);
                assert(rest.drop_first() =~= keys@.subrange(i + 1, keys@.len() as int));
            }
            let n = children.len();
            let mut j: usize = 0;
            while j < n && !(children[j].0 == k)
                invariant
                    j <= n,
                    children@ == orig,
                    forall|m: int| 0 <= m < j ==> orig[m].0 != k,
                decreases n - j,
            {
                j = j + 1;
            }
            if j < n {
                let (_, sub) = children.remove(j);
                let newsub = KeyMap::bind_step(sub, keys, i + 1, action);
                children.insert(j, (k, newsub));
                proof {
                    lemma_lookup_found(view_children(orig), k, j as int);
                    assert(view_children(orig)[j as int] == (orig[j as int].0, orig[
                        j as int].1@));
                    lemma_view_children(children@);
                    assert(children@ =~= orig.update(j as int, (k, newsub)));
                    assert(view_children(children@) =~= view_children(orig).update(
                        j as int,
                        (k, newsub@),
                    ));
                }
                KeyMap::Node(children)
            } else {
                let newsub = KeyMap::bind_step(KeyMap::Node(Vec::new()), keys, i + 1, action);
                children.push((k, newsub));
                proof {
                    lemma_lookup_missing(view_children(orig), k);
                    lemma_view_children(children@);
                    assert(view_children(children@) =~= view_children(orig).push(
                        (k, newsub@),
                    ));
                }
                KeyMap::Node(children)
            }
        }
    }

    /// Match a key sequence against the trie.
    #[verifier::loop_isolation(false)]
    pub fn match_keys(&self, keys: &[Key]) -> (r: KeyMatch)
        ensures
            r@ == match_spec(self@, keys@),
    {
        let mut i: usize = 0;
        let mut cur: &KeyMap = self;
        proof {
            assert(keys@.subrange(0, keys@.len() as int) =~= keys@);
        }
        loop
            invariant
                i <= keys@.len(),
                match_spec(self@, keys@) == match_spec(
                    cur@,
                    keys@.subrange(i as int, keys@.len() as int),
                ),
            decreases keys@.len() - i,
        {
            let ghost rest = keys@.subrange(i as int, keys@.len() as int);
            match cur {
                KeyMap::Action(a) => {
                    return KeyMatch::Action(clone_action(a));
                }
                KeyMap::Node(children) => {
                    if i == keys.len() {
                        proof {
                            assert(rest.len() == 0);
                        }
                        return KeyMatch::Partial;
                    }
                    proof {
                        assert(rest[0] == keys@[i as int]);
                        assert(rest.drop_first() =~= keys@.subrange(
                            i + 1,
                            keys@.len() as int,
                        ));
                        lemma_view_children(children@);
                    }
                    let k = keys[i];
                    let n = children.len();
                    let mut j: usize = 0;
                    while j < n && !(children[j].0 == k)
                        invariant
                            j <= n,
                            forall|m: int| 0 <= m < j ==> children@[m].0 != k,
                        decreases n - j,
                    {
                        j = j + 1;
                    }
                    if j < n {
                        proof {
                            lemma_lookup_found(view_children(children@), k, j as int);
                        }
                        cur = &children[j].1;
                        i = i + 1;
                    } else {
                        proof {
                            lemma_lookup_missing(view_children(children@), k);
                        }
                        return KeyMatch::NoMatch;
                    }
                }
            }
        }
    }
}

/// When the first entry for `k` sits at position `j`, looking up finds its
/// subtree and storing replaces exactly that entry.
proof fn lemma_lookup_found(s: Seq<(Key, TrieV)>, k: Key, j: int)
    requires
        0 <= j < s.len(),
        s[j].0 == k,
        forall|m: int| 0 <= m < j ==> s[m].0 != k,
    ensures
        lookup_child(s, k) == Some(s[j].1),
        forall|sub: TrieV| #[trigger] store_child(s, k, sub) =~= s.update(j, (k, sub)),
    decreases j,
{
    if j > 0 {
        assert forall|m: int| 0 <= m < j - 1 implies s.drop_first()[m].0 != k by {
            assert(s.drop_first()[m] == s[m + 1]);
        }
        assert(s.drop_first()[j - 1] == s[j]);
        lemma_lookup_found(s.drop_first(), k, j - 1);
        assert forall|sub: TrieV| #[trigger] store_child(s, k, sub) =~= s.update(
            j,
            (k, sub),
        ) by {
            assert(store_child(s.drop_first(), k, sub) =~= s.drop_first().update(
                j - 1,
                (k, sub),
            ));
        }
    }
}

/// When no entry for `k` exists, looking up fails and storing appends.
proof fn lemma_lookup_missing(s: Seq<(Key, TrieV)>, k: Key)
    requires
        forall|m: int| 0 <= m < s.len() ==> s[m].0 != k,
    ensures
        lookup_child(s, k) is None,
        forall|sub: TrieV| #[trigger] store_child(s, k, sub) =~= s.push((k, sub)),
    decreases s.len(),
{
    if s.len() > 0 {
        assert forall|m: int| 0 <= m < s.len() - 1 implies s.drop_first()[m].0 != k by {
            assert(s.drop_first()[m] == s[m + 1]);
        }
        lemma_lookup_missing(s.drop_first(), k);
        assert forall|sub: TrieV| #[trigger] store_child(s, k, sub) =~= s.push(
            (k, sub),
        ) by {
            assert(store_child(s.drop_first(), k, sub) =~= s.drop_first().push((k, sub)));
        }
    }
}

/// Storing under `k` makes the stored subtree what lookup under `k` finds.
proof fn lemma_lookup_store(s: Seq<(Key, TrieV)>, k: Key, sub: TrieV)
    ensures
        lookup_child(store_child(s, k, sub), k) == Some(sub),
    decreases s.len(),
{
    if s.len() == 0 {
    } else if s[0].0 == k {
    } else {
        lemma_lookup_store(s.drop_first(), k, sub);
        assert((seq![s[0]] + store_child(s.drop_first(), k, sub)).drop_first() =~=
            store_child(s.drop_first(), k, sub));
    }
}

/// A sequence that resolves to an action pre-empts every extension: matching
/// any longer sequence that it is a prefix of yields the same action.
pub proof fn lemma_match_resolved_preempts(t: TrieV, p: Seq<Key>, q: Seq<Key>)
    requires
        p.len() <= q.len(),
        p == q.subrange(0, p.len() as int),
        match_spec(t, p) is Resolved,
    ensures
        match_spec(t, q) == match_spec(t, p),
    decreases p.len(),
{
    match t {
        TrieV::Action(_) => {}
        TrieV::Node(ch) => {
            assert(p.len() > 0);
            assert(q[0] == p[0]);
            assert(q.len() > 0);
            match lookup_child(ch, p[0]) {
                None => {}
                Some(sub) => {
                    assert(p.drop_first() =~= q.drop_first().subrange(
                        0,
                        p.len() - 1,
                    ));
                    lemma_match_resolved_preempts(sub, p.drop_first(), q.drop_first());
                }
            }
        }
    }
}

/// A sequence with no bound prefix stays unbound under every extension.
pub proof fn lemma_match_none_extends(t: TrieV, p: Seq<Key>, q: Seq<Key>)
    requires
        p.len() <= q.len(),
        p == q.subrange(0, p.len() as int),
        match_spec(t, p) is NoBinding,
    ensures
        match_spec(t, q) is NoBinding,
    decreases p.len(),
{
    match t {
        TrieV::Action(_) => {}
        TrieV::Node(ch) => {
            assert(p.len() > 0);
            assert(q[0] == p[0]);
            match lookup_child(ch, p[0]) {
                None => {}
                Some(sub) => {
                    assert(p.drop_first() =~= q.drop_first().subrange(
                        0,
                        p.len() - 1,
                    ));
                    lemma_match_none_extends(sub, p.drop_first(), q.drop_first());
                }
            }
        }
    }
}

/// After binding at `keys`, every proper prefix of `keys` matches as
/// `Partial`: the bound sequence's intermediate nodes all await more keys.
pub proof fn lemma_bind_prefix_partial(t: TrieV, keys: Seq<Key>, action: ActionV, m: int)
    requires
        0 <= m < keys.len(),
    ensures
        match_spec(bind_spec(t, keys, action), keys.subrange(0, m)) is Partial,
    decreases m,
{
    let ch = spec_children(t);
    let sub = match lookup_child(ch, keys[0]) {
        Some(s) => s,
        None => TrieV::Node(Seq::<(Key, TrieV)>::empty()),
    };
    let bound = bind_spec(sub, keys.drop_first(), action);
    if m == 0 {
        assert(keys.subrange(0, 0).len() == 0);
    } else {
        lemma_lookup_store(ch, keys[0], bound);
        lemma_bind_prefix_partial(sub, keys.drop_first(), action, m - 1);
        assert(keys.subrange(0, m)[0] == keys[0]);
        assert(keys.subrange(0, m).drop_first() =~= keys.drop_first().subrange(
            0,
            m - 1,
        ));
    }
}

/// Binding a sequence whose match is not `Partial` makes that exact sequence
/// resolve to the new action.
pub proof fn lemma_bind_then_match(t: TrieV, keys: Seq<Key>, action: ActionV)
    requires
        !(match_spec(t, keys) is Partial),
    ensures
        match_spec(bind_spec(t, keys, action), keys) == MatchV::Resolved(action),
    decreases keys.len(),
{
    if keys.len() == 0 {
        match t {
            TrieV::Action(_) => {}
            TrieV::Node(ch) => {
                assert(match_spec(t, keys) is Partial);
            }
        }
    } else {
        let ch = spec_children(t);
        let sub = match lookup_child(ch, keys[0]) {
            Some(s) => s,
            None => TrieV::Node(Seq::<(Key, TrieV)>::empty()),
        };
        let bound = bind_spec(sub, keys.drop_first(), action);
        lemma_lookup_store(ch, keys[0], bound);
        match t {
            TrieV::Action(_) => {
                lemma_bind_fresh(keys.drop_first(), action);
            }
            TrieV::Node(_) => {
                match lookup_child(ch, keys[0]) {
                    None => {
                        lemma_bind_fresh(keys.drop_first(), action);
                    }
                    Some(s) => {
                        lemma_bind_then_match(s, keys.drop_first(), action);
                    }
                }
            }
        }
    }
}

/// Binding into an empty trie always makes the sequence resolve.
proof fn lemma_bind_fresh(keys: Seq<Key>, action: ActionV)
    ensures
        match_spec(
            bind_spec(TrieV::Node(Seq::<(Key, TrieV)>::empty()), keys, action),
            keys,
        ) == MatchV::Resolved(action),
    decreases keys.len(),
{
    let empty = TrieV::Node(Seq::<(Key, TrieV)>::empty());
    if keys.len() == 0 {
    } else {
        let bound = bind_spec(empty, keys.drop_first(), action);
        lemma_lookup_store(Seq::<(Key, TrieV)>::empty(), keys[0], bound);
        lemma_bind_fresh(keys.drop_first(), action);
    }
}

} // verus!
