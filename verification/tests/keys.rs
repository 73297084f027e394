use miv::action::Action;
use miv::keys::{Key, KeyCode, KeyMap, KeyMatch};

fn k(c: char) -> Key {
    Key::new(KeyCode::Char(c))
}

#[test]
fn bind() {
    let mut km = KeyMap::new();
    assert_eq!(km.match_keys(&[k('q')]), KeyMatch::NoMatch);

    km.bind(&[k('q')], Action::Quit);
    assert_eq!(km.match_keys(&[k('q')]), KeyMatch::Action(Action::Quit));

    km.bind(&[k('i')], Action::Delete);
    assert_eq!(km.match_keys(&[k('i')]), KeyMatch::Action(Action::Delete));
    assert_eq!(km.match_keys(&[k('q')]), KeyMatch::Action(Action::Quit));

    km.bind(&[k('d'), k('d')], Action::Delete);
    assert_eq!(km.match_keys(&[k('d')]), KeyMatch::Partial);
    assert_eq!(km.match_keys(&[k('d'), k('d')]), KeyMatch::Action(Action::Delete));
}

#[test]
fn empty_sequence_is_partial() {
    let mut km = KeyMap::new();
    assert_eq!(km.match_keys(&[]), KeyMatch::Partial);
    km.bind(&[k('q')], Action::Quit);
    assert_eq!(km.match_keys(&[]), KeyMatch::Partial);
}

#[test]
fn shorter_binding_preempts_longer_sequence() {
    let mut km = KeyMap::new();
    km.bind(&[k('q')], Action::Quit);
    // a leaf resolves at once, even with keys left over
    assert_eq!(km.match_keys(&[k('q'), k('x')]), KeyMatch::Action(Action::Quit));
}

#[test]
fn unbound_prefix_stays_unbound() {
    let mut km = KeyMap::new();
    km.bind(&[k('d'), k('d')], Action::DeleteLine);
    assert_eq!(km.match_keys(&[k('z')]), KeyMatch::NoMatch);
    assert_eq!(km.match_keys(&[k('z'), k('d')]), KeyMatch::NoMatch);
}

#[test]
fn binding_longer_after_shorter_replaces_leaf() {
    let mut km = KeyMap::new();
    km.bind(&[k('d')], Action::Delete);
    km.bind(&[k('d'), k('d')], Action::DeleteLine);
    // the old one-key leaf gave way to a fresh subtree
    assert_eq!(km.match_keys(&[k('d')]), KeyMatch::Partial);
    assert_eq!(km.match_keys(&[k('d'), k('d')]), KeyMatch::Action(Action::DeleteLine));
}

#[test]
fn binding_shorter_at_populated_node_keeps_children() {
    let mut km = KeyMap::new();
    km.bind(&[k('d'), k('d')], Action::DeleteLine);
    // overwrite semantics: the node keeps its children and drops the action
    km.bind(&[k('d')], Action::Delete);
    assert_eq!(km.match_keys(&[k('d')]), KeyMatch::Partial);
    assert_eq!(km.match_keys(&[k('d'), k('d')]), KeyMatch::Action(Action::DeleteLine));
}

#[test]
fn modifiers_distinguish_keys() {
    let mut km = KeyMap::new();
    km.bind(&[k('q')], Action::Quit);
    let ctrl_q = Key { code: KeyCode::Char('q'), ctrl: true, alt: false };
    assert_eq!(km.match_keys(&[ctrl_q]), KeyMatch::NoMatch);
}
