//! The editor's command vocabulary: every discrete operation the editor can
//! run, including composite and repeated forms.

use vstd::prelude::*;
use crate::mode::ModeType;
use crate::point::Direction;

verus! {

/// A discrete editor command.
#[derive(PartialEq, Eq, Debug)]
pub enum Action {
    BackwardDelete,
    Cancel,
    ChangeMode(ModeType),
    Delete,
    DeleteLine,
    Insert(char),
    NewLine,
    NewLineAtPoint,
    MoveCursor(Direction),
    NewBuffer,
    NextBuffer,
    /// Sentinel meaning "more keys needed" while in the middle of a key
    /// sequence such as `yy`. It is never executed.
    PartialKey,
    Paste,
    PrevBuffer,
    RepeatPrevious,
    Replace(char),
    Save,
    Quit,
    YankLine,
    /// Several actions in a row.
    Multi(Vec<Action>),
    /// The same action `n` times.
    Repeat(Box<Action>, usize),
}

/// Mathematical model of an `Action`, with sequences in place of vectors.
pub enum ActionV {
    BackwardDelete,
    Cancel,
    ChangeMode(ModeType),
    Delete,
    DeleteLine,
    Insert(char),
    NewLine,
    NewLineAtPoint,
    MoveCursor(Direction),
    NewBuffer,
    NextBuffer,
    PartialKey,
    Paste,
    PrevBuffer,
    RepeatPrevious,
    Replace(char),
    Save,
    Quit,
    YankLine,
    Multi(Seq<ActionV>),
    Repeat(Box<ActionV>, usize),
}

impl View for Action {
    type V = ActionV;

    open spec fn view(&self) -> ActionV
        decreases self,
    {
        match self {
            Action::BackwardDelete => ActionV::BackwardDelete,
            Action::Cancel => ActionV::Cancel,
            Action::ChangeMode(m) => ActionV::ChangeMode(*m),
            Action::Delete => ActionV::Delete,
            Action::DeleteLine => ActionV::DeleteLine,
            Action::Insert(c) => ActionV::Insert(*c),
            Action::NewLine => ActionV::NewLine,
            Action::NewLineAtPoint => ActionV::NewLineAtPoint,
            Action::MoveCursor(d) => ActionV::MoveCursor(*d),
            Action::NewBuffer => ActionV::NewBuffer,
            Action::NextBuffer => ActionV::NextBuffer,
            Action::PartialKey => ActionV::PartialKey,
            Action::Paste => ActionV::Paste,
            Action::PrevBuffer => ActionV::PrevBuffer,
            Action::RepeatPrevious => ActionV::RepeatPrevious,
            Action::Replace(c) => ActionV::Replace(*c),
            Action::Save => ActionV::Save,
            Action::Quit => ActionV::Quit,
            Action::YankLine => ActionV::YankLine,
            Action::Multi(actions) => ActionV::Multi(view_actions(actions@)),
            Action::Repeat(a, n) => ActionV::Repeat(Box::new((**a)@), *n),
        }
    }
}

impl DeepView for Action {
    type V = ActionV;

    open spec fn deep_view(&self) -> ActionV {
        self.view()
    }
}

/// The views of a sequence of actions, element by element.
pub open spec fn view_actions(s: Seq<Action>) -> Seq<ActionV>
    decreases s, s.len(),
{
    if s.len() == 0 {
        Seq::empty()
    } else {
        seq![s[0]@] + view_actions(s.drop_first())
    }
}

/// `view_actions` maps the view over the sequence.
pub proof fn lemma_view_actions(s: Seq<Action>)
    ensures
        view_actions(s).len() == s.len(),
        forall|i: int| 0 <= i < s.len() ==> view_actions(s)[i] == s[i]@,
    decreases s.len(),
{
    if s.len() > 0 {
        lemma_view_actions(s.drop_first());
        assert(view_actions(s) == seq![s[0]@] + view_actions(s.drop_first()));
        assert forall|i: int| 0 <= i < s.len() implies view_actions(s)[i] == s[i]@ by {
            if i > 0 {
                assert(s.drop_first()[i - 1] == s[i]);
                assert(view_actions(s)[i] == view_actions(s.drop_first())[i - 1]);
            }
        }
    } else {
        assert(view_actions(s) =~= Seq::<ActionV>::empty());
    }
}

/// A composite of two actions.
pub fn multi2(a1: Action, a2: Action) -> (r: Action)
    ensures
        r@ == ActionV::Multi(seq![a1@, a2@]),
{
    let ghost g1 = a1@;
    let ghost g2 = a2@;
    let mut v: Vec<Action> = Vec::new();
    v.push(a1);
    v.push(a2);
    proof {
        lemma_view_actions(v@);
        assert(view_actions(v@) =~~= seq![g1, g2]);
    }
    Action::Multi(v)
}

/// A composite of three actions.
pub fn multi3(a1: Action, a2: Action, a3: Action) -> (r: Action)
    ensures
        r@ == ActionV::Multi(seq![a1@, a2@, a3@]),
{
    let ghost g1 = a1@;
    let ghost g2 = a2@;
    let ghost g3 = a3@;
    let mut v: Vec<Action> = Vec::new();
    v.push(a1);
    v.push(a2);
    v.push(a3);
    proof {
        lemma_view_actions(v@);
        assert(view_actions(v@) =~~= seq![g1, g2, g3]);
    }
    Action::Multi(v)
}

/// An owned copy of an action, equal to the original in its model.
#[verifier::loop_isolation(false)]
pub fn clone_action(a: &Action) -> (r: Action)
    ensures
        r@ == a@,
    decreases a,
{
    match a {
        Action::BackwardDelete => Action::BackwardDelete,
        Action::Cancel => Action::Cancel,
        Action::ChangeMode(m) => Action::ChangeMode(*m),
        Action::Delete => Action::Delete,
        Action::DeleteLine => Action::DeleteLine,
        Action::Insert(c) => Action::Insert(*c),
        Action::NewLine => Action::NewLine,
        Action::NewLineAtPoint => Action::NewLineAtPoint,
        Action::MoveCursor(d) => Action::MoveCursor(*d),
        Action::NewBuffer => Action::NewBuffer,
        Action::NextBuffer => Action::NextBuffer,
        Action::PartialKey => Action::PartialKey,
        Action::Paste => Action::Paste,
        Action::PrevBuffer => Action::PrevBuffer,
        Action::RepeatPrevious => Action::RepeatPrevious,
        Action::Replace(c) => Action::Replace(*c),
        Action::Save => Action::Save,
        Action::Quit => Action::Quit,
        Action::YankLine => Action::YankLine,
        Action::Multi(actions) => {
            let mut res: Vec<Action> = Vec::new();
            let mut i: usize = 0;
            while i < actions.len()
                invariant
                    i <= actions@.len(),
                    res@.len() == i,
                    forall|j: int| 0 <= j < i ==> res@[j]@ == actions@[j]@,
                decreases actions@.len() - i,
            {
                proof {
                    assert(decreases_to!(*a => *actions));
                    assert(decreases_to!(*actions => actions@[i as int]));
                }
                res.push(clone_action(&actions[i]));
                i = i + 1;
            }
            proof {
                lemma_view_actions(res@);
                lemma_view_actions(actions@);
                assert(view_actions(res@) =~~= view_actions(actions@));
            }
            Action::Multi(res)
        }
        Action::Repeat(inner, n) => Action::Repeat(Box::new(clone_action(inner)), *n),
    }
}

} // verus!
