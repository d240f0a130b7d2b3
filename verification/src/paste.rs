//! Pasting a text into the window that has the keyboard.

use vstd::prelude::*;

verus! {

/// A key of the paste shortcut.
#[derive(Clone, Copy, PartialEq, Eq, Structural, Debug)]
pub enum PasteKey {
    ControlLeft,
    V,
}

/// One step of pasting.
pub enum PasteStep {
    /// Put a text on the clipboard, if there is one.
    SetClipboard(String),
    /// Wait for some milliseconds.
    Sleep(u64),
    /// Press a key.
    Press(PasteKey),
    /// Let go of a key.
    Release(PasteKey),
}

/// The contents of a `PasteStep`.
pub enum StepModel {
    SetClipboard(Seq<char>),
    Sleep(u64),
    Press(PasteKey),
    Release(PasteKey),
}

impl View for PasteStep {
    type V = StepModel;

    open spec fn view(&self) -> StepModel {
        match *self {
            PasteStep::SetClipboard(text) => StepModel::SetClipboard(text@),
            PasteStep::Sleep(millis) => StepModel::Sleep(millis),
            PasteStep::Press(key) => StepModel::Press(key),
            PasteStep::Release(key) => StepModel::Release(key),
        }
    }
}

/// The steps that paste `text`: none for an empty text.
pub open spec fn pasting(text: Seq<char>) -> Seq<StepModel> {
    if text.len() == 0 {
        Seq::empty()
    } else {
        seq![
            StepModel::SetClipboard(text),
            StepModel::Sleep(150),
            StepModel::Press(PasteKey::ControlLeft),
            StepModel::Press(PasteKey::V),
            StepModel::Sleep(20),
            StepModel::Release(PasteKey::V),
            StepModel::Release(PasteKey::ControlLeft),
        ]
    }
}

/// The steps that paste `text`, in order.
pub fn paste_steps(text: &str) -> (r: Vec<PasteStep>)
    ensures
        r@.map_values(|s: PasteStep| s@) == pasting(text@),
        text@.len() == 0 <==> r@.len() == 0,
        text@.len() > 0 ==> {
            &&& r@.len() == 7
            &&& r@[0] matches PasteStep::SetClipboard(set)
            &&& set@ == text@
            &&& r@[1] == PasteStep::Sleep(150)
            &&& r@[2] == PasteStep::Press(PasteKey::ControlLeft)
            &&& r@[3] == PasteStep::Press(PasteKey::V)
            &&& r@[4] == PasteStep::Sleep(20)
            &&& r@[5] == PasteStep::Release(PasteKey::V)
            &&& r@[6] == PasteStep::Release(PasteKey::ControlLeft)
        },
{
    let mut r: Vec<PasteStep> = Vec::new();
    if !text.is_empty() {
        r.push(PasteStep::SetClipboard(text.to_owned()));
        r.push(PasteStep::Sleep(150));
        r.push(PasteStep::Press(PasteKey::ControlLeft));
        r.push(PasteStep::Press(PasteKey::V));
        r.push(PasteStep::Sleep(20));
        r.push(PasteStep::Release(PasteKey::V));
        r.push(PasteStep::Release(PasteKey::ControlLeft));
    }
    assert(r@.map_values(|s: PasteStep| s@) =~= pasting(text@));
    r
}

/// Pasting puts the whole text on the clipboard, first of all and only then, and
/// goes on in the same way for any two texts; only for the empty text there is
/// nothing to do.
pub proof fn law_whole_text_is_pasted(text: Seq<char>, other: Seq<char>)
    ensures
        pasting(text).len() == 0 <==> text.len() == 0,
        text.len() > 0 ==> pasting(text)[0] == StepModel::SetClipboard(text),
        text.len() > 0 && other.len() > 0 ==> pasting(text).drop_first() == pasting(
            other,
        ).drop_first(),
        forall|i: int| 0 < i < pasting(text).len() ==> !(#[trigger] pasting(
            text,
        )[i] is SetClipboard),
{
    if text.len() > 0 && other.len() > 0 {
        assert(pasting(text).drop_first() =~= pasting(other).drop_first());
    }
}

/// The keys that are held down after some steps, in the order in which they
/// were pressed. `None` where a key was let go that was not the last one pressed.
pub open spec fn held(steps: Seq<StepModel>) -> Option<Seq<PasteKey>>
    decreases steps.len(),
{
    if steps.len() == 0 {
        Some(Seq::empty())
    } else {
        match (held(steps.drop_last()), steps.last()) {
            (Some(keys), StepModel::Press(key)) => Some(keys.push(key)),
            (Some(keys), StepModel::Release(key)) => if keys.len() > 0 && keys.last() == key {
                Some(keys.drop_last())
            } else {
                None
            },
            (before, _) => before,
        }
    }
}

/// Pasting lets go of every key that it presses, the last one first, and leaves
/// none held down.
pub proof fn law_keys_are_released(text: Seq<char>)
    ensures
        held(pasting(text)) == Some(Seq::<PasteKey>::empty()),
{
    reveal_with_fuel(held, 8);
    let steps = pasting(text);
    if text.len() > 0 {
        let s6 = steps.drop_last();
        let s5 = s6.drop_last();
        let s4 = s5.drop_last();
        let s3 = s4.drop_last();
        let s2 = s3.drop_last();
        let s1 = s2.drop_last();
        assert(held(s2) == Some(Seq::<PasteKey>::empty()));
        assert(held(s4) == Some(seq![PasteKey::ControlLeft, PasteKey::V])) by {
            assert(held(s3) == Some(seq![PasteKey::ControlLeft])) by {
                assert(Seq::<PasteKey>::empty().push(PasteKey::ControlLeft) =~= seq![
                    PasteKey::ControlLeft,
                ]);
            }
            assert(seq![PasteKey::ControlLeft].push(PasteKey::V) =~= seq![
                PasteKey::ControlLeft,
                PasteKey::V,
            ]);
        }
        assert(seq![PasteKey::ControlLeft, PasteKey::V].drop_last() =~= seq![
            PasteKey::ControlLeft,
        ]);
        assert(seq![PasteKey::ControlLeft].drop_last() =~= Seq::<PasteKey>::empty());
    }
}

} // verus!
