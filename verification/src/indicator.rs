//! How the status is shown.

use crate::search::contains;
use vstd::prelude::*;

verus! {

/// What the application is doing, as the window shows it.
#[derive(Clone, Copy, PartialEq, Eq, Structural, Debug)]
pub enum Indicator {
    Recording,
    Processing,
    Ready,
}

/// The colour of a status.
#[derive(Clone, Copy, PartialEq, Eq, Structural, Debug)]
pub enum Light {
    Red,
    Yellow,
    Green,
}

/// What a status line tells: a recording where it speaks of one, else
/// processing where it speaks of that, else readiness.
pub open spec fn told_by(status: Seq<char>) -> Indicator {
    if crate::text::has_part(status, "Запись"@) {
        Indicator::Recording
    } else if crate::text::has_part(status, "Обработка"@) {
        Indicator::Processing
    } else {
        Indicator::Ready
    }
}

impl Indicator {
    /// Reads a status line.
    pub fn of_status(status: &str) -> (r: Indicator)
        ensures
            r == told_by(status@),
            r == Indicator::Recording <==> exists|a: Seq<char>, b: Seq<char>|
                status@ == #[trigger] (a + "Запись"@ + b),
            r == Indicator::Ready ==> !exists|a: Seq<char>, b: Seq<char>|
                status@ == #[trigger] (a + "Обработка"@ + b),
            r == Indicator::Processing ==> exists|a: Seq<char>, b: Seq<char>|
                status@ == #[trigger] (a + "Обработка"@ + b),
    {
        if contains(status, "Запись") {
            Indicator::Recording
        } else if contains(status, "Обработка") {
            Indicator::Processing
        } else {
            Indicator::Ready
        }
    }

    /// The colour that the status is shown in.
    pub fn light(self) -> (r: Light)
        ensures
            r == match self {
                Indicator::Recording => Light::Red,
                Indicator::Processing => Light::Yellow,
                Indicator::Ready => Light::Green,
            },
    {
        match self {
            Indicator::Recording => Light::Red,
            Indicator::Processing => Light::Yellow,
            Indicator::Ready => Light::Green,
        }
    }

    /// The sign that the floating widget shows.
    pub fn icon(self) -> (r: &'static str)
        ensures
            r@ == match self {
                Indicator::Recording => "🔴"@,
                Indicator::Processing => "⚙️"@,
                Indicator::Ready => "🟢"@,
            },
    {
        match self {
            Indicator::Recording => "🔴",
            Indicator::Processing => "⚙️",
            Indicator::Ready => "🟢",
        }
    }

    /// The words that the floating widget shows.
    pub fn label(self) -> (r: &'static str)
        ensures
            r@ == match self {
                Indicator::Recording => "Запись..."@,
                Indicator::Processing => "Обработка..."@,
                Indicator::Ready => "Готов (F9)"@,
            },
    {
        match self {
            Indicator::Recording => "Запись...",
            Indicator::Processing => "Обработка...",
            Indicator::Ready => "Готов (F9)",
        }
    }

    /// Tells whether the words of the widget are emphasised: all but those of
    /// readiness are.
    pub fn is_strong(self) -> (r: bool)
        ensures
            r == (self != Indicator::Ready),
    {
        match self {
            Indicator::Ready => false,
            _ => true,
        }
    }
}

/// A status line tells of a recording exactly where it holds the word for that,
/// whatever stands around it, and of processing where it holds the word for that
/// and not the other.
pub proof fn law_what_a_status_tells(status: Seq<char>, a: Seq<char>, b: Seq<char>)
    ensures
        told_by(a + "Запись"@ + b) == Indicator::Recording,
        told_by(a + "Обработка"@ + b) != Indicator::Ready,
        told_by(status) == Indicator::Recording ==> exists|x: Seq<char>, y: Seq<char>|
            status == #[trigger] (x + "Запись"@ + y),
        told_by(status) == Indicator::Processing ==> exists|x: Seq<char>, y: Seq<char>|
            status == #[trigger] (x + "Обработка"@ + y),
{
    crate::text::law_has_part(a + "Запись"@ + b, "Запись"@);
    crate::text::law_has_part(a + "Обработка"@ + b, "Обработка"@);
    crate::text::law_has_part(status, "Запись"@);
    crate::text::law_has_part(status, "Обработка"@);
}

proof fn lemma_recording_status()
    ensures
        told_by(crate::state::recording_status()) == Indicator::Recording,
{
    reveal_strlit("🔴 Запись...");
    reveal_strlit("Запись");
    let s = crate::state::recording_status();
    assert(s.subrange(2, 8) =~= "Запись"@);
    assert(crate::text::part_at(s, "Запись"@, 2));
}

proof fn lemma_processing_status()
    ensures
        told_by(crate::state::processing_status()) == Indicator::Processing,
{
    reveal_strlit("⚙ Обработка...");
    reveal_strlit("Запись");
    reveal_strlit("Обработка");
    let s = crate::state::processing_status();
    assert forall|i: int| !crate::text::part_at(s, "Запись"@, i) by {
        if crate::text::part_at(s, "Запись"@, i) {
            assert(s.subrange(i, i + 6)[0] == 'З');
            assert(s[i] == 'З');
        }
    }
    assert(s.subrange(2, 11) =~= "Обработка"@);
    assert(crate::text::part_at(s, "Обработка"@, 2));
}

proof fn lemma_waiting_status()
    ensures
        told_by(crate::state::waiting_status()) == Indicator::Ready,
        told_by(crate::state::initial_status()) == Indicator::Ready,
{
    reveal_strlit("🟢 Ожидание (Зажмите F9)");
    reveal_strlit("Ожидание (Зажмите F9)");
    reveal_strlit("Запись");
    reveal_strlit("Обработка");
    let s = crate::state::waiting_status();
    let t = crate::state::initial_status();
    assert forall|i: int| !crate::text::part_at(s, "Запись"@, i) by {
        if crate::text::part_at(s, "Запись"@, i) {
            assert(s.subrange(i, i + 6)[2] == 'п');
            assert(s[i + 2] == 'п');
        }
    }
    assert forall|i: int| !crate::text::part_at(s, "Обработка"@, i) by {
        if crate::text::part_at(s, "Обработка"@, i) {
            assert(s.subrange(i, i + 9)[1] == 'б');
            assert(s[i + 1] == 'б');
        }
    }
    assert forall|i: int| !crate::text::part_at(t, "Запись"@, i) by {
        if crate::text::part_at(t, "Запись"@, i) {
            assert(t.subrange(i, i + 6)[2] == 'п');
            assert(t[i + 2] == 'п');
        }
    }
    assert forall|i: int| !crate::text::part_at(t, "Обработка"@, i) by {
        if crate::text::part_at(t, "Обработка"@, i) {
            assert(t.subrange(i, i + 9)[1] == 'б');
            assert(t[i + 1] == 'б');
        }
    }
}

/// A key event that starts a recording makes the window show a recording, and
/// one that ends it makes the window show processing.
pub proof fn law_keys_are_shown(m: crate::state::AppModel, event: crate::state::KeyEvent)
    ensures
        ({
            let (after, effect) = crate::state::after_key(m, event);
            effect == crate::state::KeyEffect::Repaint ==> told_by(after.status) == (
            if after.is_recording {
                Indicator::Recording
            } else {
                Indicator::Processing
            })
        }),
{
    lemma_recording_status();
    lemma_processing_status();
}

/// Whenever the worker is done with a recording, and when the application
/// begins, the window shows readiness.
pub proof fn law_done_is_shown_as_ready(
    m: crate::state::AppModel,
    event: crate::worker::EventModel,
    api_key: Option<Seq<char>>,
    filler_words: Option<Seq<char>>,
)
    ensures
        crate::worker::after_event(m, event).1 is Repaint ==> told_by(
            crate::worker::after_event(m, event).0.status,
        ) == Indicator::Ready,
        told_by(crate::state::initial_model(api_key, filler_words).status) == Indicator::Ready,
{
    lemma_waiting_status();
}

} // verus!
