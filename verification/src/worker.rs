//! The worker: from a recording to a text in the history.

use crate::fillers::parse_filler_words;
use crate::state::AppState;
use vstd::prelude::*;

verus! {

/// A recording that is to be transcribed.
pub struct Job {
    pub audio: Vec<u8>,
    pub api_key: String,
    pub filler_words: Vec<String>,
}

/// The contents of a `Job`.
#[verifier::ext_equal]
pub struct JobModel {
    pub audio: Seq<u8>,
    pub api_key: Seq<char>,
    pub filler_words: Seq<Seq<char>>,
}

impl View for Job {
    type V = JobModel;

    open spec fn view(&self) -> JobModel {
        JobModel {
            audio: self.audio@,
            api_key: self.api_key@,
            filler_words: crate::text::views(self.filler_words@),
        }
    }
}

/// What has happened to the worker.
pub enum WorkerEvent {
    /// Some time has passed.
    Tick,
    /// A recording has ended with these encoded bytes.
    Recorded(Vec<u8>),
    /// A transcription has ended with a text or an error message.
    Transcribed(Result<String, String>),
    /// The text was pasted.
    Pasted(String),
}

/// The contents of a `WorkerEvent`.
pub enum EventModel {
    Tick,
    Recorded(Seq<u8>),
    Transcribed(Result<Seq<char>, Seq<char>>),
    Pasted(Seq<char>),
}

impl View for WorkerEvent {
    type V = EventModel;

    open spec fn view(&self) -> EventModel {
        match *self {
            WorkerEvent::Tick => EventModel::Tick,
            WorkerEvent::Recorded(bytes) => EventModel::Recorded(bytes@),
            WorkerEvent::Transcribed(Ok(text)) => EventModel::Transcribed(Ok(text@)),
            WorkerEvent::Transcribed(Err(message)) => EventModel::Transcribed(Err(message@)),
            WorkerEvent::Pasted(text) => EventModel::Pasted(text@),
        }
    }
}

/// What the worker is to do next.
pub enum WorkerAction {
    /// Wait for the next tick.
    Wait,
    /// Record until the record key is let go.
    Record,
    /// Have a recording transcribed.
    Transcribe(Job),
    /// Paste a text.
    Paste(String),
    /// Show the new state and wait for the next tick.
    Repaint,
}

/// The contents of a `WorkerAction`.
pub enum ActionModel {
    Wait,
    Record,
    Transcribe(JobModel),
    Paste(Seq<char>),
    Repaint,
}

impl View for WorkerAction {
    type V = ActionModel;

    open spec fn view(&self) -> ActionModel {
        match *self {
            WorkerAction::Wait => ActionModel::Wait,
            WorkerAction::Record => ActionModel::Record,
            WorkerAction::Transcribe(job) => ActionModel::Transcribe(job@),
            WorkerAction::Paste(text) => ActionModel::Paste(text@),
            WorkerAction::Repaint => ActionModel::Repaint,
        }
    }
}

/// The line of the history that tells of an error.
pub open spec fn error_line(message: Seq<char>) -> Seq<char> {
    "❌ Ошибка: "@ + message
}

/// The state once a recording was dealt with, with `line` added to the history.
pub open spec fn concluded(
    m: crate::state::AppModel,
    line: Option<Seq<char>>,
) -> crate::state::AppModel {
    crate::state::AppModel {
        status: crate::state::waiting_status(),
        history: match line {
            Some(line) => m.history.push(line),
            None => m.history,
        },
        ..m
    }
}

/// The state after an event, and what the worker is to do next.
pub open spec fn after_event(m: crate::state::AppModel, event: EventModel) -> (
    crate::state::AppModel,
    ActionModel,
) {
    match event {
        EventModel::Tick => if m.is_recording {
            (m, ActionModel::Record)
        } else {
            (m, ActionModel::Wait)
        },
        EventModel::Recorded(audio) => if audio.len() > 0 && m.api_key.len() > 0 {
            (
                m,
                ActionModel::Transcribe(
                    JobModel {
                        audio,
                        api_key: m.api_key,
                        filler_words: crate::fillers::listed(m.filler_words),
                    },
                ),
            )
        } else {
            (concluded(m, None), ActionModel::Repaint)
        },
        EventModel::Transcribed(Ok(text)) => if text.len() > 0 {
            (m, ActionModel::Paste(text))
        } else {
            (concluded(m, None), ActionModel::Repaint)
        },
        EventModel::Transcribed(Err(message)) => (
            concluded(m, Some(error_line(message))),
            ActionModel::Repaint,
        ),
        EventModel::Pasted(text) => (concluded(m, Some(text)), ActionModel::Repaint),
    }
}

/// The line of the history that tells of an error.
pub fn error_entry(message: &str) -> (r: String)
    ensures
        r@ == error_line(message@),
        r@ == "❌ Ошибка: "@ + message@,
{
    let mut r: String = "❌ Ошибка: ".to_owned();
    r.append(message);
    r
}

impl AppState {
    /// Ends the work on a recording, with one line for the history or none.
    fn conclude(&mut self, line: Option<String>)
        ensures
            final(self)@ == concluded(old(self)@, crate::state::option_view(line)),
    {
        if let Some(line) = line {
            self.history.push(line);
        }
        self.status = "🟢 Ожидание (Зажмите F9)".to_owned();
        assert(self@ =~= concluded(old(self)@, crate::state::option_view(line)));
    }

    /// Takes in what has happened to the worker and says what it is to do next.
    pub fn step(&mut self, event: WorkerEvent) -> (r: WorkerAction)
        ensures
            (final(self)@, r@) == after_event(old(self)@, event@),
            final(self).is_recording == old(self).is_recording,
            final(self).api_key@ == old(self).api_key@,
            final(self).filler_words@ == old(self).filler_words@,
            event is Tick ==> r is Record == old(self).is_recording && r is Wait
                == !old(self).is_recording,
            event matches WorkerEvent::Recorded(audio) ==> (if audio@.len() > 0
                && old(self).api_key@.len() > 0 {
                &&& r matches WorkerAction::Transcribe(job)
                &&& job.audio@ == audio@
                &&& job.api_key@ == old(self).api_key@
                &&& crate::text::views(job.filler_words@) == crate::fillers::listed(
                    old(self).filler_words@,
                )
            } else {
                r is Repaint
            }),
            event matches WorkerEvent::Transcribed(Ok(text)) ==> (if text@.len() > 0 {
                r matches WorkerAction::Paste(pasted) && pasted@ == text@
            } else {
                r is Repaint
            }),
            event matches WorkerEvent::Transcribed(Err(_)) ==> r is Repaint,
            event is Pasted ==> r is Repaint,
            r is Repaint ==> final(self).status@ == "🟢 Ожидание (Зажмите F9)"@,
            !(r is Repaint) ==> final(self).status@ == old(self).status@,
            crate::text::views(final(self).history@) == match event {
                WorkerEvent::Transcribed(Err(message)) => crate::text::views(
                    old(self).history@,
                ).push("❌ Ошибка: "@ + message@),
                WorkerEvent::Pasted(text) => crate::text::views(old(self).history@).push(text@),
                _ => crate::text::views(old(self).history@),
            },
    {
        match event {
            WorkerEvent::Tick => {
                if self.is_recording {
                    WorkerAction::Record
                } else {
                    WorkerAction::Wait
                }
            },
            WorkerEvent::Recorded(audio) => {
                if audio.len() > 0 && !self.api_key.as_str().is_empty() {
                    let job: Job = Job {
                        audio,
                        api_key: self.api_key.clone(),
                        filler_words: parse_filler_words(self.filler_words.as_str()),
                    };
                    WorkerAction::Transcribe(job)
                } else {
                    self.conclude(None);
                    WorkerAction::Repaint
                }
            },
            WorkerEvent::Transcribed(Ok(text)) => {
                if !text.as_str().is_empty() {
                    WorkerAction::Paste(text)
                } else {
                    self.conclude(None);
                    WorkerAction::Repaint
                }
            },
            WorkerEvent::Transcribed(Err(message)) => {
                let line: String = error_entry(message.as_str());
                self.conclude(Some(line));
                WorkerAction::Repaint
            },
            WorkerEvent::Pasted(text) => {
                self.conclude(Some(text));
                WorkerAction::Repaint
            },
        }
    }
}

/// The contents of events, actions and jobs are what they hold, as it is.
pub proof fn law_contents_of_events(bytes: Vec<u8>, text: String, job: Job)
    ensures
        WorkerEvent::Recorded(bytes)@ == EventModel::Recorded(bytes@),
        WorkerEvent::Transcribed(Ok(text))@ == EventModel::Transcribed(Ok(text@)),
        WorkerEvent::Transcribed(Err(text))@ == EventModel::Transcribed(Err(text@)),
        WorkerEvent::Pasted(text)@ == EventModel::Pasted(text@),
        WorkerAction::Transcribe(job)@ == ActionModel::Transcribe(job@),
        WorkerAction::Paste(text)@ == ActionModel::Paste(text@),
        job@.audio == job.audio@,
        job@.api_key == job.api_key@,
        job@.filler_words.len() == job.filler_words@.len(),
        forall|i: int|
            0 <= i < job.filler_words@.len() ==> #[trigger] job@.filler_words[i]
                == job.filler_words@[i]@,
{
}

/// The worker neither starts nor ends a recording and leaves the settings as
/// they are.
pub proof fn law_worker_keeps_settings(m: crate::state::AppModel, event: EventModel)
    ensures
        after_event(m, event).0.is_recording == m.is_recording,
        after_event(m, event).0.api_key == m.api_key,
        after_event(m, event).0.filler_words == m.filler_words,
{
}

/// The history only grows, by one line at a time.
pub proof fn law_history_grows(m: crate::state::AppModel, event: EventModel)
    ensures
        ({
            let after = after_event(m, event).0.history;
            after == m.history || (after.len() == m.history.len() + 1 && after.drop_last()
                == m.history)
        }),
{
    let after = after_event(m, event).0.history;
    if after != m.history {
        assert(after.drop_last() =~= m.history);
    }
}

/// The history after the whole work on a recording that came as `audio` and was
/// transcribed with `outcome`. The work is spread over time: the state is
/// `at_start` when the recording ends, `at_reply` when the transcription ends and
/// `at_paste` when the text was pasted.
pub open spec fn history_after_work(
    at_start: crate::state::AppModel,
    at_reply: crate::state::AppModel,
    at_paste: crate::state::AppModel,
    audio: Seq<u8>,
    outcome: Result<Seq<char>, Seq<char>>,
) -> Seq<Seq<char>> {
    let (ended, action) = after_event(at_start, EventModel::Recorded(audio));
    if action is Transcribe {
        let (replied, action) = after_event(at_reply, EventModel::Transcribed(outcome));
        match action {
            ActionModel::Paste(text) => after_event(at_paste, EventModel::Pasted(text)).0.history,
            _ => replied.history,
        }
    } else {
        ended.history
    }
}

/// Over the whole work on a recording at most one line is added to the history,
/// and it is never empty. Key events and the settings may change the state
/// meanwhile; the history, which they leave alone, is handed on.
pub proof fn law_one_line_for_a_recording(
    at_start: crate::state::AppModel,
    at_reply: crate::state::AppModel,
    at_paste: crate::state::AppModel,
    audio: Seq<u8>,
    outcome: Result<Seq<char>, Seq<char>>,
)
    requires
        at_reply.history == after_event(at_start, EventModel::Recorded(audio)).0.history,
        at_paste.history == after_event(at_reply, EventModel::Transcribed(outcome)).0.history,
    ensures
        ({
            let after = history_after_work(at_start, at_reply, at_paste, audio, outcome);
            after == at_start.history || exists|line: Seq<char>|
                #![trigger at_start.history.push(line)]
                line.len() > 0 && after == at_start.history.push(line)
        }),
{
    reveal_strlit("❌ Ошибка: ");
    let history = at_start.history;
    match outcome {
        Ok(text) => {
            assert(history.push(text) == history.push(text));
        },
        Err(message) => {
            assert(error_line(message).len() > 0);
            assert(history.push(error_line(message)) == history.push(error_line(message)));
        },
    }
}

/// The worker changes the state only when it is done with a recording, and then
/// it waits for the next one.
pub proof fn law_done_means_waiting(m: crate::state::AppModel, event: EventModel)
    ensures
        after_event(m, event).1 is Repaint ==> after_event(m, event).0.status
            == crate::state::waiting_status(),
        after_event(m, event).1 is Repaint ==> after_event(m, event).0.status
            == "🟢 Ожидание (Зажмите F9)"@,
        !(after_event(m, event).1 is Repaint) ==> after_event(m, event).0 == m,
{
}

/// The work on a recording goes forward and ends: after the recording comes at
/// most the transcription, after that at most the pasting, and then nothing.
pub proof fn law_work_ends(m: crate::state::AppModel, event: EventModel)
    ensures
        event is Tick ==> after_event(m, event).1 is Wait || after_event(m, event).1 is Record,
        event is Recorded ==> after_event(m, event).1 is Transcribe || after_event(
            m,
            event,
        ).1 is Repaint,
        event is Transcribed ==> after_event(m, event).1 is Paste || after_event(
            m,
            event,
        ).1 is Repaint,
        event is Pasted ==> after_event(m, event).1 is Repaint,
{
}

/// A recording is transcribed exactly where there is sound in it and a key to
/// transcribe it with; else nothing is added to the history.
pub proof fn law_what_is_transcribed(m: crate::state::AppModel, audio: Seq<u8>)
    ensures
        after_event(m, EventModel::Recorded(audio)).1 is Transcribe <==> audio.len() > 0
            && m.api_key.len() > 0,
        after_event(m, EventModel::Recorded(audio)).0.history == m.history,
{
}

/// A job holds exactly what was recorded and what is set: every byte of the
/// recording, the key, and the words of the list as it is read.
pub proof fn law_job_holds_the_recording(m: crate::state::AppModel, audio: Seq<u8>)
    requires
        audio.len() > 0,
        m.api_key.len() > 0,
    ensures
        ({
            let (after, action) = after_event(m, EventModel::Recorded(audio));
            &&& after == m
            &&& action matches ActionModel::Transcribe(job)
            &&& job.audio == audio
            &&& job.api_key == m.api_key
            &&& job.filler_words == crate::fillers::listed(m.filler_words)
        }),
{
}

/// A tick starts a recording exactly while the record key is held down, and
/// changes nothing.
pub proof fn law_tick(m: crate::state::AppModel)
    ensures
        after_event(m, EventModel::Tick).0 == m,
        after_event(m, EventModel::Tick).1 is Record <==> m.is_recording,
        after_event(m, EventModel::Tick).1 is Wait <==> !m.is_recording,
{
}

/// The history gets the line of an error, made of the sign and the whole
/// message, and a text that was pasted, as it is; nothing else adds to it.
pub proof fn law_what_the_history_gets(
    m: crate::state::AppModel,
    event: EventModel,
    message: Seq<char>,
    text: Seq<char>,
)
    ensures
        after_event(m, EventModel::Transcribed(Err(message))).0.history == m.history.push(
            "❌ Ошибка: "@ + message,
        ),
        after_event(m, EventModel::Transcribed(Err(message))).1 is Repaint,
        after_event(m, EventModel::Pasted(text)).0.history == m.history.push(text),
        !(event is Pasted) && !(event matches EventModel::Transcribed(Err(_))) ==> after_event(
            m,
            event,
        ).0.history == m.history,
{
}

/// A text is pasted, as it is, exactly where it is not empty.
pub proof fn law_what_is_pasted(m: crate::state::AppModel, text: Seq<char>)
    ensures
        text.len() > 0 ==> after_event(m, EventModel::Transcribed(Ok(text))) == (
            m,
            ActionModel::Paste(text),
        ),
        text.len() == 0 ==> after_event(m, EventModel::Transcribed(Ok(text))).1 is Repaint,
{
}


/// A recognised text goes to the paste and then to the history, unchanged.
pub proof fn law_text_is_pasted_and_kept(m: crate::state::AppModel, text: Seq<char>)
    requires
        text.len() > 0,
    ensures
        ({
            let (pasting, action) = after_event(m, EventModel::Transcribed(Ok(text)));
            let kept = after_event(pasting, EventModel::Pasted(text)).0;
            action == ActionModel::Paste(text) && kept == concluded(m, Some(text))
        }),
{
}

} // verus!
