//! The request to the transcription service, and its reply.

use crate::cleaning::try_clean_text;
use crate::text::is_blank;
use vstd::prelude::*;

verus! {

/// A request to the transcription service: a form of text fields and a file,
/// posted to an address.
pub struct Request {
    pub url: String,
    pub authorization: String,
    /// The names and values of the text fields, in order.
    pub fields: Vec<(String, String)>,
    /// The name of the field that holds the file.
    pub file_field: String,
    pub file_name: String,
    pub mime: String,
    pub audio: Vec<u8>,
}

/// The contents of a `Request`.
#[verifier::ext_equal]
pub struct RequestModel {
    pub url: Seq<char>,
    pub authorization: Seq<char>,
    pub fields: Seq<(Seq<char>, Seq<char>)>,
    pub file_field: Seq<char>,
    pub file_name: Seq<char>,
    pub mime: Seq<char>,
    pub audio: Seq<u8>,
}

impl View for Request {
    type V = RequestModel;

    open spec fn view(&self) -> RequestModel {
        RequestModel {
            url: self.url@,
            authorization: self.authorization@,
            fields: self.fields@.map_values(|f: (String, String)| (f.0@, f.1@)),
            file_field: self.file_field@,
            file_name: self.file_name@,
            mime: self.mime@,
            audio: self.audio@,
        }
    }
}

/// The request that has `audio` transcribed.
pub open spec fn request_for(audio: Seq<u8>, api_key: Seq<char>) -> RequestModel {
    RequestModel {
        url: "https://api.groq.com/openai/v1/audio/transcriptions"@,
        authorization: "Bearer "@ + api_key,
        fields: seq![("model"@, "whisper-large-v3-turbo"@), ("language"@, "ru"@)],
        file_field: "file"@,
        file_name: "speech.flac"@,
        mime: "audio/flac"@,
        audio,
    }
}

/// Makes the request that has `audio` transcribed.
pub fn transcription_request(audio: Vec<u8>, api_key: &str) -> (r: Request)
    ensures
        r@ == request_for(audio@, api_key@),
        r.audio@ == audio@,
        r.authorization@ == "Bearer "@ + api_key@,
        r.url@ == "https://api.groq.com/openai/v1/audio/transcriptions"@,
        r.fields@.len() == 2,
        r.fields@[0].0@ == "model"@ && r.fields@[0].1@ == "whisper-large-v3-turbo"@,
        r.fields@[1].0@ == "language"@ && r.fields@[1].1@ == "ru"@,
        r.file_field@ == "file"@,
        r.file_name@ == "speech.flac"@,
        r.mime@ == "audio/flac"@,
{
    let mut authorization: String = "Bearer ".to_owned();
    authorization.append(api_key);
    let mut fields: Vec<(String, String)> = Vec::new();
    fields.push(("model".to_owned(), "whisper-large-v3-turbo".to_owned()));
    fields.push(("language".to_owned(), "ru".to_owned()));
    let r: Request = Request {
        url: "https://api.groq.com/openai/v1/audio/transcriptions".to_owned(),
        authorization,
        fields,
        file_field: "file".to_owned(),
        file_name: "speech.flac".to_owned(),
        mime: "audio/flac".to_owned(),
        audio,
    };
    assert(r@.fields =~= request_for(audio@, api_key@).fields);
    r
}

/// The request carries the whole recording and the whole key, and any two
/// requests differ in nothing else: the address, the form's text fields, and the
/// name and kind of the file are always the same.
pub proof fn law_request(
    audio: Seq<u8>,
    api_key: Seq<char>,
    other_audio: Seq<u8>,
    other_key: Seq<char>,
)
    ensures
        ({
            let r = request_for(audio, api_key);
            let other = request_for(other_audio, other_key);
            &&& r.audio == audio
            &&& r.authorization == "Bearer "@ + api_key
            &&& r.url == "https://api.groq.com/openai/v1/audio/transcriptions"@
            &&& r.fields == seq![("model"@, "whisper-large-v3-turbo"@), ("language"@, "ru"@)]
            &&& r.url == other.url
            &&& r.fields == other.fields
            &&& r.file_field == other.file_field
            &&& r.file_name == other.file_name
            &&& r.mime == other.mime
        }),
{
}

/// What `serde_json` reads of a JSON text: the string that the given field of
/// its object holds, if there is one, or why the bytes are no JSON text.
pub uninterp spec fn json_string_field(body: Seq<u8>, field: Seq<char>) -> Result<
    Option<Seq<char>>,
    Seq<char>,
>;

/// The contents of what was read of a reply.
pub open spec fn field_view(r: Result<Option<String>, String>) -> Result<
    Option<Seq<char>>,
    Seq<char>,
> {
    match r {
        Ok(Some(s)) => Ok(Some(s@)),
        Ok(None) => Ok(None),
        Err(message) => Err(message@),
    }
}

/// `serde_json::from_slice` into a `serde_json::Value`, the value's member
/// `field`, and `Value::as_str` of that: what comes out depends on the bytes and
/// the name of the field alone.
#[verifier::external_body]
fn read_string_field(body: &[u8], field: &str) -> (r: Result<Option<String>, String>)
    ensures
        field_view(r) == json_string_field(body@, field@),
{
    match serde_json::from_slice::<serde_json::Value>(body) {
        Ok(value) => Ok(value[field].as_str().map(|s| s.to_string())),
        Err(e) => Err(e.to_string()),
    }
}

/// Why a reply gives no text.
#[derive(Debug)]
pub enum ReplyError {
    /// It is no JSON text; the message says where and why.
    Malformed(String),
    /// A filler word cannot be taken out of its text.
    Uncleanable,
}

/// The contents of a `ReplyError`.
pub enum ReplyErrorModel {
    Malformed(Seq<char>),
    Uncleanable,
}

impl View for ReplyError {
    type V = ReplyErrorModel;

    open spec fn view(&self) -> ReplyErrorModel {
        match *self {
            ReplyError::Malformed(message) => ReplyErrorModel::Malformed(message@),
            ReplyError::Uncleanable => ReplyErrorModel::Uncleanable,
        }
    }
}

/// What the user is told of a reply that gives no text: of one that is no JSON
/// text, that it cannot be decoded. Where a filler word cannot be taken out,
/// nothing can be told: the work cannot go on.
pub open spec fn told_of(e: ReplyErrorModel) -> Option<Seq<char>> {
    match e {
        ReplyErrorModel::Malformed(_) => Some("error decoding response body"@),
        ReplyErrorModel::Uncleanable => None,
    }
}

impl ReplyError {
    /// The message that the user is shown, if the work can go on with one.
    pub fn shown_text(&self) -> (r: Option<String>)
        ensures
            crate::state::option_view(r) == told_of(self@),
            self is Malformed ==> r is Some && r->0@ == "error decoding response body"@,
            self is Uncleanable ==> r is None,
    {
        match self {
            ReplyError::Malformed(_) => Some("error decoding response body".to_owned()),
            ReplyError::Uncleanable => None,
        }
    }
}

/// The contents of a text or of the reason why there is none.
pub open spec fn reply_view(r: Result<String, ReplyError>) -> Result<Seq<char>, ReplyErrorModel> {
    match r {
        Ok(text) => Ok(text@),
        Err(e) => Err(e@),
    }
}

/// The contents of a result are those of the text or of the reason, as they are.
pub proof fn law_contents_of_results(text: String, message: String, e: ReplyError)
    ensures
        reply_view(Ok(text)) == Ok::<Seq<char>, ReplyErrorModel>(text@),
        reply_view(Err(e)) == Err::<Seq<char>, ReplyErrorModel>(e@),
        ReplyError::Malformed(message)@ == ReplyErrorModel::Malformed(message@),
        ReplyError::Uncleanable@ == ReplyErrorModel::Uncleanable,
        field_view(Ok(Some(text))) == Ok::<Option<Seq<char>>, Seq<char>>(Some(text@)),
        field_view(Ok(None)) == Ok::<Option<Seq<char>>, Seq<char>>(None),
        field_view(Err(message)) == Err::<Option<Seq<char>>, Seq<char>>(message@),
{
}

/// The text that comes of what the service has recognised: nothing where it has
/// recognised nothing but whitespace, else the cleaned text.
pub open spec fn transcript_of(recognised: Option<Seq<char>>, words: Seq<Seq<char>>) -> Option<
    Seq<char>,
> {
    match recognised {
        Some(text) => if crate::text::trim(text).len() == 0 {
            Some(Seq::empty())
        } else {
            crate::cleaning::cleaned(text, words)
        },
        None => Some(Seq::empty()),
    }
}

/// The text that comes of what was read of a reply.
pub open spec fn outcome_of(
    read: Result<Option<Seq<char>>, Seq<char>>,
    words: Seq<Seq<char>>,
) -> Result<Seq<char>, ReplyErrorModel> {
    match read {
        Ok(recognised) => match transcript_of(recognised, words) {
            Some(text) => Ok(text),
            None => Err(ReplyErrorModel::Uncleanable),
        },
        Err(message) => Err(ReplyErrorModel::Malformed(message)),
    }
}

/// Makes the text that comes of what was read of a reply.
pub fn interpret_reply(
    read: Result<Option<String>, String>,
    filler_words: &[String],
) -> (r: Result<String, ReplyError>)
    ensures
        reply_view(r) == outcome_of(field_view(read), crate::text::views(filler_words@)),
        read matches Ok(Some(text)) ==> (if exists|i: int|
            0 <= i < text@.len() && !crate::text::is_white(#[trigger] text@[i]) {
            match r {
                Ok(s) => crate::cleaning::cleaned(text@, crate::text::views(filler_words@)) == Some(
                    s@,
                ),
                Err(e) => e is Uncleanable && crate::cleaning::cleaned(
                    text@,
                    crate::text::views(filler_words@),
                ) is None,
            }
        } else {
            r is Ok && r->Ok_0@.len() == 0
        }),
        read matches Ok(None) ==> r is Ok && r->Ok_0@.len() == 0,
        read matches Err(message) ==> (r matches Err(ReplyError::Malformed(kept)) && kept@
            == message@),
        r matches Ok(s) ==> crate::cleaning::is_spaced(s@) && crate::cleaning::cleaned(
            s@,
            Seq::empty(),
        ) == Some(s@),
        r matches Ok(s) ==> s@.len() == 0 || s@.last() == '.' || s@.last() == '!' || s@.last()
            == '?',
{
    match read {
        Ok(Some(text)) => {
            proof {
                crate::text::law_trim_to_nothing(text@);
                crate::cleaning::law_empty_text_stays();
            }
            if is_blank(text.as_str()) {
                return Ok(String::new());
            }
            match try_clean_text(text.as_str(), filler_words) {
                Some(cleaned) => Ok(cleaned),
                None => Err(ReplyError::Uncleanable),
            }
        },
        Ok(None) => {
            proof {
                crate::cleaning::law_empty_text_stays();
            }
            Ok(String::new())
        },
        Err(message) => Err(ReplyError::Malformed(message)),
    }
}

/// Makes the text that comes of the body of a reply.
pub fn process_reply(body: &[u8], filler_words: &[String]) -> (r: Result<String, ReplyError>)
    ensures
        reply_view(r) == outcome_of(
            json_string_field(body@, "text"@),
            crate::text::views(filler_words@),
        ),
        r matches Ok(s) ==> crate::cleaning::is_spaced(s@) && crate::cleaning::cleaned(
            s@,
            Seq::empty(),
        ) == Some(s@),
        json_string_field(body@, "text"@) matches Ok(Some(text)) ==> (if exists|i: int|
            0 <= i < text.len() && !crate::text::is_white(#[trigger] text[i]) {
            match r {
                Ok(s) => crate::cleaning::cleaned(text, crate::text::views(filler_words@)) == Some(
                    s@,
                ),
                Err(e) => e is Uncleanable && crate::cleaning::cleaned(
                    text,
                    crate::text::views(filler_words@),
                ) is None,
            }
        } else {
            r is Ok && r->Ok_0@.len() == 0
        }),
        json_string_field(body@, "text"@) matches Ok(None) ==> r is Ok && r->Ok_0@.len() == 0,
        json_string_field(body@, "text"@) is Err ==> r is Err && r->Err_0 is Malformed,
{
    interpret_reply(read_string_field(body, "text"), filler_words)
}

/// Where the service has recognised nothing, or nothing but whitespace, no
/// filler word matters and no text comes of it: nothing is pasted, and nothing
/// is added to the history.
pub proof fn law_nothing_recognised(
    recognised: Option<Seq<char>>,
    words: Seq<Seq<char>>,
    m: crate::state::AppModel,
)
    requires
        recognised matches Some(text) ==> forall|i: int|
            0 <= i < text.len() ==> crate::text::is_white(#[trigger] text[i]),
    ensures
        outcome_of(Ok(recognised), words) == Ok::<Seq<char>, ReplyErrorModel>(Seq::empty()),
        crate::worker::after_event(
            m,
            crate::worker::EventModel::Transcribed(Ok(Seq::empty())),
        ).1 is Repaint,
        crate::worker::after_event(
            m,
            crate::worker::EventModel::Transcribed(Ok(Seq::empty())),
        ).0.history == m.history,
{
    if let Some(text) = recognised {
        crate::text::law_trim_to_nothing(text);
    }
}

/// A recognised text with anything but whitespace in it is always cleaned,
/// whatever it begins or ends with: a text comes of it exactly where it can be
/// cleaned, and that text is the cleaned one.
pub proof fn law_recognised_text_is_cleaned(text: Seq<char>, words: Seq<Seq<char>>)
    requires
        exists|i: int| 0 <= i < text.len() && !crate::text::is_white(#[trigger] text[i]),
    ensures
        outcome_of(Ok(Some(text)), words) == match crate::cleaning::cleaned(text, words) {
            Some(s) => Ok::<Seq<char>, ReplyErrorModel>(s),
            None => Err(ReplyErrorModel::Uncleanable),
        },
{
    crate::text::law_trim_to_nothing(text);
}

/// A listed word that stands once between spaces in a plain text does not reach
/// the text that comes of a reply, wherever it is in the list: what comes is what
/// would have come without it.
pub proof fn law_filler_does_not_reach_the_text(
    before: Seq<char>,
    found: Seq<char>,
    after: Seq<char>,
    words: Seq<Seq<char>>,
    i: int,
)
    requires
        crate::cleaning::lowers_plain_texts(),
        crate::unicode::is_plain_text(before),
        crate::unicode::is_plain_text(found),
        crate::unicode::is_plain_text(after),
        0 <= i < words.len(),
        crate::unicode::lowered(found) == crate::unicode::lowered(words[i]),
        forall|n: int|
            0 <= n < words.len() ==> crate::unicode::is_plain_text(#[trigger] words[n]) && forall|
                k: int,
            |
                0 <= k < words[n].len() ==> !crate::text::is_white(#[trigger] words[n][k]),
        forall|n: int|
            0 <= n < words.len() ==> !crate::text::has_part(
                crate::unicode::lowered(before + seq![' '] + after),
                seq![' '] + crate::unicode::lowered(#[trigger] words[n]) + seq![' '],
            ),
    ensures
        outcome_of(Ok(Some(before + seq![' '] + found + seq![' '] + after)), words) == outcome_of(
            Ok(Some(before + seq![' '] + after)),
            Seq::empty(),
        ),
{
    let text = before + seq![' '] + found + seq![' '] + after;
    let rest = before + seq![' '] + after;
    crate::cleaning::law_listed_word_is_taken_out(before, found, after, words, i);
    crate::cleaning::law_cleaning_one_after_another(rest, Seq::empty(), Seq::empty());
    crate::text::law_trim_to_nothing(text);
    crate::text::law_trim_to_nothing(rest);
    if crate::text::trim(rest).len() == 0 {
        crate::cleaning::law_blank_text_is_no_sentence(rest);
    }
    if crate::text::trim(text).len() == 0 {
        assert forall|k: int| 0 <= k < rest.len() implies crate::text::is_white(
            #[trigger] rest[k],
        ) by {
            if k <= before.len() {
                assert(rest[k] == text[k]);
            } else {
                assert(rest[k] == text[k + found.len() + 1]);
            }
        }
    }
}

/// A text that comes of a reply has its words one space apart and stays as it is
/// when it is cleaned again without filler words. The premise is what
/// `char::to_uppercase` gives for every character that is no whitespace.
pub proof fn law_text_of_a_reply_stays(
    read: Result<Option<Seq<char>>, Seq<char>>,
    words: Seq<Seq<char>>,
)
    requires
        forall|c: char|
            !crate::text::is_white(c) ==> crate::unicode::is_settled(
                #[trigger] crate::unicode::uppercase(c),
            ),
    ensures
        outcome_of(read, words) matches Ok(s) ==> {
            &&& crate::cleaning::is_spaced(s)
            &&& crate::cleaning::cleaned(s, Seq::empty()) == Some(s)
        },
{
    crate::cleaning::law_empty_text_stays();
    if let Ok(Some(text)) = read {
        if let Some(rest) = crate::cleaning::strip_words(text, words) {
            let c = crate::cleaning::collapsed(rest);
            crate::cleaning::law_collapsed(rest);
            if c.len() > 0 {
                assert(!crate::text::is_white(c[0]));
            }
        }
        crate::cleaning::law_cleaned_text_stays(text, words);
    }
}

/// A reply that is no JSON text adds one line to the history, the same for every
/// such reply, and nothing is pasted.
pub proof fn law_malformed_reply_is_shown(
    message: Seq<char>,
    words: Seq<Seq<char>>,
    m: crate::state::AppModel,
)
    ensures
        outcome_of(Err(message), words) == Err::<Seq<char>, _>(ReplyErrorModel::Malformed(message)),
        told_of(ReplyErrorModel::Malformed(message)) matches Some(text) && crate::worker::after_event(
            m,
            crate::worker::EventModel::Transcribed(Err(text)),
        ) == (
            crate::worker::concluded(
                m,
                Some("❌ Ошибка: "@ + "error decoding response body"@),
            ),
            crate::worker::ActionModel::Repaint,
        ),
{
}

/// A text that comes of a reply is empty or ends a sentence.
pub proof fn law_text_ends_sentence(
    read: Result<Option<Seq<char>>, Seq<char>>,
    words: Seq<Seq<char>>,
)
    ensures
        outcome_of(read, words) matches Ok(text) ==> text.len() == 0
            || crate::cleaning::ends_sentence(text.last()),
{
}

} // verus!
