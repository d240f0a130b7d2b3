# VoiceAI

Push-to-talk dictation. While F9 is held down the microphone is recorded; when
it is let go the recording goes to a transcription service, filler words are
taken out of the text, and the text is pasted into the window that has the
keyboard and kept in a history. F12 leaves the application.

The settings come from the environment or a `.env` file: `GROQ_API_KEY`, and
`FILLER_WORDS`, a list separated by commas.

- `src/` is the library, verified with Verus:
  - `cleaning`: taking out filler words and making a sentence of the rest;
  - `fillers`: the list of filler words;
  - `search`, `text`, `unicode`: texts by bytes and by characters;
  - `state`, `worker`: what the application remembers, and what key events and
    the steps of the worker do to it;
  - `transcription`: the request to the service and the text of its reply;
  - `audio`: framing, resampling and encoding of a recording;
  - `paste`, `indicator`: the steps of pasting, and how the status is shown.
- `app/` is the application around it: window, keyboard, microphone, network. It
  reads the microphone with `cpal` 0.15, which is to be added to the
  dependencies where the application is built.
- `tests/` holds the tests of the library.

A filler word is taken out where it first stands between two spaces, letter case
aside, and one space is left in its place. While it stands anywhere in what is
left, as many bytes again are cut out at that same offset: of repetitions right
behind the first one nothing stays, but where other words stand between, they are
cut instead. A text out of which a cut would take part of a character is refused.
