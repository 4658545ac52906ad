# kotoma

Live bilingual voice transcription in the terminal. Speech is cut into segments,
recognised, translated between English and Japanese, shown in two columns and saved
as a Markdown table.

## Layout

- `src/` is the library: everything that the program decides or computes, verified
  with Verus.
  - `vad`: frames, speech detection and segments
  - `assemble`, `filter`: fragments that become one sentence
  - `msg`, `transcribe`, `time`, `text`: lines, messages, points in time, texts
  - `translate`: prompts, requests, replies and the restarts of the server
  - `audio`: sources, what is opened, mixing and mixdown
  - `app`, `ui`: a session with its events, and the frames it shows
  - `markdown`: the saved document
  - `model`, `presets`, `config_doc`: the catalog, its presets, the configuration
  - `cli`: the command line
- `app/` is the program around it: threads, devices, the server process, files and
  the terminal.
- `tests/` exercises the library through its public functions.

## What is proved

Each public function states what it returns for every input it takes. Beyond that
the library proves, among others, that

- segments are stretches of the audio with ids that count up, none longer than the
  longest length, however the audio was cut into chunks; each holds enough speech or
  has the full length, and speech is dropped only in a burst that is too short;
- a transcript is the recognised lines cut into consecutive runs, each joined in
  order, and a merged line stays within its limit of characters;
- a reply in the wrong language is asked for once more and never becomes an example;
- a resumed document keeps what was there, and saving again replaces the session's
  own block;
- a cell of the table stays one cell, and a line one row;
- the rows by which the screen is laid out are those that wrapping every line again
  would give;
- the picker always holds choices that there are, and scrolling stays in bounds;
- pointing the configuration at a model leaves every other setting as it was; only a
  `translator` that is no table makes room for a section.

What outside crates compute (the voice detector, calendar dates, TOML, JSON, word
wrapping) is called through small functions whose contracts are taken on trust; each
says in its comment which function it calls and what is claimed of it.
