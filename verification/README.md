# voiceflow

A push-to-talk dictation daemon for the Linux desktop: a clean Alt+Shift tap
(or `voiceflow toggle` on the control socket) starts recording, the speech
model transcribes 560 ms chunks as they arrive, and the final transcript is
pasted and kept in a searchable SQLite history with a statistics page.

## Layout

- `src/` is the library, verified with Verus. It holds the decisions and
  data handling of the program, each with a contract:
  - `hotkey`: the Alt+Shift tap detector as a state machine, with laws that
    relate its state to the history of key events, and the keyboard choice;
  - `asr`, `chunks`, `audio`: which samples reach the speech model, cut into
    full chunks in order, and when the microphone opens and closes;
  - `levels`: the shared recording state and its capped meter history;
  - `store`: stored rows, search patterns with literal `%` and `_`, date
    rows, streaks and the padded daily series;
  - `ui`, `overlay`, `cli`, `inject`, `text`: labels, grouped numbers,
    durations, the chart summary, the preview cut, drag steps, paths,
    command parsing and the text helpers they rest on.
- `app/` is the program around it: the event loops, audio capture, the
  speech model, SQL, the egui windows and everything in floating point.
- `tests/` runs the library on concrete values.
