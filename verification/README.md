# GlideWin

GlideWin is a voice assistant that lives in a small desktop widget. It listens, looks at the screen,
answers aloud, and lets an agent act on the PC with a handful of tools.

- `src/` is the library, verified with Verus: cutting text into sentences and pages into plain text,
  WAV files, the recording and its transcript, the stream of an answer, the requests and replies of
  the services, the agent's tools and skills, the conversation, the widget's shortcut. The laws
  that hold of them stand beside them as public proof functions.
- `tests/` runs the library on concrete values.
- `app/` is the application around it: the window, the microphone, the loudspeaker, the network and
  the file system. Besides the crates of the library it builds on `tauri` and its plugins, `cpal`,
  `rodio` and `xcap`.

What is taken on trust stands in the library as functions whose bodies call another crate or the
standard library: `hound` in `wav`, `base64` in `image`, `serde_json` in `json` and `skills`, and
two functions of `String` in `text`.
