# wispr_flow_helper

The native helper of a voice-dictation application on Linux: it pastes dictated
text into the focused window, presses keys, tells which application has the focus,
reads the selected text and streams key presses for push-to-talk.

The helper is two crates. `src/` is a library written in Verus: everything that is
decided, with contracts and proofs. `app/` is the program around it, in ordinary Rust:
it reads, writes, waits, and asks the desktop, and hands what comes back to the
library.

## The library

| Module | What it holds |
| --- | --- |
| `proto` | frames, envelopes, and the reading of messages |
| `json` | JSON documents, read and written by `serde_json` |
| `text` | operations on texts |
| `dispatch` | what is answered to each request |
| `ipc` | the writer of messages, and barriers between them |
| `input_device` | events as bytes, the identity of the helper's own keyboard, modifiers that are held |
| `keymap` | from keys of devices to Windows virtual-key codes |
| `capture` | the stream of key presses, from X11 or from the devices, and the keys that are held |
| `backend` | what every backend offers, and how focus changes become events |
| `backend::uinput` | key chords on a virtual keyboard |
| `backend::walk` | the bounded search through accessible objects |
| `backend::atspi_app`, `backend::gnome`, `backend::kwin` | the focus on any desktop, on GNOME and on KDE |
| `backend::atspi_sel` | the selected text |
| `backend::wl_clipboard` | owning the Wayland clipboard |
| `backend::stub` | a backend that does nothing |

Work that alternates between waiting and deciding is a state machine: it says what
to do next and takes how that went. Statements that relate several functions stand
beside them as proof functions whose names begin with `law_`.

What is believed and not proved is stated at each item that makes an outside call: the
JSON parser and printer, the lossy decoding of bytes, the X flag of repeating keys, and
the appending of a character to a text.
