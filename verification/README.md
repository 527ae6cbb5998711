# midi-does

Maps MIDI controllers to PipeWire volume, mute and routing, shell commands and
MIDI output, and drives the controllers' LEDs, LED rings and scribble strips
from configurable feedback sources.

## Layout

- `src/` — the verified library (Verus). Everything the application decides
  lives here, with contracts:
  - `session.rs`, `navigation.rs`, `editor.rs`, `dispatch.rs`: the session
    state machine. Each user action, MIDI event or PipeWire event is a method
    that updates the session and lists the `Effect`s the application must
    perform, in order.
  - `config.rs`, `normalize.rs`, `device.rs`, `edit.rs`, `software.rs`,
    `ids.rs`, `source.rs`, `actions.rs`: the configuration model and every
    edit of it.
  - `midi.rs`, `feedback.rs`, `pipewire.rs`: MIDI decoding and encoding, MCU
    SysEx, and the bookkeeping of the PipeWire graph (objects, links, routes).
  - `jobs.rs`, `picker.rs`, `ui.rs`: what is evaluated for feedback and
    visuals, and what the editor offers.
  - `laws.rs`: properties that span several operations, proved.
- `tests/` — tests of the library.
- `app/` — the program around the library: the iced GUI, the MIDI ports
  (midir), the PipeWire thread, the tray icon (ksni), the configuration file,
  and the evaluation of feedback sources (floating point and shell commands).
