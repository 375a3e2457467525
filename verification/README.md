# swtcon

A software timing controller for the e-paper panel of the reMarkable 2, verified with
Verus. It drives the panel through `/dev/fb0`: waveform files say how a pixel gets
from one gray level to another, and the controller writes the commands, phase by
phase, into a ring of framebuffer slots that the panel is panned through.

## Layout

`src/` is the library. It does no I/O, and every item of it is verified.

| Module          | What it holds                                                          |
|-----------------|------------------------------------------------------------------------|
| `wbf`           | Parser for waveform files: header, indirections, run-length code.      |
| `waveform`      | Packs a file's tables by mode, temperature and phase.                  |
| `strip_encoder` | Encodes 8 pixels into the low half of a cell.                          |
| `fb`            | What a slot holds when nothing is driven, and the geometry of the ring. |
| `update`        | Update messages and when they are valid.                               |
| `slots`         | Encoding a phase into a slot, clearing it, committing a message.       |
| `runtime`       | The state that both sides share.                                       |
| `generator`     | The side that fills slots, as a step machine.                          |
| `vsync`         | The side that pans through them, as a step machine.                    |
| `system`        | Both sides and the slots together, and what holds of every run.        |
| `progress`      | That the sides neither block each other nor run forever.               |
| `swtcon`        | The front: modes, rectangles, messages, temperature, INIT clear.       |
| `sensor`        | The temperature sensor's name and text.                                |
| `text`, `bytes` | Numbers as text, and numbers in bytes.                                 |

`app/` is ordinary Rust around it: the framebuffer device, the two threads, the
files. It runs the step machines and performs what they ask for.

## What is proved

- The parser and the tables: every command of a file ends up at its phase and pixel
  pair; errors come exactly where they are described.
- Encoding writes the commands of a message and nothing else; clearing undoes it.
- Whatever the order of steps, messages are encoded in the order in which they were
  submitted, each from what the ones before it left on the panel; a drained flush
  means that all of them are done.
- In every run the generator fills only clean slots, a slot keeps its contents until it
  is shown, and the two sides never touch one slot at the same time.
- The panel is panned only while it is unblanked, and blanked when there has been
  nothing to drive for the blank delay.
- The sides do not wait for each other, and end after a shutdown request.
