# text_editor

A small terminal text editor whose editing logic is a library verified with
Verus, and a thin program around it.

- `src/text.rs`: the text model. A text is a sequence of characters; a
  position is a character index, its byte offset is the length of the UTF-8
  encoding before it; rows and columns are counted between newlines. Also the
  executable scans over texts held as `Vec<char>`.
- `src/editor_model.rs`: the editor's abstract state (`EditorModel`) and what
  every operation does to it, with the laws that relate operations (undo after
  an edit, delete after insert, cursor/position round trip, ...).
- `src/editor.rs`: the executable `Editor`, `StatusLog` and `SelectWindow`;
  every operation is proved to act as its model says and to keep the invariant.
- `src/snapshot_controller.rs`: the undo/redo history.
- `src/input.rs`: what a key press does, and what the main loop does next.
- `src/terminal_controller.rs`, `src/text_buffer.rs`: the screen sections and
  a fixed window of a file.
- `app/`: the program: reading and saving the file, the terminal (through
  crossterm) and the event loop.
