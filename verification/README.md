# fpy

A terminal frontend for a Python `ipykernel`, with its logic verified by Verus.

- `src/` is the verified library: Jupyter wire framing and signing, the
  mapping of kernel messages to events, the session controller that turns
  kernel events into interface effects, key classification and handling,
  persistent history records and their merging, fuzzy history search
  ranking and layout, transcript and frame rendering, ANSI-aware wrapping,
  and the two terminal backends (the recording backend and the main-screen
  backend that repaints differentially).
- `app/` runs it: command-line parsing, the async event loop, the ZeroMQ
  transport and kernel process, the history files, the raw-mode terminal,
  and the editor widget.
- `tests/` exercises the library through its public interface.
