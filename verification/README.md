# hlusra

A meeting recorder: it records the screen and audio of a meeting, keeps a
library of recordings, transcribes them with Whisper, and answers questions
about a meeting from the most relevant parts of its transcript.

`src/` is the verified library, checked with Verus:

- `chunker` splits a transcript into chunks of roughly `chunk_size` tokens,
  with the partition and token-budget laws of the greedy grouping;
- `embeddings` puts returned embeddings back in input order (a stable sort by
  their `index`) and checks their count and length;
- `sse` frames a server-sent event stream into lines, independently of how the
  bytes arrive, and reads each line; `chat` holds the chat client's decisions;
- `prompt` builds the chat messages with the transcript excerpts;
- `export` builds the FFmpeg command lines and the SRT and PDF text;
- `library` names meetings, maps statuses to their stored names and back, and
  keeps the prepared recordings;
- `recorder`, `settings`, `transcription` and `rag` hold the encoder choice,
  the settings and their repair, the Whisper model catalogue and selection,
  and the vector store's decisions;
- `text` and `ids` are the character-level building blocks, the random
  identifiers and the clock.

`app/` is the rest, in ordinary Rust: the SQLite databases, the files of each
meeting, the HTTP clients, GStreamer, whisper.cpp and FFmpeg.

`tests/` exercises the library from outside.
