# deep_index_board

The verified core of Deep Index Board, a clipboard history tool: it records
copied text, images, files and folders, extracts text from images (OCR) and
text files, keeps CLIP embeddings for semantic image search, and pastes items
back.

## Layout

- `src/` — the library, verified with Verus:
  - `text.rs`, `paths.rs` — character sequences, trimming, line splitting,
    Unix path components, extensions, joining;
  - `capture.rs`, `monitor.rs` — content hashes, image file names, PNG
    encoding of bitmaps, text previews, and what the clipboard monitor and the
    embedding scan decide;
  - `store.rs`, `history.rs` — the SQL statements of the history database and
    the decisions the commands take on history items;
  - `scheduler.rs` — the priority queues of the heavy-work manager;
  - `sessions.rs` — the registry of loaded model sessions;
  - `tokenizer.rs` — the character tokenizer of the CLIP text encoder;
  - `regions.rs`, `ocr.rs` — connected regions of the text detector's map,
    reading order, the recogniser's output layout, CTC collapsing and the
    character dictionary;
  - `quick_window.rs`, `platform.rs`, `tasks.rs`, `utils.rs` — small
    decisions of the quick window, platform defaults, task results, process
    memory.
- `tests/` — tests of the library on concrete values.
- `app/` — the Tauri program around the library: commands, the clipboard
  monitor, the background workers, the model runtimes (ONNX Runtime, Core ML)
  and the platform code. The floating-point image and score arithmetic lives
  there too.
