# docpack

Packs a directory tree into a single DOCX document (one heading per file, holding its
relative path, followed by the file's text) and unpacks such a document back into
files. Unpacking gives back each packed file under its path, with `/` separators,
and with exactly its text; a document or directory that already exists is never
overwritten: `_1`, `_2`, ... is appended to the name instead.

The library under `src/` is verified with Verus:

- `text`, `glob`, `ignore`: character helpers, gitignore-style wildcard matching and
  exclude rules.
- `detect`, `encoding`: telling text from binary content and decoding it, with
  `encoding_rs` behind trusted wrappers.
- `docx/`: the document model, the XML it is written as, the styles part, writing
  the archive (`zip`) and reading it back (`zip`, `quick-xml`).
- `pack`, `unpack`: choosing and reading the files of a pack into a document, and
  cutting a document back into files with checked paths.
- `paths`: output names, common parent directories, and the `_1`, `_2`, ...
  alternatives for taken names.
- `platform`, `lang`, `settings`, `cli`, `constants`: registry commands for the
  context menu, interface texts, settings and command values.
- `window`: the decisions of the window (selecting and removing listed inputs,
  the exclude rules and encodings edited in the settings, filling text placeholders).
- `laws`: properties that span several of the above, such as unpacking giving back
  what was packed.

`app/` is the program around it: command line parsing (`clap`), the settings file
(`serde_json`), walking directories (`walkdir`), file and registry I/O, and the
window drawn with `eframe`/`egui`.
