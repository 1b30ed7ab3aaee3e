# lyrico

The logic of the Lyrico desktop music tagger, verified with Verus, and the
application code around it.

- `src/` is the verified library: the LRC reader and writer, lyric format
  detection, documents from structured plugin lyric results (with a compact
  JSON writer for their values), metadata matching (search queries, result fields, what a match
  may write, the edit distance behind the similarity scores), the tag plans
  for reading and writing audio files, library scanning order, batch task
  preparation, plugin installation rules, and the host API that plugin
  scripts call. Calls into outside crates (regex, base64, md-5, aes/ecb,
  flate2, image, lofty, serde_json) go through small trusted wrappers whose
  contracts name or state their results.
- `app/` performs what the library cannot: file and database I/O (lofty,
  rusqlite, walkdir, zip), the QuickJS engine and HTTP requests of plugins
  (rquickjs, reqwest), the floating-point similarity scores, and the
  serialisable copies of the library's records (serde).
- `tests/` exercises the library on concrete values.
