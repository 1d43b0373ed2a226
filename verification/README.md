# zed-chat-export

Export your [Zed](https://zed.dev) AI conversations to local Markdown files, one per conversation,
with the model, the timestamp, a hash of the content and the git state of the conversation in YAML
frontmatter.

- `src/` is the library, written in Verus: the stored documents, rendering, file names, headers, and
  the decisions of a run. What it promises stands in the contracts; laws that span functions are the
  proof functions whose names begin with `law_`.
- `app/` is the program around it: command line, SQLite, files, workers and progress bars.
- `tests/` runs the library with the real dependencies.

## What the library relies on

The functions marked `external_body` and the `assume_specification` items state what is relied on of
`base64`, `chrono`, `infer`, `serde_yaml`, `sha2`, `slug`, `uuid`, `zstd` and the standard library.
Each has a comment that says what is claimed of the function that it calls.

## Running it again

The header of an exported file gives the thread's identifier, its timestamp, and a hash of the
document that the file was made from. On repeated runs every conversation is looked at. A file that
says that it is as recent as the thread, and that was made from a document with the same hash, is
left alone and the conversation is counted as skipped, unless `--force` is given or
`--include-context` was given for one of the two exports and not for the other. All other
conversations are exported: new ones, those with new messages, and those whose document has changed
in any other way.

Only the first 2048 bytes of a header are read, and only up to a line of three hyphens. So a header
that is longer, or one with a text that holds such a line, hides what stands behind, and so does a
text of several lines that ends in U+2028 or U+2029. Such a conversation is exported on every run.
`readback::has_readable_time`, `has_readable_front` and `is_readable` state what suffices for the
timestamp, for all that decides about an export, and for all of a header to be read back.
