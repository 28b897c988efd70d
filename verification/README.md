# snif

A repository-aware code review agent. It reads a change, assembles context
within a token budget, runs one structured review through a chat-completion
model, filters what comes back, and posts the surviving findings with stable
fingerprints so that reruns do not churn comments.

## Layout

- `src/` is the library, written in Verus. Every function there carries a
  contract that Verus proves: diff and response parsing, the context budget
  and prompt trimming, the retry decisions of a model request and the
  reduced-request retries, the chunking of files for embedding, finding filters and
  fingerprints, the review summary, evaluation scoring and history guidance,
  co-change counting, and the extraction of imports, symbols and references
  from tree-sitter query matches.
- Calls into other crates (`sha2`, `chrono`, `anyhow`, `tree-sitter` and its
  grammars) sit behind small trusted wrappers whose contracts are stated in
  their doc comments.
- `app/` is the command line around the library: configuration files, HTTP
  calls to the model and the code hosts, file system access, the evaluation
  harness's floating-point metrics and its history file.
- `tests/` exercises the library on concrete inputs.

## What this build leaves out

The index store (SQLite with vector search), the embedding model and the
summarizer are not part of this build. So `snif review` assembles context
from the diff and the changed files only, with no retrieved related files;
`snif index` parses the repository, plans the graph and the chunks and
reads the co-change history, then stops without persisting anything; and
`snif warm-embeddings` reports that no embedding model is available. The
library still holds the decisions those parts take (chunk planning, graph
planning, co-change counting, the embedding load-error classification and
the missing-embedding check).
