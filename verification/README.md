# claw-rag-service

Retrieval over a workspace: files are cut into chunks, chunks get embeddings, both are kept in
`SQLite`, and a query is answered with the chunks nearest to it by cosine similarity. A Qdrant
collection can stand in for the scan.

`src/` is the library. It decides and computes, and is verified with Verus, but for the calls into
other crates. Trusted are four small functions that make such calls (`status_is_success` in `embed`,
`text_object`, `object_payload` and `payload_text` in `payload`), three types of `serde_json` and
`qdrant-client` that are declared and not looked into, and two names for the fields of JSON objects
and payloads (`object_fields`, `payload_fields`). What is believed of each stands above it.

| module | what it holds |
|---|---|
| `binary32` | single-precision numbers by their bits, and which of two is larger |
| `db` | the statements that the store is asked, and what its rows mean |
| `embed` | the embedding configuration, the request, the course of its reply, the bytes of mock vectors |
| `search` | the ranking of rows, snippets, and the course of a query |
| `qdrant_index` | the course of a search and of an upsert in the vector database |
| `payload` | the few calls into `serde_json` and `qdrant-client` that point payloads need |
| `text` | searching, trimming and printing text |

What takes several replies from outside (a query, an embedding request, a search, an upsert) is a
run: it starts with a state and an action, and each step takes what came of the action to the next
state and action. `app/` performs the actions: it opens the database file, talks to the network,
reads the environment and does the floating point arithmetic. It asks the vector database only where
it is built with the feature `qdrant-index`.

Vectors and scores pass through the library as the 32 bits of each number.

`tests/` run the library, with a real `SQLite` database where statements are concerned.
