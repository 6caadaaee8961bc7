# CardMind

CardMind turns AI conversations into connected knowledge cards: a
conversation is imported, a local rule-based extractor (or OpenAI, when an
API key is configured) proposes cards and relations, the user confirms the
preview, and the cards form a graph that can be searched, edited, merged and
exported as Markdown.

The library in `src/` is written in Verus and verified: every public
function carries a contract over the views of its values, and `laws.rs`
proves what holds across operations (a read gives back what was written,
deleting or merging a card leaves no relation that touches it, lists are
newest first, and so on).

- `repository.rs`: the tables (conversations, cards, relations, the model
  setting) with the schema's guarantees as a type invariant, and every
  operation on them.
- `extractor.rs`, `sample.rs`: the local extractor and the sample data.
- `openai.rs`: the decisions around the OpenAI extractor; the HTTP exchange
  is made by the caller.
- `search.rs`, `export.rs`, `merge.rs`, `backups.rs`: search with SQLite
  `LIKE` semantics, Markdown export, merging, the backup list.
- `normalize.rs`, `text.rs`, `tables.rs`, `confidence.rs`, `codec.rs`, `ids.rs`:
  the text, ordering, number and storage rules these are built on.

`app/` holds what cannot be verified: the SQLite file, the HTTP calls, the
credential store, the file system, and the JSON shapes of the user interface.
