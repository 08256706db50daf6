# lclt_translator

The core of a desktop workbench that translates the JSON text files of a game
with a chat-completion provider, verified with Verus.

- `src/` — the verified library: JSON documents and paths into them, the
  strategies that decide which files and fields are translated, delta
  detection against already translated files, terminology substitution,
  batching, request and reply handling, workspace configuration and the task
  state. Contracts are stated over mathematical models (`Seq`, views of the
  documents); the laws of the library are public proof functions
  (`lemma_read_after_write`, `lemma_plan_covers_each_unit_once`,
  `lemma_plan_batches_sound`, `lemma_sort_by_priority_orders`,
  `lemma_merge_keeps_and_completes`, `lemma_log_stays_bounded`,
  `lemma_normalize_rel_path_settles`, `lemma_write_back_in_list`,
  `lemma_extracted_paths_distinct`, `lemma_user_message_parses_back`, ...).
- `tests/` — tests of the library on concrete values.
- `app/` — the unverified shell: file and network access, serde forms of the
  library's types, the asynchronous task runner and the commands of the user
  interface.
