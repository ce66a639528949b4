# beview

Verified decision logic of an interview-preparation workbench (applications,
resumes, mock-interview drills, reviews and a calendar feed), written in Verus.

- `src/` — the library, every function verified against its contract:
  - `application_service` — the forward-only application status machine;
  - `answer_flow` — the streamed answer protocol (probe metadata, report
    section) and the live sentinel filter;
  - `context_manager` — layered session context assembly within token budgets;
  - `jobs`, `job_queue` — the AI job and batch job registries, and the life of
    persisted background jobs (claims, retries, dead letters, purging);
  - `settings`, `routes::settings` — LLM configuration resolution, legacy
    migration, validation of submitted entries and document edits;
  - `memory_model` — the review rating scale, the interval decision and the
    grouping of review logs;
  - `skill_query`, `skill_service` — skill subtree queries, domain mapping,
    seeded presets, subtree statistics, the capability matrix and tag merges;
  - `routes::turn`, `routes::drill_setup`, `routes::drills` — one interview
    turn (action, answered question, closing, instruction, grading report),
    opening a drill (title, dossier selection and filling), messages,
    transcripts and dossier matching;
  - `routes::*` (others) — request rules of accounts, applications, rounds and
    the overall analysis record, resumes and their versions, questions,
    skills, personas, batches, export, calendar feed and reviews, companies
    and positions, and the application overview of the insights analysis;
  - `json`, `text`, `random_id`, `clock` — the JSON model (parsed and printed
    by serde_json), character-level text primitives, random identifiers
    (rand, hex) and the local clock (chrono).
- `tests/` — tests run against the compiled library.
- `app/` — the runtime around the library: the FSRS model (floating point),
  shared registries with their event stream and guarded background tasks,
  serde wire types, and date handling.
