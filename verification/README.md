# importer_rebike

Imports job postings from an applicant-tracking XML feed into a job database.

- `src/` is the verified library: the feed reader (`xml`, `read`), the
  string map that holds one posting (`strmap`), the job documents built from
  a posting (`job`, `job::def`, `job::slug`, `html`), the configuration
  (`config`), and the std and regex operations they rely on (`text`,
  `patterns`), each with its contract.
- `app/` fetches the feed over HTTP, reads the environment, and writes the
  documents to MongoDB.
- `tests/` runs the library on concrete feeds and postings.
