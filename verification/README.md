# kovre

A declarative backup orchestrator for Windows machines: jobs in
`kovre.yaml` name a repository and either a template (user folders,
git repositories, Steam saves, Thunderbird, browser profiles, AppData)
or explicit paths, and run against a rustic repository (deduplicated,
encrypted snapshots) or a versioned mirror (a browsable copy with a
`.versions/` archive). A local dashboard starts runs and restores and
browses backups.

## Layout

- `src/` — the verified library (Verus). Configuration validation, the
  mirror's decisions (what to copy, archive, rename, prune, restore),
  the naming of archived versions, snapshot selection and retention
  tallies, template resolution from what was found on the machine, the
  dashboard's request policies, and the command line's tables. Paths
  are read as Windows paths component by component (`win_path`), so
  joining, ordering and comparing them follows `std::path` on Windows. Calls
  into `globset`, `sha2`, `jiff`, `lithair-core` and `getrandom` sit
  behind small unverified wrappers whose assumed contracts are documented where
  they are declared.
- `tests/` — tests of the library.
- `app/` — the program around it: command-line parsing, reading the
  configuration file, walking and copying files, the rustic and Windows
  calls, and the dashboard server.
