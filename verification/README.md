# cc_switch_omo

The oh-my-opencode (OMO) provider commands of cc-switch, as a Verus-verified
library.

- `src/provider.rs`: providers (identifier and optional category) and their views.
- `src/database.rs`: the provider table and request log, with its invariant
  (unique identifiers per application, at most one current OMO provider per
  category), the table operations, and the laws that relate them.
- `src/omo.rs`: the OMO variants (standard and slim), the commands that read
  and disable the current OMO provider of a category, and their laws; and the
  data of an OMO configuration file built from its text, the JSON parse going
  through `serde_json` behind one trusted wrapper.
- `src/usage.rs`: usage totals over a time window of logged requests.
- `app/lib.rs`: the shell around the library: the shared state behind a lock,
  finding, reading and removing the OMO configuration files on disk, and the reports
  handed to the front end.

The provider table and request log in `src/database.rs` are an in-memory
model of the application's store: nothing is persisted, and no table
operation can fail. The shell keeps one such store behind a lock; the only
fallible step of disabling a provider is removing the configuration file,
which comes after the flags are cleared.
