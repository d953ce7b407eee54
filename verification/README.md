# spectra

An OSINT investigation toolkit whose core is verified with Verus.

- `src/` is the verified library: the entity and observation model, the
  tamper-evident audit chain and its canonical JSON, transform plans and
  their ordering, fragment import decisions, report texts, probe decisions,
  requests and extraction, WhatsMyName probe generation, plugin manifests,
  sandbox checks and signatures, the collectors' outputs, and the reading of
  AI answers. Each public function states its result in `ensures`; the laws
  that relate several functions are public proof functions named `law_*`.
- `app/` is the program around it: the `spectra-probe-gen` command line,
  HTTP, DNS, WHOIS and SQLite I/O, the async orchestrator and probe engine,
  PDF and DOCX layout, serde copies of the library's types, and the
  floating-point scoring (identity correlation, embeddings).
- `tests/` exercises the library from outside.
