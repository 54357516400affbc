# sondamente

Preregistered probes for philosophy-of-mind claims about language models.
A probe states a claim, at least two rival hypotheses about it, and what
each hypothesis predicts for a metric under named conditions. The validator
refuses a probe on which no possible result could favor one hypothesis over
another. A locked probe records the SHA-256 hash of its canonical content
(the JSON of what it says, without the lock itself); validation reports any
mismatch with the hash of its content now, so a change to what the probe
says is detected as far as SHA-256 tells contents apart.

## Layout

- `src/` is the library, verified with Verus.
  - `number.rs`: the numbers a spec states, held as IEEE-754 binary64 bit
    patterns, and their comparison.
  - `spec.rs`: the probe format; expectations and the intervals they accept.
  - `text.rs`, `messages.rs`: text primitives and the text of each diagnostic.
  - `hash.rs`: the preregistration hash over a spec's canonical content.
  - `validate.rs`: the checks and the report, each with an exact contract.
  - `laws.rs`: what a report says, and when (the crucial-condition rule among them).
  - `run.rs`: the decisions of a run over several files: the lines printed for
    each spec, and the exit status (2 if a file could not be read or parsed,
    else 1 if a spec had errors, else 0).
- `app/` is the command-line program: argument handling, YAML parsing, the
  canonical JSON content that is hashed, reading files and printing.
- `tests/` exercises the library on concrete specs.
