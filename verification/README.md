# PulseAgent

PulseAgent collects host metrics and logs, takes them through a small pipeline
of processors and ships them to a PulseBoard workspace. Its logic is a library
verified with [Verus](https://github.com/verus-lang/verus); what touches the
operating system is a thin program around it.

## Layout

- `src/` is the library. Every function in it is proved to meet its contract.
  - `config`, `lint`, `enrollment`, `config_poller`: the configuration, what is
    wrong with it, how the agent gets its credentials, and how a configuration
    overlay is verified and merged.
  - `sources`: what the sources' inputs (`/proc` files, `docker` and
    `journalctl` output, log lines, OTLP and Prometheus payloads, event XML)
    come to as signals.
  - `processors`, `pipeline`, `web`: relabelling, transforms, the cardinality
    guard, redaction and batching; their order; what the live debugger shows.
  - `targets`, `payload`: the requests that ship a batch. `otlp`: what is
    shipped as OTLP is what the receiver reads.
  - `signal`, `strmap`, `fingerprint`, `json`, `tomltree`, `pattern`, `clock`,
    `text`, `number`, `path`, `tail`: what these are made of.
- `tests/` runs the library.
- `app/` is the program: arguments, files, sockets, subprocesses and timers.

## Trust

Calls into other crates (`regex`, `serde_json`, `toml`, `chrono`, `dashmap`,
`hmac`, `sha2`, `base64`, `prometheus-parse`) and a few into the standard
library stand behind functions marked `external_body`. Their contracts are
believed, not proved; each says in its comment what it claims. What a call
returns goes by the name of a spec function without a body where it rests on
the arguments alone, so that the contracts above it can be exact.

Numbers are kept as their sources gave them (`signal::Reading`); doubles are
made of them only where they are sent out.
