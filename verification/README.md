# hs_loop

The decision core of an autonomous coding-agent harness, written in Verus:
the rules the loop applies between model calls, tool runs and log writes -
its gates, caps, parsers, read models and bookkeeping - are executable
functions with contracts that Verus proves. The loops that call the model
and run tools in order (the mission loop, the critic's refutation loop)
are outside the library; the library holds their step functions, and the
critic's whole-loop pass rule is proved over its step functions. The
mission loop itself is not part of this crate.

Layout:

- `src/` - the verified library. `text` and `json` hold the string and
  JSON models the rest is stated over (documents parsed by serde_json or
  the toml crate are read through named accessors); `ledger`, `assembler`, `mission`,
  `recall` and `mission_time` are the operator loop's read models and
  decisions; `critic`, `goal`, `repexec`, `editapply`, `mcpbridge` are the
  gates and guardrails around tools; `realmodel` is the model client's
  retry policy; `publication`, `evolve`, `meta_harness` the benchmark and
  self-improvement bookkeeping; `repl`, `sessions`, `config`, `cli` the
  interactive surface's rules. The `law_*` proof functions state the
  properties that span several calls.
- `tests/` - executable tests of the library.
- `app/` - the unverified outside: files, processes, environment,
  floating-point pricing and scoring, and the serde shapes of library
  types. It hands plain values to the library and acts on what comes back.
