# seclab-suite-runtime

SDK through which a SecLab suite backend talks to the Agent's trusted runtime
API: it reads the v1 runtime descriptor, checks the instance's identity and
capabilities, authenticates with the instance token over a Unix socket or
mutual-TLS HTTPS, manages named TCP/UDP multi-endpoint workloads with
whole-workload traffic capture, and submits semantic operation events.

Layout:

- `src/` is the verified library (Verus). It holds the data model and every
  check and decision, each with its contract:
  - `descriptor`: schema v1 rules, capability and identity checks;
  - `operation_logs`: the operation-context header, the event builder, event
    validation, sensitive parameter keys and error-summary redaction;
  - `client`: descriptor authorization, the instance token, request URLs,
    status classes, the submission of an event (its retry policy and the
    one event that every attempt sends) and Agent errors;
  - `workloads`: workload wire data and Agent routes;
  - `types`: outcome, impact, target and the parameter map, kept in key order;
  - `text`: the character-level model (Unicode white space, trimming, ASCII
    case folding, search, UTF-8 length) that the others are stated over.
- `app/` is the asynchronous client around it: file and environment reads,
  the `reqwest` transport, JSON wire forms (`serde`) and the SDK error type.
- `tests/` runs the library on concrete values.
