# arka_sdk

A plugin SDK for the PACT compliance protocol, written in Verus: the data model
of events, entities and rules, fluent rule and condition builders, the base
plugin (event mapping, validation, rule creation), canonical JSON, the plugin
registry and the request planning of the PACT Core client, each with a
contract that Verus proves.

- `src/` is the verified library.
  - `json.rs`: JSON values and objects, and canonical JSON (sorted keys).
  - `types.rs`: the protocol's types and their contents.
  - `builder.rs`: condition and rule builders.
  - `plugin.rs`: hooks, the base plugin, entity type inference, validation,
    on-chain bytes and reading them back.
  - `registry.rs`: the plugin registry, its consistency invariant and laws.
  - `table.rs`: the string-to-string table behind the registry.
  - `client.rs`: base URLs, query paths, headers and status classes.
  - `text.rs`: string helpers, code-point order, random ids.
  - `sys.rs`: the calls into chrono, uuid and serde_json (string quoting and
    parsing), with the contracts
    that the library relies on.
- `app/` is the runtime around it: serde forms of the types, the
  `DomainPlugin` trait, a thread-safe registry that runs hooks and delivers
  events to handlers, a global registry, and the async HTTP client.
- `tests/` exercises the library.
