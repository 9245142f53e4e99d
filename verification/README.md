# ferrum_edge

The verified core of the Ferrum edge gateway, written in Verus.

- `src/` is the library. Its functions are verified against their
  `requires`/`ensures` contracts, stated over spec functions on `Seq`, `Map`
  and the views of the data types. The calls into other crates and into std
  that vstd does not specify go through small trusted wrappers marked
  `#[verifier::external_body]`, each with a doc comment saying what it claims:
  `RouteTableCell` and `route_table_cell_*` (arc-swap), `path_cache_*`
  (dashmap), `sha256_digest` (sha2), `hex_encode` (hex), `uri_authority`
  (http), `parse_yaml_document` / `parse_json_document` /
  `json_value_from_serde` (serde_yaml, serde_json), `to_lowercase` and
  `file_extension` (std), and the specification of `Duration::from_secs`.
  - `router_cache` — host and path routing (exact host, wildcard host,
    catch-all; longest listen path first), the bounded lookup cache and its
    surgical invalidation, with the routing laws.
  - `config` — the configuration model, connection pool settings, file
    format and version detection, listen path validation, schema migrations.
  - `service_discovery` — comparing and merging discovered targets, and
    planning which discovery tasks run.
  - `plugins::access_control` — IP and consumer allow/deny decisions.
  - `dns`, `http3`, `grpc`, `url`, `ipv4` — the decisions of the DNS cache, the
    HTTP/3 client and listener, and the control plane client.
  - `json`, `parse`, `text` — JSON values, number/flag parsing and character
    helpers that the above are stated with.
- `app/` is the program around it: file, network and database I/O, async
  tasks, serde copies of the configuration types.
- `tests/` runs the library on concrete values.

Two parts of the gateway are not here. The control-plane subscription client
(connect, subscribe, reconnect every 5 seconds) needs tonic and the generated
`proto` module, which this project does not include; its header, TLS server
name and client identity decisions are in `grpc::dp_client`. The initial
schema migration's `up` needs its SQL dialect builder, also not included; its
identity and checksum are in `config::migrations`.
