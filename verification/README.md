# r3x

A verified library for a Kubernetes desktop client: the analyses and
decisions behind its views (security and RBAC audits, network-policy graphs,
cluster health and overview, image scans, autoscalers, metrics, restart
history, diffs, watchers and port forwards), written in Verus with their
contracts proved.

- `src/` — the library; every function is verified against its contract.
- `tests/` — tests of the library on concrete values.
- `app/` — the commands around it: the API client, processes, streams and
  the figures that are computed in floating point.
