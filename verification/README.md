# aleo_client

A client for the REST API of Aleo network nodes, verified with Verus.

- `src/` is the verified library: the load balancer over several nodes
  (`load_balancer`, `state`, `strategy`, with the `indexmap` map behind the
  trusted items of `target_map` and the random choice of `random`), the REST
  routes and URLs (`route`, `text`, `network`), block ranges, epochs and
  ledger scans (`blocks`), the retry policy (`retry`), the resolution order of
  program imports (`imports`), the messages of failed broadcasts
  (`broadcast`) and the HTTP client handle (`http_client`).
- `app/` holds the client itself, `AleoRESTClient`: the HTTP requests, the
  shared, locked load balancer, the health-check threads and the `snarkvm`
  types, calling the library for every decision.
- `tests/` exercises the library.
