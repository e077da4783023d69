# mosec

The argument handling and routing core of the MOSEC model-serving HTTP front,
written in Verus.

- `src/endpoint.rs`: routes and the socket file name of each stage of a route.
- `src/args.rs`: the service options, their validation, and how batch sizes
  and waits are split per route.
- `src/coordinator.rs`: the settings and per-stage plan of one route's pipeline.
- `src/service.rs`: the status and body of each HTTP reply.
- `src/text.rs`: decimal rendering and character-level helpers.
- `app/`: the program around the library: command-line parsing, logging,
  socket directories and the HTTP server.
