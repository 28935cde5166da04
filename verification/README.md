# warehouse

Warehouse gathers release metadata from upstream projects (Mojang and the Minecraft
server distributions, PaperMC and SpigotMC for proxies, Docker Hub for language runtimes)
and serves it as a few small JSON catalogs that carry version identifiers only.

Layout:

- `src/` is the library, verified with Verus: version identifiers and their order, the
  catalog documents, how each upstream answer becomes part of a catalog, the refresh
  schedule and backoff, the settings read from the environment, and what each route
  answers, including the schema a request may ask for. `src/laws.rs` states properties that span several functions.
- `tests/` runs the library on concrete values.
- `app/` is the service around it: environment, HTTP server, upstream requests, the
  on-disk store and the refresh loop.
