# navmap_pathfinder

Verified A* pathfinding over the navigation map of a game server.

- `src/` is the library. It holds no I/O: where it needs something from the server, it names the
  request and takes the answer as a plain value.
  - `coord`, `direction`: coordinates, distances, the heuristic, steps and packed turf values.
  - `nav_cache`, `probe`, `probe_laws`: what the server published of its turfs, and how the state
    of one turf is found out.
  - `grid`, `grid_laws`: the turfs a search has seen, the steps they allow, and what that means for
    the map behind them.
  - `queue`, `search_model`, `search`, `search_laws`, `search_progress`, `search_runs`: the search,
    why the path it finds is a best route, why it ends, and why a search in slices ends like one
    that never yields.
  - `path`: the shape in which a path is handed out.
  - `request`, `jobs`, `job_laws`, `response`, `error`, `host_value`, `decimal`: what a caller asks
    for and is told, and the searches that wait to be resumed.
- `app/` holds the bindings to the server. They need the server's API at run time.
- `tests/` runs the library on concrete maps and values.
