# codesearch

The core of a code-search server: the registry of repositories and what is open, indexed and
watched; the chunk store and its metadata; authentication; telemetry, metrics and the views of
a dashboard and a terminal. Every decision is a verified function of the library under `src/`;
`app/` does the I/O around it.

## Layout

| module | what it holds |
| --- | --- |
| `text`, `order` | texts, numbers in decimal, and orders on them |
| `telemetry` | latency samples, percentiles, series |
| `net`, `auth`, `paths` | hosts and URLs, API keys, containment of paths |
| `config` | repositories, groups, peers |
| `state`, `lifecycle` | the state of a server: opening, caching, evicting |
| `handlers`, `removal`, `symbols` | reindexing, adding, removing, recovering, symbol rebuilds |
| `status`, `board`, `info` | what is told about repositories |
| `metadata`, `chunks`, `store` | `metadata.json`, chunks, transactions of the vector store |
| `exposition`, `grammar` | the scrape format, and which texts are of it |
| `metrics`, `scrape`, `dashboard` | what a scrape tells, that it is of the format, the health API |
| `stamps`, `tui`, `startup` | the live view and the start of a server |

The server never blocks inside the library: where outside work is needed (a file, a database
transaction, a watcher, a request to a peer), a function returns what is to be done and a later
one takes the outcome.

Laws that relate several functions are the public proof functions whose names begin with
`law_`. Functions marked `external_body`, and `assume_specification` items, state what is taken
from outside crates without proof; each says so in its comment.
