# falcon

Installable data products behind one program: a cache, a key-value store,
publish/subscribe topics, work queues and event streams, with replication
between regions. The library in `src/` holds everything that decides or
computes, each function with its contract and proof in
[Verus](https://github.com/verus-lang/verus). The program in `app/` reads the
command line, files and sockets, hands plain values to the library and carries
out what comes back.

## The library

| Modules | What they hold |
| --- | --- |
| `config`, `profile`, `feature`, `install`, `cli`, `serve` | settings, products, and what the commands make of them |
| `keyspace`, `expiry`, `bus`, `event`, `hlc` | reads, writes, expiry, change events and their ordering |
| `log`, `writer` | the record format of message logs, and when an append counts as durable |
| `topic`, `queue`, `stream`, `messaging` | topics, work queues and partitioned streams |
| `replication`, `proto` | who follows whom, catching up, forwarding of writes |
| `api`, `rest`, `ws`, `health`, `client` | routes, requests, replies and subscriptions |
| `node`, `named` | what a node is built from |
| `bench` | the checks that a benchmark run has to pass |
| `text`, `bytes`, `broadcast`, `error` | what the others share |

Public proof functions named `law_…` state what holds across functions: that a
replay gives back what was appended, that an acknowledged job does not return,
that a committed offset survives a restart, that regions converge whatever the
order of their writes.

What is taken from outside without proof (text decoding, the clock, the
concurrent map behind expiry, broadcast channels, sorting) is declared next to
its use, with a comment that says what is claimed.

## The program

`app/` opens the storage engines (`falcon_storage`), serves the wire protocol
(`falcon_wire`) and the replication service (`falcon_proto`), and counts into
`falcon_metrics`; these are crates of the same project. The pages of the web UI
are read from `assets/`.
