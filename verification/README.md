# grape_vector_db

The verified core of an embedded and distributed vector database, written
in Verus. The functions under `src/` carry contracts that Verus proves, but
for the small wrappers marked `external_body` that call std or an outside
crate: their contracts are stated from the documentation and trusted.

- `enterprise`: roles, permissions, users, API keys, session tokens, the
  audit log and the authentication manager.
- `distributed`: Raft (`raft`, `consensus`), consistent hashing and shard
  layout (`shard`, `shard_planning`), cluster membership and repair
  (`cluster`, `cluster_service`), failure detection and recovery
  (`failover`), replication policies (`replication`), load balancing and
  request routing (`load_balancer`, `request_router`) and the node-to-node
  messages (`network`, `network_client`).
- `filtering`, `filter_index`, `filter_documents`, `filter_engine`,
  `sql_filter`: the filter set algebra, the per-field index of document
  texts, true/false values and number handles, the indexing of JSON-like
  documents leaf by leaf, the evaluation of filter expressions, and the
  conversion of SQL WHERE conditions into filters.
- `index`, `vector_slots`: index settings and optimisation rules, and the
  bookkeeping of the vector indexes (ids, positions, dimension, packing
  after a removal, the integer side of k-means and product quantisation).
- `hybrid`, `metrics`, `embedded`, `embeddings`, `config`, `errors`: query
  analysis, counters, the embedded database's lifecycle, the embedding
  providers' decisions, settings and error texts.
- `text`, `clock`, `random`, `types`: shared helpers and identifiers.

`app/` holds what the library leaves to its caller: HTTP clients, wire
formats with serde derives, floating-point computations (embedding
vectors, number comparisons and locations in filters, the load balancer's
weights, score fusion, metrics), and the timed or networked loops that drive
the library's decisions (routed requests, Raft rounds, the consensus
command loop, cluster monitoring, failure detection and recovery).
`tests/` runs the library on concrete values.
