# zawgl

The storage and query-model core of a small graph database, written in
Verus: executable Rust whose behaviour is stated in `requires` / `ensures`
contracts and proved.

Layout of `src/`:

- `graph/`: an in-memory property graph (vertices and edges kept in vectors,
  each vertex heading linked lists of its outbound and inbound edges).
- `repository/pager/`: pages, the header page, and the page cache.
- `repository/records/`: pages of fixed-size records and their free lists.
- `repository/store/`: node, relationship, property and dynamic records and
  their byte encodings.
- `repository/index/`: the B-tree index: its nodes and cells in memory
  (`model`), their records on disk (`store/records`), the splitting of a cell
  into records and the reading back of those records (`store`), and the
  per-node steps of lookups, insertions and removals with, over the nodes
  kept in a node pool, the lookup of a key down the tree, the insertion of a
  key into its leaf, the splitting of full leaves and interior nodes (with a
  new root when the root splits), the insertion into a tree whose root is a
  leaf, and the gathering of the keys (`b_tree`).
- `repository/graph_repository.rs`: the links between stored nodes and
  relationships.
- `cypher/lexer/fsm/`: the automata that recognise identifiers, parameters,
  keywords and numbers.
- `query_model/`, `model/`, `matcher/`, `graph_engine/`, `tx_handler/`: the
  query model, database paths, matcher state, proxy ids and the transaction
  session state machine.

`app/` holds what needs the file system, threads or locks: file access, the
pager's reads and writes, the database paths under a directory, and the
transaction handler.
