# ciruela

The verified core of a peer-to-peer directory synchronization tool for
servers in datacenters: a client uploads a signed image of a directory to a
cluster, and the daemons of the cluster fetch it from each other, keep the
images they are configured to keep, and clean up the others.

## Layout

- `src/` is the library, verified with Verus. Each module states its
  contracts over spec functions and views:
  - identifiers and text: `block_id`, `machine_id`, `hexlify`, `hex_codec`,
    `names`, `text`, `lines`, `upload_text`;
  - the daemon's decisions on uploads and stored state: `upload`,
    `signatures`, `state_files`, `state_scan`, `cleanup`, `stable_sort`,
    `link_sources`, `block_map`, `index`, `index_tree`, `commit_plan`, `keys`,
    `config`;
  - uploads to a cluster and the client's view of them: `bookkeeping`,
    `upload_progress`, `client_progress`, `cluster_rules`, `addresses`,
    `key_set`, `cli`, `key_sources`, `private_key_text`, `edit_rules`;
  - small shared pieces: `failure_tracker`, `named_mutex`, `mask`, `disk`,
    `http_route`, `reconciliation`, `time_util`.
- `tests/` exercises the library on concrete values.
- `app/` is a command-line front end that reads files and the environment
  and hands plain values to the library.
