# ipfs_client

A client for the HTTP API of an IPFS node.

- `src/` is the verified library (Verus): multiaddresses and their text
  (`addr`, `text`), API paths and request URLs (`fetch`), the request that each
  call of the client sends (`client`), reading multiaddresses out of replies
  (`deserialize_helpers`) and the data types of the replies (`data`).
- `app/` sends the requests with tokio-curl and reads the JSON replies with
  serde into the library's types.
- `tests/` runs the library on concrete values.
