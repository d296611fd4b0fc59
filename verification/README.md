# storage_index

The index of a file storage service on the Internet Computer: which users exist and how much
of their byte allowance they use, which blobs (by content hash) they hold references to in
which bucket canisters, which buckets accept uploads, and which buckets wait for a code
upgrade. Also the HTTP path router and small shared types.

- `src/` is the library, verified with Verus: every state change has a contract over a
  mathematical model (`Map`, `Seq`, `Set` views), and the laws that tie operations together
  (removing a reference undoes adding it, users and blobs always agree on ownership, upgrades
  run one at a time in queue order, routing ignores case and surrounding slashes) are proof
  functions. Each bucket keeps a queue of the user changes it has yet to be told of; adding
  or renaming a user queues an event on every bucket, batches of events are taken off the
  queues to be sent, and a batch that does not arrive goes back to the front of its queue.
  The index also keeps the code that buckets run, with which new buckets are installed and
  existing ones upgraded.
- `app/` is the canister glue: the environment, state holding and entry points, stable-memory
  serialization, the cycles check, bucket creation and the asynchronous upgrade calls, each
  step of which the library decides.
- `tests/` exercises the library on concrete values.
