# bladeworks

A runtime that executes transactions for many tenants, each with a database of its
own. The library in `src/` is verified with Verus:

- `codec`: the byte layout of stored keys. Every key of a tenant is prefixed with the
  tenant id in big-endian bytes; the laws show that keys of different tenants never
  collide, that each tenant's keys sort together, and that keys read back.
- `tenants`: the registry of tenant databases, and the directory names they live under.
- `scheduler`: the queue of tasks waiting for a worker thread (first in, first out)
  and the pool of idle workers.
- `block`: the environment and header of the next block.
- `producer`: the state of the block production service: queued requests and the
  mining tasks under way.
- `executor`: the executor handed to the runtime.

`app/` holds what the library leaves out: threads, locks, channels, the file system,
and the calls into the katana crates.
