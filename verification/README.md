# virtio_blk

A virtio block driver, verified with Verus.

`src/` is the driver:

- `queue` is a split virtqueue over memory that the device shares: a table of descriptors, a ring
  of chains that the driver offers and a ring of chains that the device returns. `model` says what
  each operation does to the free descriptors and to the chains in flight, `laws` what holds over
  any number of operations.
- `blk` is the block device on top of a queue, `request` the headers and responses as they lie in
  memory, `operation` the course of one read or write, and `blk_laws` what holds of them.
- `layout` says where the parts of a queue lie and what the device is told about it; `descriptor`,
  `ring`, `flags` and `features` are the parts themselves.
- `cell` and `nonblock` hold what is trusted: volatile words, the memory barrier and the
  non-blocking error.

`app/` connects the driver to a platform: registers, DMA memory, addresses.

`tests/` plays the device.
