# sybl

The distributed control layer of Sybl, a platform where clients' machine
learning models compete on users' datasets. The control layer queues jobs,
builds clusters of connected compute nodes for them, sends each node its share
of the data, health checks the nodes and gathers their predictions.

The logic of the layer is a library verified with Verus:

- `src/messages`: the messages of the node protocol and their length
  prefixed framing, with the law that reading a frame gives back what was
  written, whatever the buffer size.
- `src/utils`: splitting datasets into training and prediction sets, record
  identifiers, chunk ranges, job pricing, and BZip2 compression with the
  Base64 transport encoding.
- `src/dcl`: the job queue, the pool of compute nodes and the count of active
  ones, health checking decisions, the control node's registry of edge nodes,
  the hiding of validation answers and the reading of returned predictions.
- `src/server_pool.rs`: the pool of compute servers of the first version of
  the layer.
- `src/models`: the data model of jobs, projects and models.

`app/` is the program around the library: sockets, MongoDB, Kafka, email and
the floating point parts (column scaling, model weighting). `tests/` runs the
library on concrete values.
