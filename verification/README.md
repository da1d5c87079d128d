# library

A toy worker service's core: it runs processes, captures their stdout and stderr as structured
log records, reads those records back, and keeps track of jobs per user.

`src/` is verified with Verus:

- `record`, `log`, `log_reader`: the on-disk record format (type byte, big-endian data length,
  data), writing records, reading them back and tailing a log chunk by chunk, with the laws
  that a read gives back what was written and that reading in pieces equals reading whole.
- `jobs`: job identifiers (UUIDs), the lifecycle of a job, and the table of jobs keyed by owner
  and identifier.
- `service`, `client`: the answers the service gives and the texts the client reports.
- `identity`: the user named in a client certificate.
- `resource`, `supervisor`, `text`: resource controllers, the command a supervisor runs,
  decimal text.

`app/` is the runtime around it: log files, tailing them with tokio, spawning and supervising
processes, control groups, and the job handler.
