# scrollz

Transparent compressed storage for append-heavy session files: archives that survive a crash, a
container in a database, a file system in front of them, and the reconciliation of files that were
written below a mount point while nothing was mounted.

The rules of all this are the library under `src/`, and Verus proves them. Each module states what
its functions return or change over mathematical models of files, tables and texts; the promises
that span functions stand beside them as public proof functions.

- `archive`: the file format. Two superblocks take turns, so a commit happens whole or not at all,
  and whatever a crash leaves opens to one version or the next.
- `blockio`: the byte device below an archive.
- `chunk`, `read`: which chunks a range needs, and how a read is put together from them.
- `store`: what a container's tables hold, what waits to be committed, and how both answer a read.
- `inode_table`, `passthrough`, `frontend`: numbers, handles, attributes and directory listings as
  the kernel is told them.
- `metrics`: counters and latency histograms, and their text form.
- `reconcile`: merging two versions of a session, the steps of applying, recording and undoing a
  run, the condition of every deletion, and that a run and its undoing leave what was there.
- `umount`, `hang_cache`: unmounting by degrees, and leaving a hung mount alone for a while.
- `ordmap`, `path`, `text`, `ratio`: what the others share.

Work that alternates with the outside world is a machine here: a step takes in what came of the last
action and says what to do next. `app/` holds the loops that perform the actions: files, the
database, the kernel interface, processes and threads. `tests/` runs the library on concrete values,
with devices, tables and projects in memory.

Calls into outside crates stand behind a few trusted functions, each of which says in its comment
what is believed of the call.
