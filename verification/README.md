# graph

A small agent for file telemetry and enforcement on Linux, with its logic
verified in Verus.

Probes in the kernel watch file **creation**, **writes** and **deletion**. An
operation under `/opt/protected`, `/var/secure` or `/home/secure_area` is
reported to user space with the operation, the path of the process's binary,
the path of the file, and the process, parent and cgroup IDs. An operation under
`/var/secure` also terminates its process with `SIGKILL`, whether or not there
is room to report it. The agent's own process is left alone.

```
[create] pid=1234 ppid=1 cgroup=16761 exe=/usr/bin/dash path=/var/secure/evil
[write]  pid=1234 ppid=1 cgroup=16761 exe=/usr/bin/dash path=/var/secure/evil
```

## Layout

| Module     | What it holds                                                      |
|------------|--------------------------------------------------------------------|
| `file_op`  | the operations                                                     |
| `event`    | the record that the probes hand to user space, and its layout      |
| `cstr`     | NUL-terminated strings                                             |
| `dirs`     | the watched directories, and which paths lie under them            |
| `matching` | the same on the raw bytes of a record                              |
| `kernel`   | what probes ask the kernel for, and a model of its answers         |
| `walk`     | resolution of a dentry to an absolute path                         |
| `task`     | parent and binary of the current process                           |
| `probe`    | the probes, from the operation to the submitted record             |
| `runs`     | what the probes come to as a whole, proved over the kernel model   |
| `display`  | the line that user space prints for a record                       |
| `bytes`    | little-endian numbers and overwriting parts of a buffer            |

The probes do not call the kernel. Each names the next action, and the module
`app/probes.rs` performs it with the BPF helpers and hands the reply back;
`app/main.rs` loads the probes and prints the lines.

## Limits

* The offsets into kernel structures are those of Linux 6.12 on x86_64, and the
  numbers in a record are little-endian accordingly.
* Paths are resolved up to the root of their file system; mount points are not
  taken into account.
* A path that does not fit in the 256 bytes of a record, with its NUL, is not
  reported. Under the protected directory its creation is still enforced, if its
  first 256 bytes can be read.
* The path of a creation is the raw path of the system call. A relative one is
  neither reported nor enforced.
* While the ring buffer is full nothing is reported. Enforcement goes on: the
  probe then works in a buffer of its own.
* The agent reads the object with the probes from `/usr/lib/graph/probes.o` when
  it starts; it is not part of the agent's binary. The library prints and
  formats with `std`, and `app/` is one crate with one target: a build of
  `app/probes.rs` for the BPF target, without `std`, is not set up here.
