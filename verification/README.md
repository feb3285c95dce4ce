# libcgroups

Management of a cgroup of the unified (v2) hierarchy, verified with Verus.

`src/` holds the decisions: which directories are made, in which order
controllers are switched on, which failures count, which processes are killed.
An operation in progress names the next piece of work as a `Request` and goes on
with the `Reply` to it. The contracts tie each step to a transition function on
a mathematical model, and the `*_laws` modules prove what holds of whole
operations, whatever the replies are.

`app/` does the work on the file system of the machine.
