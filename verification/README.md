# Network Sandbox

Network Sandbox rehearses changes to a system and its network before they touch the host. An
*environment* collects staged files, deletions and routes; its *circuits* are the connections that
have to survive. A plan says whether the changes may be applied, an apply is a transaction with
backups and a journal, and a rollback takes it back.

## Layout

* `src/` is the library, written and verified with Verus. It holds every decision: what counts as a
  change, what a check of a circuit means, what blocks a plan, and the state machines of an apply, a
  rollback, a container, a virtual machine and a native run. It performs nothing itself. Each
  machine asks for one action at a time and is told what came of it.
* `app/` is the program around it: arguments, files, processes, sockets and the records on disk.
* `tests/` runs the library on concrete values, with an in-memory disk and scripted replies.

## What is proved

Every public function states its result. The public proof functions whose names start with `law_`
state what holds across functions. Some of them:

* no path and no route of the host is touched before every backup is in a saved journal and, where
  a lease watches the apply, the lease is armed (`apply`);
* an apply whose paths stay clear of its own backups can be taken back at every point, and a
  rollback that ends well brings back every path that it changed and all that stood within them;
  nothing new stays but directories on the way to a change, made in a directory that it changed
  (`recovery`);
* a route rollback ends at the recorded route or stops with an error (`platform::route`);
* an allowed plan has no conflict, a canary for each route, and fresh, intact circuits (`plan`);
* a container, a virtual machine or an image is only removed by the environment that owns it
  (`platform::docker`, `platform::lima`, `platform::commit`).

What the library takes from other crates (digests, identifiers, time, JSON and text differences)
is called through small functions whose contracts are trusted; each says so in its comment.
