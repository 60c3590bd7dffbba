# accordin

Lock algorithms and the rules around them that a contention-aware scheduler and its
preloaded lock libraries run on: queue locks, condition variables with staged
wakeups, admission, lock statistics, the control of how wide a lock class may run,
the classification of tasks, and the controller of a workload.

- `src/` is the library. Every function with a body states what it does in its
  contract, and Verus proves it. Code that threads run together is written as steps,
  one for each access to what they share. The `law_` functions state what holds of
  any order of those steps, and of several calls together.
- `tests/` runs the library on concrete values.
- `app/` is the program around it: the clock, futexes, files, child processes and
  the scheduler's maps. Averages are floating point, and are computed there too.

Five functions of the library call the `libc` crate, to take a child's status word
apart; what they claim of it is stated and not proved. All else in `src/` is proved.
