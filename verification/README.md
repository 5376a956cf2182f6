# Rivet

A real-time kernel for microcontrollers, with its logic proved in Verus.

Rivet has two tiers. Preemptive tasks have stacks of their own and are
scheduled by priority, the one that ran least recently first; a mutex lends its
holder the priority of whoever waits for it. Cooperative tasks are futures that
an executor polls in priority order; the executor is itself the preemptive task
of the lowest priority.

## Layout

- `src/` is the kernel: scheduler, mutexes, timers, channels, semaphores,
  signals, executor, console, log, trace, watchdogs, fault handling, the
  processor- and board-specific decisions, and the meaning of the attributes.
  State is passed in and handed back. What hardware reads is an argument, and
  what goes to hardware is a result: a register write, bytes to send, or a plan
  of steps.
- `tests/` run the library on concrete values.
- `app/` connects the library to real machines: it performs register writes,
  runs futures, implements the `embedded-hal` traits and expands the
  attributes.

## What is proved

Every function of `src/` has a contract over mathematical models of its state.
Public proof functions named `law_*` state what holds across calls: that the
highest priority runs, that no ready task starves, that a holder is never
outranked by a waiter and that every kernel operation keeps it so, that wakeups
are not lost, that a semaphore's token goes to the task it was handed to and that
none is lost, that channels deliver every value once and in order, that no two
stacks share a byte with each other or with each other's guard bands, that a
stale timer handle cancels nothing, that ticks and periods do not drift, that
every processor cycle is accounted for, and more. What is shared
with interrupt handlers without a lock is proved step by step, however the steps
of both sides interleave: `src/sync/` and `src/waker.rs` hold these laws.

Three functions in `src/macros.rs` are trusted rather than proved: splitting
text into tokens (`proc-macro2`), and parsing integer literals and functions
(`syn`). Their contracts say that the result is a function of the text, which
holds because `proc-macro2` is built without its `proc-macro` feature and so
always reads text with its own lexer; and that splitting ends with a closing
token. Texts on which `syn` would recurse too deeply are refused before they
reach it, whether it would do so while it parses or while it takes down what it
built: `src/macros/nesting.rs` computes from the tokens a bound on both, and the
contract of the parsing function requires it to be within a limit. The weights
in it were chosen so that the parser, built without optimisation, needs less
than two mebibytes of stack. Statements, match arms and the items of a list
stand side by side and are not nested, however many there are.

Scheduling and interrupts need no allocator: what they compute is handed back in
values of fixed size. Memory is taken when a mutex or a channel is made, for the
value that a join hands out, for the plan of a bus transfer, and for text: what
is said of a fault or a timeout, the console, the log and the trace.

A few laws about the mutexes hold only while tasks keep to their part: a task
that is removed while it holds a mutex or waits for one leaves the mutex behind
as it is.
