# bms

The control core of a small battery management system, written in Verus.

The library (`src/`) holds the system's logic, each function with a
contract that Verus proves:

- `cli`: the console. `Cli` is a line editor on a byte stream (cursor keys,
  insertion, deletion, escape sequences, redraw of the prompt line) that
  keeps the bytes it has to send until they are taken; on Enter it splits
  the line into words and hands them to `Mgr`, the registry of console
  commands, which runs the first command named like the first word
  (`Action::run`: "help", "evq", "dev", "gpio", "quit") and reports a
  failed line.
- `words`: what a line's words are, and the proofs about splitting.
- `dev`: the device manager (`dev::Mgr`), the device traits, the dummy GPIO
  pin, the GPIO console command and the serial port's byte counts and
  reader decisions.
- `evq`: the event queue's registry of handlers: which handlers an event
  goes to, what each does, their counts, and stopping.
- `log`: log line layout, the messages logged and not yet written, where
  a line goes and the handlers it is handed to.
- `plat`: the board layout and the Linux platform's devices.
- `bms()`: the setup of the whole system; `System::handle_event` is its
  step for one event: the queue hands it to its handlers, and the console
  takes the bytes of its serial port one by one.

The program (`app/`) is the Linux platform around it: the serial port on a
terminal through libc, the tick thread, the event channel, the loop that
feeds the events to `System::handle_event`, and the writes of what the
system sends.
