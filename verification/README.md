# taskmaster

A process supervisor: it starts the programs of a YAML configuration, keeps the
configured number of processes of each running according to its restart
policy, and takes commands (`start`, `stop`, `restart`, `status`, `reload`,
`clear`, `exit`) at an interactive shell; `reload` or `SIGHUP` reads the
configuration again. A program is stopped with its `stop_signal`, given
`time_after_proper_stop` seconds to end, then killed; without a stop signal
it is killed at once.

The decision logic is a library verified with Verus (`src/`):

- `config`: the configuration model, its validation and the initial state;
- `umask`: octal umask values;
- `signals`: the signals a program may be stopped with;
- `text`: white space, trimming a line and splitting it into words;
- `exec`: the supervision rules (reaping children, retries, relaunches);
- `engine`: the execution engine as a state machine from messages to work;
- `shell`: the control shell's reading of commands, answers and signals;
- `logger`: log lines;
- `report`: the text and level of the engine's notices;
- `laws`: properties that span several operations.

`app/` is the program around it: reading the configuration file, the two
threads and their channels, spawning and reaping processes, signal handlers
and the line editor.
