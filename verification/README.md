# DSH Desktop

A desktop shell around the DSH service. `src/` is the library: the rules of the shell, each with
its contract, proved by Verus. `app/` is the program around it, which does what the library asks
for: windows, tray, files, sockets, processes and the network.

| Module | What it decides |
| --- | --- |
| `boot` | the start of the application, step by step |
| `supervisor` | starting, stopping and sweeping the service process, and how often it may restart |
| `serviceout` | what the output of the service tells: its address, and why it failed |
| `service` | healing a start, watching, restarting, repairing |
| `node` | the node executable and the installer |
| `dsh_update`, `app_update` | updates of DSH and of the application |
| `plugins` | listing, adding, removing and switching plugins; npm; the profile; the catalogue |
| `settings`, `shell`, `state`, `config` | what the user sees and may set |
| `pnpm_forwarder`, `winproc`, `logging` | the pnpm launcher, Windows command lines, log lines |
| `text`, `paths`, `disk`, `json`, `yaml` | what the others stand on |

The library never looks at a disk. `disk::Disk` holds what was found of some files; functions whose
names end in `_question` or `_questions` say which files to look at before another function is
called. Work that alternates with waiting is a state machine: a function takes a state and an
event, and gives the next state.

JSON, YAML and addresses are read and written by `serde_json`, `serde_yaml` and `url`; what is taken
on trust of them stands above each of the functions that call them.
