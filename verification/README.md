# served

A per-user service manager whose decisions are proved with Verus.

`src/` is the library. It holds what the program decides and computes: configurations and their
validation, the command line, the protocols between client, manager and runners, the table of
services and the jobs that the manager carries out for a request, the life of a runner and its
worker, the log store, the form that edits a configuration without disturbing its source, and every
screen as a description of what is shown. Each function states what it returns or changes; the
`law_` proof functions state what holds across functions.

`app/` is the program around it: sockets, processes, pseudo terminals, files, signals and the
drawing of the screens. It performs what the library asks for and hands back what came of it.

`tests/` runs the library on concrete values, with the screens drawn into a test terminal.

| Module | Contents |
| --- | --- |
| `text`, `quote`, `env`, `paths`, `process` | text, quoting for a shell, environment variables, file locations, process identity |
| `config` | service configurations, their files and what a service is loaded with |
| `cli` | reading a command line, what it comes to, and what is printed |
| `protocol`, `runner_protocol`, `ipc`, `client` | messages, greetings and how answers are taken |
| `manager` | services, requests, jobs, definitions, watchers, shutdown and handoff |
| `runner`, `worker` | a runner's state, supervision, restarts and termination |
| `logs` | output in memory and on disk, history records, cleaned display |
| `attach`, `editor` | terminals that are attached, external editors |
| `form` | the configuration form, its screens, its source edits and its undo |
| `tui` | keys, layout, pages and histories of the interface |
