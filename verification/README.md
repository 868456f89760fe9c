# ipflip

A manager of network profiles for Windows: it lists the network interfaces,
reads their IPv4 settings, saves static settings as named profiles, and applies
a profile or DHCP to an interface.

The library under `src/` is verified with Verus. It decides; it runs nothing.
What is to be run or written it hands out as an `Action` or a `Step`, and what
came of it is handed back as a message or an outcome.

- `text`, `ipv4`, `table`, `order`: texts, IPv4 values, tables by name, and the
  order in which interfaces are listed.
- `json`, `command`: documents and the output of commands.
- `adapters`, `settings`, `netsh`: what the commands of the system tell, and
  the commands that change settings.
- `profile`: saved profiles, and their file.
- `state`, `control`: the state of the application, and its operations.
- `laws`: what every operation keeps, and how operations go together.
- `window`: what the window shows.

`app/` is the program around it: the window, the files, the threads, and the
commands.
