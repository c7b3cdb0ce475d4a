# ccgui_remote

Engine sessions on remote hosts, for a desktop client that runs command-line coding agents.

The library plans every step as plain values, and proves with Verus what the plans hold:

- `engine`: the command line and the event stream of the Muse engine; the description of a remote
  host (`wsl_transport`); the script that runs a local command there (`script`); the `ssh` calls that
  store and run it, and what they came to (`remote_run`).
- `history`: past Muse sessions, from the session index and from journals.
- `ssh_hosts`: hosts in `ssh` configuration files (`config`, `includes`), probing a host for engines
  (`probe`), and attaching a workspace to a directory on a host (`attach`).
- `text`, `split`, `number`, `order`, `table`, `paths`, `ids`, `json`, `shell`: what the others are
  made of. `shell` also models how a POSIX shell reads words and commands.

The `laws` modules state what holds across functions: that no argument or variable of a wrapped
command can become another command, that the destination of a call is never an option, that the
metadata of an attached workspace describes the transport it was attached by, and so on.

`app` performs the calls: processes, files, the environment and the databases.
