# pigeons

Carrier pigeons for SSH connections: SSH to a machine by its public key, without an
IP address, a VPN or a forwarded port.

`src/` is the library. It holds the rules of the program, each with a contract that
Verus proves:

- `ssh`, `ssh_laws`: pigeon routes in the text of an SSH configuration, and what
  adding, removing and listing them do together
- `identity`: secret keys, endpoint IDs and the two key files
- `config`, `telemetry`: the two layers of settings and the question that is asked
  once
- `protocol`, `bridge`: what a roost does with an incoming connection, and how bytes
  are copied
- `tunnel`: relays, addresses and the steps that lead to a tunnel
- `service`: the system service, under systemd and behind the Windows firewall
- `cli`: commands, route names and what is printed
- `text`: lines, words, trimming and replacing

`app/` is the `pigeons` program: files, sockets, processes and the terminal. It asks
the library what to do and does it.

`tests/` runs the library on concrete values.
