# nft-egress-daemon

An egress gateway for containers and virtual machines. It lets traffic to the
public Internet pass, drops traffic to private address ranges unless a whitelist
names the destination, and redirects DNS queries to a trusted server. The rules
are enforced by nftables; the daemon keeps them in step with the whitelist file.

`src/` is the logic, verified with Verus: everything that is read, decided or
written is a function from plain values to plain values with a contract.

- `text`, `numbers`, `order`: text as sequences of characters, numerals, the
  order of strings
- `ipv4`, `ipv6`, `addr`, `cidr`: addresses, their texts, their networks
- `parser`, `whitelist_laws`: whitelist files, and what holds of every one
- `resolv`, `router`, `dns`: resolver configuration, interfaces and routes, and
  the choice of the upstream DNS servers
- `nft`, `nft_laws`: scripts for the `nft` command, and what holds of them
- `startup`, `signals`, `place`, `watcher`: what the daemon does at its start and
  on a signal, where the whitelist is, and what happens while it is watched
- `config`, `cli`, `log`: settings, the command line, lines for the operator

`app/` is the program around it: it reads files, runs commands, waits for
notifications and prints. It hands what it got to the library and carries out
what the library answers.
