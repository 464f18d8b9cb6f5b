# vpnyellod — turn a Linux box into a YellowD VPN server

The agent detects the box's global IPv4 and IPv6 addresses, sets up WireGuard, registers the
server on the website, and keeps the tunnel's peers in step with the clients there.

```bash
sudo vpnyellod on                 # set up, register, start the daemon
sudo vpnyellod on --name my-box   # custom display name
vpnyellod status                  # tunnel, addresses, peers, last sync
sudo vpnyellod off                # deregister and stop; files stay
sudo vpnyellod uninstall          # the same, and remove the agent's files
```

Settings come from the environment or `/etc/vpnyellod/config.env`: `VY_REGISTRY`, `VY_IFACE`,
`VY_PORT`, `VY_VPN4`, `VY_VPN6`, `VY_NAME`, `VY_POLL`, `VY_KEY`.

## Layout

The library in `src/` holds every decision and every text that the agent reads or writes, verified
with Verus. It does no input or output: a job (`agent::Job`) takes the reply to its last question
and gives a turn, which is a list of effects and the next question. The program in `app/` performs
the turns.

| Module | What it holds |
| --- | --- |
| `text`, `number` | text as characters: trimming, splitting, searching; decimal numbers |
| `reply` | named fields and the list of peers in the registry's replies |
| `address` | the box's global addresses, and which of them is used |
| `conf` | the text of the WireGuard configuration file |
| `config` | settings, options and commands |
| `world` | effects, questions and replies |
| `registry` | requests, the registration that is remembered, the pace of heartbeats |
| `tunnel`, `peers` | the key, the configuration file, the interface; adding and removing a peer |
| `sync`, `daemon` | one heartbeat; heartbeats one after another |
| `on`, `off`, `status`, `agent` | the commands, and the agent as a whole |
| `laws` | what holds over several calls or a whole run |

Two functions of the standard library are specified in `text` and not proved: `String::push` and
`str::to_lowercase`.
