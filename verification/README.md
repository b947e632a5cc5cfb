# webspeak

The rules behind two programs, written and proved in Verus:

- the *network manager*, which switches a container stack between a direct
  connection and two VPN providers, rotates WireGuard profiles and checks for
  leaks;
- the *voice bridge*, which holds one connection to a TeamSpeak-like server,
  takes requests as lines of text and reports events as JSON lines.

## Layout

- `src/text/`: characters, splitting, numbers and the order of strings.
- `src/network/`: providers, environment settings, addresses, WireGuard
  profiles, discovery, the shuffled rotation, the compose stack and the
  switch as a state machine.
- `src/voice/`: the line grammar, commands and their escaping, base64, the
  session with its pending answers, permissions, channel order, snapshots,
  the server log, file transfers and sound.
- `tests/`: the library run on concrete values.
- `app/`: the two programs around the library: HTTP, files, processes, JSON
  and the network. `webspeak daemon` serves the network manager, `webspeak
  connect` is the voice bridge. It needs the Opus library.

The contracts speak of mathematical values: texts are sequences of characters,
packets are sequences of bytes. Functions named `law_..` state what holds across
several functions. What is believed without proof is marked
`external_body` or `assume_specification`: base64 of the `base64` crate, the
command packets of `tsproto-packets`, and two functions of `String`.
