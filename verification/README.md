# wadb

Keeps the ADB server running on Linux so that paired Android phones stay available for wireless
debugging. Two `systemd --user` units do the work: one supervises the server, the other reconnects
wireless devices when they drop.

The library under `src/` holds the rules: what is read, what it means, and what is to be done about
it. Verus proves each function against its contract.

- `text`, `num`, `path`, `net`: characters, numerals, Unix paths and addresses as text.
- `adb`: device lists, where adb is looked for, and whose answer about mDNS can be trusted.
- `probe`: the isolated probe, step by step.
- `smart_socket`: framing requests to a running server and reading its replies.
- `discovery`, `daemon`: what was found, and what to dial of it.
- `pairing`, `qr`: the payload a phone scans, the code it is drawn as, and what `adb pair` said.
- `service`, `report`: the units, who owns the port, and what the commands print.
- `screen`, `ui`: what is on the terminal, and what a key does.
- `tray`, `themed_tray`: the panel icon, its menu, and the terminal it opens.

What is taken on trust is declared where it is used: random bytes (`rand`), wiping memory
(`zeroize`), the modules of a QR code (`qrcode`), and three functions of the standard library that
turn bytes and letters into other letters.

`app/` is the program around the library: sockets, processes, files, the terminal and the panel. It
gathers what the library asks about, carries out what the library answers, and passes on what the
system says when a call fails.
