# Arlian Perimeter

A guard for a home network. It scans the network for devices that do not belong to it,
learns how devices behave, watches captured traffic for floods, and bans where they come
from. Licence keys and an operator's console belong to it.

The library under `src/` decides everything that can be decided from plain values, and
its functions carry contracts that Verus proves. It does no input or output. The program
under `app/` reads the clocks, the network, the files and the database, hands the library
what they say, and carries out what the library answers. What is computed with fractions
(adaptive thresholds, anomaly scores, averages) is computed there too.

## Modules

- `addr`, `ranges`, `network`, `arp`: addresses as text and as numbers, the ranges they
  belong to, the hosts of a network, hardware addresses.
- `window`, `timeline`, `antiflood`, `bans`: events per address in a sliding window, the
  bans they lead to, and the list of bans that is kept between runs.
- `packet`, `ddos`, `firewall`: captured frames, the floods in them, the firewall commands.
- `rate_limiter`, `scan`, `ban_manager`, `metrics`, `store`: a scan of the network from the
  choice of addresses to the rows of the database.
- `kayoli`, `training`, `detector`: attack patterns, samples and behaviours, the judgement
  of a device.
- `key_system`, `console_manager` and `perimeter`: two kinds of licence keys and consoles.
- `commands`, `config`, `journal`: what an operator can say, the settings, the journals.
- `clock`, `dash`, `order`, `table`, `tally`, `text`, `words`: what the others rest on.

Each type with state has a view, a mathematical model of what it knows. The contract of an
operation says what model it leaves behind and what it answers. Proof functions whose names
start with `law_` state what holds across operations.

## What is trusted

Calls into other crates stand behind small functions whose contracts are believed, not
proved: `chrono` in `clock`, `dashmap` in `dash`, `ipnet` in `network`, `rand` and `sha2` in
`key_system`, `serde_json` in `store`; and of the standard library `String::push` in `text`,
`str::to_lowercase` in `words` and `slice::sort_unstable` in `order`. Each says in its doc
comment what is claimed of the outside function.
