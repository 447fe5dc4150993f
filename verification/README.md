# warzone_sentinel

The decision core of a service that watches the network traffic of a game console through its
firewall, judges the lobby the console is in, learns from what the user reports, raises and releases
the firewall's defenses, and keeps a record of each session.

## Layout

- `src/` is the library. Each function states what it returns in `requires` and `ensures`, over the
  spec functions that stand beside it, and Verus proves it. The laws that relate several functions
  are public proof functions at the end of their modules.
- `tests/` runs the library on concrete values.
- `app/` is the service around it: the poll loop, the firewall's HTTP interface, files, the web
  pages, and what needs floating point (the fold of a lobby, entropies and logarithms).

| Modules | What they decide |
| --- | --- |
| `enrich`, `roles` | which server an address is, and the phase of the game |
| `traffic`, `packets`, `metrics`, `information_flow` | what rates, packets and changes of state say |
| `cheater_lobby`, `network_session`, `session_risk`, `scoring` | the verdict on a lobby, poll by poll |
| `learning`, `adaptive`, `adjust`, `insights`, `ai_advisor`, `fold` | what earlier lobbies teach |
| `network_guard`, `firewalla`, `poll` | which defenses to ask the firewall for |
| `peer_tracker`, `session_files`, `session_export` | the peers of a session and its exports |
| `notify`, `dashboard`, `game_state` | who is told what |
| `documents`, `reports` | what all of this looks like as JSON |
| `json`, `fields`, `text`, `codec`, `counts`, `ranks`, `fixed`, `signals`, `snapshot` | the ground they stand on |

## Conventions

- A quantity that is not a count is an `i64` in millionths, cut to a range wide enough for any
  measurement (`fixed::LIMIT`). Percentages are millionths of a percent, times are millionths of a
  second. Sums and products are exact. A quotient that is no whole number of millionths is the odd
  one of its two neighbours, so that it stands to every even number, and so to every limit that is
  written down, as the fraction itself does (`fixed::quotients_compare`).
- What doubles give is stated, over integers (`fixed`), of a number in a text, of the decimals to
  which a document rounds a measured number, of a score that the records adjust, of a threshold
  that is a multiple of what was seen, and of the shares and chances that the advisor names.
- The library has no clock and no global state: the caller passes `now`, the role rules and the
  records.
- A similarity of two folds is handed over as the bits of a non-negative single-precision number,
  whose order is that of the numbers.
- What base64, zstd, URL parsing, percent encoding and random numbers come to is taken from their
  crates. The few functions that call them say in their comments what is relied on.
