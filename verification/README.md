# aegislens

An offline toolkit for inspecting packet captures, IOC lists, IDS signatures and
firewall policy exports, written in Verus: the library's functions carry contracts that the verifier proves, and
the library's laws are proof functions. Three small wrappers around std functions are
trusted rather than proved: `String::push` (`push_char`), `String::from_utf8_lossy`
(`string_from_utf8_lossy`) and `Debug` formatting of a string (`debug_str`); their
contracts state only what std documents of them.

## Layout

- `src/common`: text utilities, diagnostics, byte readers, endian helpers, checksums,
  IPv4/CIDR helpers, timestamps, counting maps.
- `src/packet`: PCAP, Ethernet, IPv4, TCP, UDP and DNS parsing, metadata extraction and
  capture summaries.
- `src/ioc`: IOC classification, normalization, parsing with duplicate detection, and
  matching against packet metadata.
- `src/rules`: IDS rule lexing, parsing, normalization, validation and metadata matching.
- `src/policy`: iptables/nftables and settings parsing, duplicate, shadow and exposure
  analysis, ordering score and summaries.
- `app/`: the command-line tools (`packetscan`, `iocmatch`, `rulecheck`, `policyaudit`)
  and stdin-driven robustness harnesses; file I/O and the entropy figure live there.
- `tests/`: executable tests of the library.
