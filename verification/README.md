# cern_dns

An authoritative nameserver and recursive resolver, with its core logic
specified and proved with Verus.

- `src/` is the verified library: DNS names and their canonical order, zones
  and zone files, authoritative lookup (exact, wildcard, CNAME, delegation,
  NXDOMAIN/NODATA), the zone store, NSEC chains, DNSSEC signing and
  validation (through hickory-proto), the resolver cache (TTL clamping,
  negative entries, least-recently-used eviction), query deduplication,
  QNAME minimisation and 0x20 encoding, recursive resolution as a state
  machine (which server to ask for which name, what each answer leads to),
  access control lists, response rate limiting, configuration defaults and
  checks, DNS-over-TCP framing, DoH request handling and the query router's
  decisions. Each public function states its result in `ensures`. Where
  a result rests on an outside call whose outcome depends on chance or the
  clock (signing, the time), the function states what holds whatever the
  call returns, and a public function that takes the call's result (such as
  `rrsig_from_signing`) states the rest exactly. The `lemma_*` proof
  functions state the laws that relate several functions.
- `tests/` runs the library on concrete values.
- `app/` is the server program: command line, configuration file, logging,
  zone directory, UDP/TCP/DoT/DoH listeners, the upstream queries the
  resolution state machine asks for, the HTTP management API and metrics.
