# psl2

Working with Mozilla's [Public Suffix List]: is a hostname a **registrable
domain** (one that can own cookies, e.g. `example.co.uk`) or a **public
suffix** (e.g. `co.uk`)? Written in Verus: the matching algorithm, the binary
search over the embedded rule blocks, the input checks and the list reader
are proved against their contracts.

```rust
assert_eq!(psl2::suffix("www.example.co.uk").as_deref(), Some("co.uk"));
assert_eq!(psl2::registrable_domain("www.example.co.uk").as_deref(), Some("example.co.uk"));
assert_eq!(psl2::registrable_domain("co.uk"), None);
assert!(psl2::is_public_suffix("co.uk"));

let d = psl2::lookup("www.example.co.uk").unwrap();   // allocation-free
assert_eq!(d.registrable_domain(), Some("example.co.uk"));
assert_eq!(d.subdomain(), Some("www"));
```

## Layout

- `src/lib.rs` — the API: `lookup` and `Domain` (allocation-free, borrowing),
  `analyze` and `Info` (normalizing), `suffix`, `registrable_domain`,
  `subdomain`, `is_public_suffix`, `psl_version`.
- `src/matching.rs` — the algorithm (`compute`) and its specification
  (`psl_parts`: an exception always wins, else the matching rule with the most
  labels, else the implicit `*`), with the laws on the offsets it yields.
- `src/table.rs` — the rule blocks (`rule\tS` lines, sorted) and the binary
  search over them (`lookup_block`), proved to find exactly the line whose rule
  equals the key.
- `src/data.rs` — the embedded blocks and the proofs that they are sorted.
- `src/normalize.rs` — trimming, the trailing dot, IDNA (`idna` crate), and
  the hostname shape checks.
- `src/compat.rs` — a `&[u8]` API shaped like the `psl` crate's.
- `src/ruleset.rs`, `src/listfile.rs` — reading `public_suffix_list.dat` into
  sorted rule sets and writing the blocks, with the law that a written block
  gives back exactly what was written.
- `app/main.rs` — the generator program: reads the list file and writes the
  blocks and the version to `data/`.

## Data

The embedded blocks hold a subset of the list: some 160 ICANN and PRIVATE
rules (the common generic and country TLDs with their usual second levels,
and a few hosting suffixes), the `*.ck`, `*.kobe.jp`, `*.kawasaki.jp`,
`*.mm`, `*.sch.uk` wildcards and their exceptions, enough for every
`checkPublicSuffix` vector of the list (`tests/official.rs`);
`psl_version()` names that data set. Blocks written by the generator from the
full list have the same format.

That the embedded blocks are sorted is proved a few lines per lemma
(`src/data.rs`). `table::is_block_wf` checks the same property of any block
in one verified pass, and `table::lookup_block` accepts any block: on a
sorted one its answer is exact, on any other a found section still belongs to
a line with that rule.

[Public Suffix List]: https://publicsuffix.org/
