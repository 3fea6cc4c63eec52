# all_smi

The verified core of an accelerator monitor, in Rust with
[Verus](https://github.com/verus-lang/verus), and the ordinary Rust around it.

- `src/` is the library: every item of it is verified.
  - `reading` is binary64 arithmetic on bit patterns: comparison, the four
    operations, conversions and decimal text. `single` is binary32 on top of it,
    `numeral` reads decimal numerals, correctly rounded.
  - `text`, `table` and `order` are strings, association lists and stable sorts.
  - `common`, `probes`, `network` and `api` are what an exporter publishes of a
    host and what a viewer reads back: endpoints, interface rates, lock holders,
    JSON fields, the Prometheus text and its parser.
  - `device` is Apple's energy and performance-state counters made into watts and
    megahertz.
  - `ui` is the views: the model of hosts and devices, the header, the device
    table, the history charts and the pipeline panel, as lines of a terminal.
  - `view` and `service_cmd` are the decisions of the collectors and of the
    Windows service.
- `tests/` runs the library on concrete values.
- `app/` holds sockets, commands, terminals, frameworks and async tasks.

A float of the outside is a `Reading` in the library: `Reading { bits:
x.to_bits() }`, and `f64::from_bits(r.bits)` on the way back.

What is trusted, and not proved, stands behind the functions that carry
`#[verifier::external_body]`: the parsers of `url` and `serde_json`, the status
phrases of `reqwest`, and a few string functions of the standard library. Each
says in its comment what is claimed of it.
