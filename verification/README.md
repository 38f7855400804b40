# stencilwright

A privacy-preserving web-mapping harness: capture an authenticated web
app's DOM with every specific value masked, and keep reusable map
artifacts (places, elements, selectors, secret references) per site under
`~/.stencilwright/<site>/`.

- `src/` is the library, verified with Verus: URL signature matching and
  page recognition, 1Password secret references and item discovery, the
  masking decisions (text, attributes, slots, numeric blacklist), place
  graph validation and the `place goto` decisions, the daemon's session
  and window records, and the adapter visibility model. Each public
  function states its result in its contract; the `lemma_*` proof
  functions state the properties that hold across calls.
- `tests/` runs the library on concrete values.
- `app/` is the command line: it reads and writes the TOML artifacts,
  runs the `op` CLI and reads the daemon record, handing plain values to
  the library. It also holds the lol_html driver that masks a captured
  page; the page capture that would call it runs in the browser daemon,
  which this command line does not include.
