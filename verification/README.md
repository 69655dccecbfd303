# element_selector

Capturing Windows UI Automation elements and locating them again by XPath,
with the decision logic verified by Verus.

- `src/` — the verified library: XPath step grammar and parsing, XPath and
  window-selector generation and lint, locate-mode prefixes and search-mode
  suffixes, element matching and `FindAll` filters, chained and
  depth-limited search decisions (the breadth-first walk and the fallback
  order after a chained search), the strategy cache, capture (deepest
  element at a point, hierarchy assembly, cross-process cut), validation
  verdicts, visibility, inspection reports, and the optimiser's path
  preparation and application. Regular expressions come from the `regex`
  crate, and the Unicode word class of attribute names from `regex-syntax`,
  through small trusted wrappers (`pattern.rs`, `text.rs`, `matching.rs`).
- `app/` — the UI Automation front end (`uiautomation`, `windows`,
  `uiauto_xpath`): reading elements and windows, walking the live tree,
  serde/thiserror copies of the library's result types. It hands plain
  values to the library and acts on its answers.
- `tests/` — tests of the library on concrete values.
