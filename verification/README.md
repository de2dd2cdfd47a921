# toml_comment

Writes configuration structs as TOML whose keys carry the structs' doc
comments as `#` lines.

- `src/value.rs`: the TOML value model and `fmt_value`, the inline text of a
  value (strings escaped and quoted, floats always with a decimal point,
  arrays and inline tables).
- `src/document.rs`: a struct as a `Document` (doc lines and fields) and its
  commented text: `key = value` lines, map entries, and `[dotted.path]`
  sections separated by empty lines.
- `src/comment.rs`: the `TomlComment` and `TomlCommentDefault` traits.
- `src/plan.rs`: what the derive decides from a struct declaration (doc
  lines, and whether each field is a map, a section, an option or a plain
  value).
- `src/laws.rs`: properties of the text that hold for every input.
- `app/lib.rs`: the derive itself (`syn`/`quote`) and the conversion of
  `toml::Value` into the library's values.

Every function under `src/` is verified with Verus against its contract,
but for two trusted wrappers whose contracts are believed: `push_char`
(`String::push`) and `display_datetime` (`toml`'s `Display` for a datetime).
