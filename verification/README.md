# dank_paste

A paste bin and URL shortener.

- `src/` is the library, verified with Verus: identifiers and their paths (`id`, `paste_id`),
  descriptions and request parsing (`info`, `paste_info`), rate limiting (`limiting`), the
  sweeper's rules (`paste_dog`), upload forms (`mpu`), page contents (`site`, `namedpaste`)
  and string helpers (`text`).
- `app/` is the web server around it (Rocket): routes, request guards, files on disk, the
  sweeper thread, and serializable copies of the library's records.
- `tests/` exercise the library on concrete values.
