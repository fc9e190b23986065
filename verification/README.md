# Savio

The rules of a downloader for recordings: its queue, its screens, the metadata of files and the
report on the machine, written in Verus and proved.

- `src/` is the library. Each function states in its contract what it returns; the laws that
  relate several functions are public proof functions beside them.
- `tests/` runs the library on concrete values.
- `app/` is the window, and the work on files, processes and devices. Downloads themselves, the
  installation of tools, power settings and measurements come through a trait there.

What is not proved stands in a few wrappers: the texts of `String::from_utf8_lossy`, the parts of
a path by `std::path`, reading JSON by `serde_json`, and the names of graphics vendors by
`eframe`. Each says in its comment what it claims.
