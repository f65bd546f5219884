# imgren

Batch renaming of the image files in a folder: numbered names (`001.jpg`),
a prefix or date before the number (`IMG_001.jpg`, `20240308_001.jpg`), or a
custom pattern with `{N}`, `{P}`, `{D}` and `{E}` placeholders.

- `src/` is the verified library (Verus):
  - `text.rs`: white space, trimming, searching, decimal formatting and parsing;
  - `naming.rs`: the naming patterns, extensions, the image filter, and the
    handling of a name that is taken;
  - `order.rs`: the order in which files are numbered;
  - `dialog.rs`: the format dialog as a state machine, the command-line format,
    the folder and confirmation answers;
  - `progress.rs`: the progress line;
  - `foreign.rs`: the calls into std, chrono and rand whose contracts are trusted.
- `app/` is the program around it: arguments, console, directory listing,
  renaming.
- `tests/` runs the library on concrete values.
