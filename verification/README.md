# hgame_launcher

The verified core of a launcher for a library of visual novels.

- `src/` is the library, proved with Verus:
  - `deserializer`: reading one row of an SQL result table column by column
    (booleans, numbers, nulls, text, optional values, enum variants);
  - `sql`: reading the result page of the ErogameScape SQL form into headers and
    rows, or into the error the site reports;
  - `scan`: what the folder scan decides (which games leave the library, the
    lookup query for a folder, the main image of a game, the record to write);
  - `text`: decimal numbers and small text operations;
  - `html`: the calls into `scraper`;
  - `interface`, `error`: the records and errors.
- `app/` is the program around it: HTTP requests, the database, the serde
  traits on the row reader, and the desktop shell.
- `tests/` runs the library on concrete inputs.
