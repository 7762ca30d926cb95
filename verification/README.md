# vyges-ifp

Floorplan initialization over a design database: set the die area, snap the core to the site grid,
build the rows, and store the core area that those rows cover. The rules are verified with Verus.

```text
vyges physical ifp run design.odb --die-area '0 0 1000 1000' --core-area '10 10 990 990' --site NAME
```

## Layout

- `src/` is the library. Everything in it is arithmetic and text over plain values, in database
  units, with a contract that Verus proves. Nothing in it touches a database.
  - `geometry`, `model`, `text`, `words`: rectangles and grids, the data, and the texts.
  - `order`, `fit`, `rows`, `pattern`, `hybrid`, `plan`: the planner.
  - `domains`, `writing`: splitting rows around voltage domains, and what is written in which order.
  - `areas`, `sites`, `polygon`: where die, core and sites come from, and polygon floorplans.
  - `tracks`, `trackwork`, `track_report`: routing tracks.
  - `cli`, `command`, `notices`, `refusal`, `json`, `report`: command lines, events and reports.
  - `ordinary`: laws by which nothing about a design of ordinary size leaves 32 bits.
- `tests/` runs the library on concrete values.
- `app/` is the program around it: it reads the database, converts microns, and writes.

## Behaviours worth knowing

The core's lower left is rounded up to a whole site, and its upper right stays where it was asked
for. After the rows are built, the stored core area is what the rows cover.

Sites are visited in name order, each name once, and row names number throughout. A hybrid site
gives two sets of rows: the pattern's member sites in sequence, and one row of the hybrid site per
whole pattern. Row parity is refused on a hybrid floorplan.

The report is JSON whatever the path and the names in it: texts are escaped, and a law says which
value the report stands for.

Coordinates are 32-bit. A contract asks that whatever is written fits. Beside each function that
asks for it stands a test of exactly that: `can_plan`, `can_split`, `can_place`, `can_outline`,
`can_start`, `can_stack`, `can_track`.

## What is trusted

- `String::from` on borrowed text keeps the characters (`text`).
- The debug format of a text depends on the text alone (`trackwork`).
- `serde_json` builds values from numbers, texts, lists and named entries, and writes them over
  several lines (`track_report`).

## Exit status

`exit_status` in `command` gives it: `0` applied or planned, `1` refused because the design cannot be
floorplanned as asked, `2` usage error, unreadable database, no DBU scale, or a failed write.
