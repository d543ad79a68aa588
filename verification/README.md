# layout21_gds

Import and export of GDSII libraries for raw integrated-circuit layout, verified with Verus.

- `src/` is the library. `gdsii` and `layout` hold the two data models, `geom` and `layers` what
  both directions need of shapes and layers, `export` the exporter, and `import`, `import_cell` and
  `import_lib` the importer, from single elements over cells to whole libraries.
- The contracts are stated over the values that the `View` implementations give. Each operation has
  a spec function (`export_element_spec`, `import_cell_spec`, ...) that says what it returns and, if
  it can fail, with which error.
- The laws are public proof functions whose names begin with `law_`: `laws_layers`, `laws_labels`,
  `laws_import`, `laws_export` and `round_trip`.
- What is trusted stands in `slots` (the `slotmap` crate) and in `import_cell` (`str::to_lowercase`).
- `app/` converts from and to the data model of the `gds21` crate, and prints what an import warns
  of.

Doubles are held by their bits: the library compares them with bounds, and never calculates with
them.
