# spatialbench

The verified core of a spatial benchmark data generator, written in Verus.

- `src/numfmt.rs`: integers as the `{}` and `{:0N}` formats print them,
  specified over character sequences.
- `src/generators.rs`: the vehicle, driver, customer and building rows and
  their names in 'tbl' format; vehicle prices; driver selection; customer
  mortality; trip dropoff times.
- `src/spider.rs`: the distribution and geometry types of the Spider
  generator and how their names are read, the SplitMix64 record seeds (with
  a proof that distinct records get distinct seeds), and the polygon side
  count drawn with `rand`.
- `src/zones.rs`: the zone rows; how loaded zones are split between the parts
  of a run (with a proof that the parts together hold every zone once, in
  order); the subtypes, counts, offsets and query text used to load one part.

`app/` holds what Verus does not take: the `f64` geometry of the Spider
generator, its presets, overrides and YAML configuration, DuckDB loading,
scale-factor arithmetic, and Arrow record batches.
