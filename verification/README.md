# spatial_kernels

PostGIS-style functions over columns of geometries, verified with Verus.

- `src/` is the library. Every function has a contract that Verus proves. The laws that relate
  several functions are public proof functions named `law_...`.
- `app/` binds the library to DataFusion and GeoArrow: signatures, plan-time types, array
  conversions, and the floating point algorithms of `geo` that the kernels ask for.
- `tests/` runs the library on concrete values, with the real outside crates.

Five outside functions are believed without proof: `geohash::decode`, the parser of
`geojson::Geometry`, `wkb::reader::read_wkb`, and `from_wkt` and `from_wkb` of
`geoarrow_array::cast`. Each has a wrapper whose doc comment says what is claimed of it.

A coordinate is held in `src/` as the 64 bits of a double. Arithmetic on doubles comes from the
caller as a function. The contracts say which arguments that function gets and what becomes of its
answer.

Reprojection needs the PROJ system library, which only `app/` links.
