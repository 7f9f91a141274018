# rust_o_mapper

Reads orienteering maps saved by OpenOrienteering Mapper (`.omap` files, which
are XML) and serves them to a web viewer.

The library under `src/` is written in Verus: its public functions carry
contracts, and several properties that hold across functions (moving the
origin there and back, the survey of kinds of element, reading a tree) are
stated and proved as lemmas.

- `text`: reading integers, booleans and floating-point literals the way
  `str::parse` does, splitting, trimming and writing decimal numbers.
- `map_file::reading`: the tree of XML elements of a file, built one reader
  event at a time, its lookups, its text form and the survey of the kinds of
  element it holds; `map_file::explorer` walks through it one choice at a
  time; `map_file::xml_source` turns the bytes of a file into the reader
  events (`quick_xml` does the reading); `map_file` also tells which files
  are maps.
- `map::colors`: which colors a map has and where each one's value comes from.
- `map::symbols`: the symbols and the simple shapes they are drawn with;
  `map::symbols::svg` the paths of the picture of a map.
- `map::elements`: the objects of a map, their bounding box and the moving of
  their origin.
- `map::yaml_encoding`: the form in which the viewer receives a map.
- `web_requests`: how each request of the viewer is answered.
- `xml_objects`: a plain tree of a file and the survey of its kinds of element.

`app/` holds the program around the library: reading files from disk, the
floating-point arithmetic on colors, the SVG and JSON output, the socket
server and the command line. `tests/` exercises the library.
