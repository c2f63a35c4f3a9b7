# zglyph

A terminal renderer for 3-D wireframe glyphs, with its integer core verified
by Verus.

- `src/` is the verified library:
  - `line.rs`: Bresenham line rasterisation, proved to visit the pixels of the
    line from end to end, connected, within half a pixel of the ideal segment.
  - `renderer.rs`: the frame buffer (twice the terminal resolution), the
    mapping from centred pixel coordinates to cells, and the text of a frame.
  - `models/stl.rs`: merging STL facet corners that fall on one grid point
    into shared vertices, and the triangles and edges of the mesh.
  - `models/cube.rs`: the unit cube: corners, edges, and two triangles per face.
  - `controls.rs`: what each key and mouse event does to the view.
- `app/` is the program around it: terminal I/O, STL file reading, and the
  floating-point work (rotation, projection, depth test, anti-aliasing).
- `tests/` runs the library on concrete inputs.
