# vox_rs

A reader and writer for MagicaVoxel `.vox` scenes, verified with Verus.

The library in `src/` keeps a scene as the file stores it: transforms are
cardinal rotations with integer translations, and the decimal texts of material,
camera and sun settings are kept as read, once reading has checked that each is
the text of a float. Its functions carry contracts that
Verus proves: the chunk readers, the scene-graph walk, normalization, palette
and model remapping, deduplication, merging and the writer, and laws such as the
round trips of dictionaries, palettes, voxels and transform texts.

Reading a file is stated in steps: each chunk reader says what its payload does
to the read state, a run of chunks is a trace of such steps over the bytes, and
the scene is built from the last state through the scene-graph walk, the added
layer, the index map, the palette shift, deduplication and compaction. A read
either gives the scene that such a trace and build give, or fails with the error
that one of them meets. A file that writing gives is a run of chunks whose
reading, when it succeeds, gives back the scene's models, palette, version,
animation range and the number of its cameras, color names and layers.

`app/` holds what needs floating point or I/O: float 4x4 transforms and their
sampling, camera matrices, the float values of stored texts, streams and files,
and progress reporting while writing.
