# iodd

Create, convert, verify and audit fixed-size virtual disk files for IODD
hardware, which maps a file's extents once at mount time and streams sectors
straight off the volume. Such a file has to be fully allocated and to occupy a
single contiguous extent.

`src/` is the library, verified with [Verus](https://github.com/verus-lang/verus).
It decides and reads or writes nothing:

- `size`, `footer`, `source`, `paths`: what a size, a VHD footer, a source
  image and a path mean
- `contig`: which runs a file occupies, what may happen next while a file is
  laid down, what an NTFS volume says of itself
- `cmd`: what `create`, `convert`, `verify`, `doctor` and `retype` decide
- `report`, `error`, `cli`, `text`, `bytes`: what is shown, the exit codes, the
  arguments, and what the rest is written with

Functions named `law_..` state what holds of the library as a whole.

`app/` is the program around it: arguments, files, ioctls and JSON. Called as
`ntfs-contig` it offers the contiguity engine on its own.
