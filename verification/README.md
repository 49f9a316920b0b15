# converter

A command-line tool that converts a file from one type to another by running
an external program (ffmpeg, pandoc, ...) described by a JSON manifest.

- `src/` is the verified library: the file type of a path (its extension,
  lowercased, looked up in the file-types table), the search for a converter
  between two types, the filling of a converter's argument template, the
  selection of converters whose program is installed, and the check of the
  output file after a run (it must exist and be no more than a second older
  than the end of the run).
- `app/` is the program around it: command-line arguments, reading the
  configuration directory, prompts, and running the converter.
- `tests/` exercises the library on concrete values.
