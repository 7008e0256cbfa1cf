# Monster STEP Viewer

A viewer for STEP CAD models. The library holds what the viewer decides and
computes on whole numbers, text and structure, each part with a contract that
Verus proves. The program around it opens the window, reads files, does the
geometry in floating point and talks to the renderer.

## The library

- Reading a file: `exchange`, `entities`, `schema`, `parsing`, `parameter`,
  `numbers`, `text`.
- Colours and placements of an assembly: `colors`, `graph`, `assembly`.
- The course of a load: `prepare`, `loader`, `load_state`.
- The model and its records: `model`, `records`, `selection`, `panel`, `recolor`.
- Meshes and lines: `mesh`, `shell_mesh`, `optimize`, `lines`, `order`.
- The view: `display`, `input`, `screenshot`, `settings`.
- The browser of directories: `browser`, `previews`.
- Surfaces, trim curves and scenes for the NSI renderer: `surface_net`,
  `trim_loops`, `trim_pieces`, `nsi_export`, `nsi_scene`, `nsi_overlay`.

Laws that relate several functions are public proof functions whose names begin
with `law_`.

## What is trusted

Functions marked `external_body` call other crates: the STEP parser and its
table of entities (`exchange`, `entities`), the reordering of meshes
(`optimize`), the PNG encoder (`screenshot`), and parts of the standard library
(`text`, `previews`, `nsi_export`). The comment above each says what is believed
of the call.

## The program

`app` is the program. It checks what a function of the library requires before
it calls it.
