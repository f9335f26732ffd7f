# wysiwyl

*What You See Is What You Listen.* An image is turned into a grid of pixels,
and any number of synthesizers read that grid: colors become pitches, saturation
becomes velocity, brightness becomes rhythm, and the notes go out as MIDI
messages.

The library in `src/` holds the rules of that machine, verified with Verus:

| module | what it states |
| --- | --- |
| `state`, `config`, `number`, `error` | the values: synths, settings, numbers held as bit patterns, errors |
| `zone`, `sequence` | selections of grid cells, and the order in which their pixels are read |
| `pitch`, `rhythm`, `velocity`, `levels` | from pixel values to notes, lengths, velocities, black and white points |
| `playback`, `metronome` | what one step plays, sends and reports, and where the playhead goes |
| `clock`, `conductor` | the MIDI clock that is followed or broadcast, and the metronome's loop |
| `midi`, `text` | messages, output and input ports, learned programs |
| `synth`, `session`, `image_processing`, `raster` | the commands on synths, the saved work, the loaded image |

What holds across several functions stands as public proof functions, most of
them in the modules whose names end in `_laws`.

The boundary to the `image` and `base64` crates, mostly in `raster`, and to the
parts of the standard library that have no specification, such as sorting and
trimming, is a set of small wrappers. Their contracts are believed; everything
else is proved.

`app/` is the desktop application around the library: the window, the dialogs,
the MIDI ports, the threads, the files, and what is computed in floating point.
`tests/` runs the library on concrete values.
