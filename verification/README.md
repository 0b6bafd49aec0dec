# c41_darkroom

The logic of a desktop darkroom for scanned colour negatives, written and proved in Verus.

* `src/` is the library. It has no floating point of the machine: numbers are binary32 values
  held as bits (`single`), and every operation on them is proved against the real number that it
  rounds. Powers, logarithms, matrix inverses, profile conversions and the rendering of a picture
  come in as closures; contracts say what is handed to them and what is done with what they give.
* `tests/` runs the library, against the machine's own arithmetic where there is some.
* `app/` is the window: files, dialogs, LittleCMS, nalgebra and drawing.

Where to look first:

| Question | Module |
| --- | --- |
| Where is the frame on the scan? | `auto_crop`, with `surround`, `gates`, `frame`, `sprockets`, `aspect` |
| How is a negative graded automatically? | `auto`, with `search`, `metrics` and `auto_report` |
| How does density become a print? | `curve`, `paper`, `color`, `bujack` |
| How are colours calibrated and managed? | `calibration`, `aces`, `cms`, `color_space` |
| When is a preview made, and of which tiles? | `preview`, `preview_job`, `tiles`, `tile_cache`, `tile_job` |
| How does the picture lie on the canvas? | `canvas`, `orient`, `turns`, `geometry`, `view` |
| What do the sliders write and show? | `settings`, `sliders`, `panels` |
| What is kept of a session? | `session`, `project`, `unsaved`, `export`, `jobs`, `dust` |
| How is the film base copied and pasted? | `dmin_text`, with `numerals` and `text` |

The public proof functions of each module state what holds of it as a whole.
