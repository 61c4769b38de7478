# camera-latency-test

Estimates the latency of a camera: a pattern that changes at a fixed rate is shown
on the screen, the camera looks at it, and the transitions that the camera sees are
matched with the transitions that were shown.

The logic is a library verified with [Verus](https://github.com/verus-lang/verus);
the program around it does the input and output.

## Library (`src/`)

| module | what it does |
|---|---|
| `stimulus` | the pattern of each transition, and decoding it |
| `decoding` | from the bytes of a camera frame to its image |
| `detection`, `readback` | reading the transition off a camera frame, and what holds of it end to end |
| `roi`, `regions`, `layout` | the region of interest and what holds of it; where things lie on the screen |
| `preview` | the camera image as it is shown |
| `session`, `capture` | the course of the runs; which readings are logged |
| `logs` | what the logs look like at any time |
| `alignment`, `analysis` | matching transitions; samples and summary statistics |
| `statistics` | what holds of the summary statistics as a whole |
| `warmup` | leaving what is logged during the warm-up out of the results |
| `results` | the reports on runs and the result that is handed out |
| `arithmetic` | the operations on measured values |
| `stable_sort` | sorting |

Statements about the library as a whole are the proof functions whose names begin
with `law_`.

Measured values are computed with an arithmetic that the program plugs in. The
contracts say which operations are applied to which values and in what order, and
assume nothing of their results, so they hold of floating point as of any other
arithmetic. Where a law needs more, it says so: that operations are functions, that
comparisons agree on an order, or that nothing is rounded.

One function is not proved: `decoding` hands the bytes of a frame to `nokhwa`'s decoder
and takes from its source when that succeeds and what comes out. Motion JPEG is decoded
by the program.

## Program (`app/`)

A window that shows the pattern, a thread that reads the camera, and export to CSV
and JSON:

```bash
camera-latency-test --camera-index 0 --stimulus-hz 30 --duration-s 10 \
  --method quad-code --luma-threshold 128 --mode offline --offline-runs 5 \
  --csv-out samples.csv --json-out report.json --json-stdout
```

- **online**: one run that goes on until the window is closed, with statistics shown
  as it goes.
- **offline**: a number of runs of fixed duration, gathered into one report.

Options that the line above leaves out:

- `--max-forward-jump-ms <MS>` rejects readings that are further ahead of the previous
  one than the transitions shown in that time. Without it only the code cycle bounds a
  jump: a reading is less than 16 transitions ahead.
- `--warmup-s <SECONDS>` leaves events logged before that time out of the results.

Of the frames read:

- Repeated frames are ignored: a frame that shows the previous transition still gives
  no event.
- Readings only move forward.
- Torn frames, which show one transition at the top and another one at the bottom, are
  filtered out. With `luma-step` the top and the bottom quadrants are compared, with
  `quad-code` each quadrant is read at three heights. A tear of coded quadrants that
  runs between the top and the bottom ones cannot be told from a code. The window and
  the JSON result give the share of torn frames.

Latency is the difference between the timestamps of a transition on the screen and in
the camera image, both counted from one epoch.

`compute_latency_samples(display_ms, camera_ms)` is callable from Python, where the
program is compiled with `--cfg 'feature="python"'`.

The camera backend is picked by a feature of `nokhwa` (`input-native` for that of the
platform); it needs the platform's camera headers to build.

Auto-exposure and auto-white-balance can increase jitter and false detections; switch
them off where possible.
