# vct

The logic of VCT, a desktop video converter built on FFmpeg, as a Verus
library whose behaviour is stated in contracts and proved.

- `src/ffmpeg.rs`: the FFmpeg argument lists for each encoder family and
  preset, the vendor behind an encoder name, hardware encoder probing and
  its report, the ffprobe arguments and the summary of a probe.
- `src/progress.rs`: the parser of FFmpeg's `-progress` output.
- `src/tasks.rs`: the error log of a job, its failure message, the
  outcome and reported status of a finished job, and the registry of
  running jobs through which a cancellation is detected.
- `src/text.rs`: trimming, searching and decimal numbers over characters.
- `app/`: the Tauri application around the library: the sidecar processes,
  the event loop of a job, the JSON of ffprobe, and everything that reads a
  number as floating point (rates, durations, percentages, the seconds of a
  clock).
