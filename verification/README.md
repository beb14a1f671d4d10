# kantan_video_edit

The verified core of Kantan Video Edit, a small multi-track video editor
that renders with FFmpeg.

`src/` is a Verus library. It plans a render from the project that the
user interface sends: which clips are normalised into intermediate
streams and with which FFmpeg arguments (frame rate, size, colour
adjustments, fades, captions, audio), the black filler for the holes of
the main track, the concat list, the filter graph that lays the other
video tracks over the main one, and the final encode; then the order in
which the runs are made and what a failed run means. It also reads
ffprobe reports and FFmpeg progress lines, builds thumbnail arguments,
and lists where the FFmpeg tools are looked for. Every public function
carries a contract, and the library's laws (escaped captions read back,
printed times and numbers read back, clips ordered by timeline position,
distinct intermediates, each clip read from its own intermediate, only
written intermediates read, progress lines read back) are proof
functions.

`app/` is the Tauri shell: the commands the user interface invokes, the
processes, files and events, and the conversion between the interface's
floating-point seconds and the library's microseconds.

`tests/` holds the tests of the library.
