# narayan_web

A web converter of FLAC files to 320 kbit/s MP3 files, with a verified core.

`src/` is the library, written in Verus and verified: the settings and how they are
read from the environment, the error texts and HTTP statuses, Unix path handling
(components, file names, extensions, `strip_prefix`, `parent`, `join`), the job table
and the state machine that runs a job's conversions, the decisions of a conversion
(accepted inputs, output names, FFmpeg's arguments, progress lines, failure texts),
the music library (path validation, listings, selections) and the answers of the API.

`app/` is the server around it: Axum routes, the multipart upload, the disk, FFmpeg
processes, ZIP archives and the WebSocket channel. It performs the work that the
library asks for and hands the outcomes back.

`tests/` runs the library on concrete values.
