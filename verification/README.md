# chaptr

chaptr turns hours of gameplay recordings into a timestamped log of what
happened: it scans a footage folder, works out what each audio track
carries, transcribes the voices with whisper.cpp and asks a language model
for one line per moment worth finding again.

## Layout

- `src/` is the library, verified with Verus. It holds the decisions of the
  pipeline, each with a contract:
  - `scan`: start times read from filenames (OBS, ShadowPlay and Game Bar
    stamps) and from the library file, which files are videos, play order
    and sessions;
  - `tracks`: track layouts, roles from track names and from what sampling
    heard, and the per-project role settings;
  - `transcribe`, `asr`, `audio`: how a recording's tracks become one
    labelled transcript, what counts as speech, and the ffmpeg and whisper
    argument lists;
  - `chaptrs`: the prompt, the model endpoints, and duplicate detection;
  - `project`, `workspace`, `media`, `bundle`: project ids and the registry,
    where derived files live, relinking moved footage, the project file and
    its gzip framing;
  - `jobs`, `download`, `resolve`, `catalogue`, `prefs`, `sidecar`: the
    transcription and chaptr passes as a state machine (what to do after
    each recording, on failure and on cancel), resumable downloads, the Resolve seek request, the model
    list, preferences and the external tools;
  - `json`: what is read out of ffprobe's report, whisper's transcript and a
    model's reply body, once serde_json has parsed them;
  - `text`: the string and path primitives the rest is built on.
- `app/` is the command-line program around the library: file and process
  I/O, HTTP, serde's typed JSON, and the floating-point time arithmetic. It
  runs the passes by performing the actions the library decides.
- `tests/` runs the library on concrete inputs.

`public proof fn law_*` items state properties that span several functions,
such as that a project's id does not depend on the order of its sources, or
that an interrupted pass resumes where it stopped.
