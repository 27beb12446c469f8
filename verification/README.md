# subsforge

Generates subtitles for a media library: the audio of each file is extracted
with ffmpeg, transcribed with whisper, translated with an NLLB-200 server, and
written beside the file as `Name.lang.srt`. Sonarr and Radarr are polled for
new files, and an HTTP API lists, creates and retries jobs.

- `src/` is the library, verified with Verus: the SRT format (`pipeline/srt`),
  the conversion of whisper's output and its command line (`pipeline/whisper`),
  ffmpeg's command line (`pipeline/ffmpeg`), translation requests and the retry
  policy (`pipeline/translator`), the decisions of processing a job
  (`pipeline`), of a polling cycle (`watcher`), configuration and path mapping
  (`config`), subtitle paths (`naming`), API answers (`api`), and the text
  utilities they rest on (`text`). The job pipeline and the polling cycle are
  state machines: they say what to do next, and are told what came back.
- `app/` is the program around it: command line, configuration file,
  SQLite database, HTTP server and client, external commands.
- `tests/` exercises the library on concrete values.
