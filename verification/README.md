# Audiophile Player

A desktop audio player for macOS: FLAC, WAV, AIFF, M4A and MP3 files through Core Audio, with
playlists, an album library, and titles and covers completed from MusicBrainz and the Cover Art
Archive.

The logic of the player is a library that Verus verifies; around it stands a thin application.

## Layout

- `src/` is the verified library.
  - `metadata`, `stream_info`, `decoder`: what a media file says of itself, and how its packets
    become interleaved samples.
  - `ring`, `engine`, `worker`, `playback`: the sample queue, the playback engine, the decoder
    thread as a state machine, and what holds of playback as a whole.
  - `file_path`, `sorting`, `playlist`, `library`, `artwork`, `frames`: files, playing order, albums
    and covers, and which pictures are handed to the decoder.
  - `json`, `online_metadata`, `enrichment`: requests, replies, and what they complete.
  - `devices`, `display`, `controls`, `loading`: output devices, the labels of the window, its
    buttons and its clock, and loading a track.
  - `text`, `float_bits`: characters and numbers. Floating-point numbers are held as bit patterns.
- `tests/` runs the library.
- `app/` is the application: the window, disk and network, Symphonia, Core Audio and threads.

## What is proved

Every function states in its contract what it returns. Beyond that, functions named `law_...` state
what holds of several of them together; among others:

- Playback is bit-perfect: the samples given to the output since the last seek, and those still
  queued, are exactly the samples that were decoded since, in order. None is ever dropped.
- The frames played and the frames queued add up to the frames decoded, over any number of seeks,
  as long as the file is opened anew for each of them before the next block is decoded. The position
  never goes back while frames are played.
- Nothing is decoded before the first play, nor between a pause and the next play. A file is played
  in its own sample rate and channels, whatever was played before it.
- A track that cannot be opened leaves everything as it was, and the current track changes only once
  the engine has done its part.
- The first value of a tag stays, and the last front cover wins.
- A playlist holds every readable audio file of a folder once, by disc, track number and name.
- A lookup never overwrites what is shown, and one that was overtaken changes nothing. A search for
  covers only gives covers to albums that lack one, and only to the library it was started for.
