# twitch_data

Lists the videos of Twitch channels and downloads them. The rules are a library that is verified
with [Verus](https://github.com/verus-lang/verus); the program around it talks to Twitch and to the
disk.

## Layout

- `src/` is the verified library.
  - `text`, `text_lemmas`, `number`, `table`: searching, splitting and replacing text, reading
    numbers, and a map that keeps its order.
  - `time`, `duration`: how Twitch writes points in time and lengths of time.
  - `token`, `url`, `playlist`: asking for a playback token, and choosing a quality.
  - `parts`: the parts of a video and its age.
  - `download`: batches, addresses of parts, and the steps from parts to a finished file.
  - `order`: the order of the parts.
  - `pager`, `video`, `error`: lists that come in pages, descriptions of videos, errors.
- `tests/` runs the library on examples.
- `app/` is the program. Besides the crates in `Cargo.toml` it uses `downloader_config` and the
  module `twitch` of `exponential_backoff`, which are not published on crates.io.

## What is trusted

Verus takes the contracts of these functions for granted. Each has a comment that says what is
claimed.

- `String::push`, `String::from`, and the conversion of a value into its own type, of the standard
  library.
- chrono: `DateTime::parse_from_str`, `format::parse` with `Parsed::isoyear`, the display of a
  `DateTime<Utc>`, the difference of two of them, `Utc::now`, and `TimeDelta::milliseconds` with
  `num_seconds`.

A function that reads text and has a precondition on it has a companion whose name begins with
`try_`. It tests the precondition and returns `None` where it does not hold. `get_parts_at` shares
that of `get_parts`, and `video_created_at` is reached through the conversion of a video.
