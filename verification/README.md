# pb_clipboard

`pb` copies files or stdin to the clipboard, converts text between Simplified
and Traditional Chinese, sanitizes build logs (a user name becomes `root`) and
picks lyric files with `fzf`.

The library under `src/` holds everything `pb` decides or computes, verified
with Verus:

- `cli`: the command line (`parse_args`), the text `log` replaces
  (`resolve_log_target`), the `lrc` search glob and every error message.
- `convert`: conversion through the `zhconv` crate, the `.bak` backup name and
  the ordered steps of an in-place conversion (backup first, file last).
- `sanitize`: the whole-word replacement through the `regex` crate and the
  occurrence count.
- `preview`: the previews and the text `paste` prints.
- `select`: the text exchanged with `fzf`.
- `text`: trimming, truncation, `lines`, joining and substring counting over
  `Seq<char>` models.

`app/main.rs` is the program: clipboard (`arboard`), files, stdin/stdout,
environment variables, `glob`, the `fzf` process and coloured output
(`colored`).
