# aperion

The Aperion engine's scene-edit documents (ADF), read and written in their
text form (`ADFT`) and their binary form (`ADFB`), with the engine's command
line, logging and intro-video decisions around them.

`src/` is the library, written in Verus: every function there carries a
contract that Verus proves.

- `lexer`, `parser`, `checker`: the text form. `token_model` and
  `grammar_model` say, as spec functions, what tokens a text holds and what
  document (or first error) a token stream spells.
- `binary`, `binary_model`, `tags`, `format`: the binary form and its
  messages.
- `reading`: documents from bytes in either form.
- `describe`: documents as text for people to read.
- `binary_laws`, `grammar_laws`, `lexer_laws`, `text_laws`: what holds
  across functions, such as that what is written in the binary form reads
  back as the same document, that checking agrees with parsing, and which
  errors each entry point can give.
- `cli`, `logging`, `intro`, `probe`, `display`: the decisions of the
  engine's command line, log lines, intro playback and window.

A number literal in the text form is decoded by a function that the caller
hands in, which gives the bits of its binary64 value; the library itself
works on those bits only.

`app/` is the program around the library: the command line's file reading
and writing, the window and GPU (winit, wgpu), the intro's child processes,
decoder thread and audio, and the process-wide log settings.

`tests/` runs the library on concrete documents.
