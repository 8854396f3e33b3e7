# Verified host pieces of an iOS app emulator

The library (`src/`) holds, with their behaviour stated and proved:

- `gdb/`: the GDB Remote Serial Protocol server: hexadecimal numbers
  (`hex`), packet framing and receive-buffer scanning (`packet`), request
  parsing (`command`) and the server's answers (`server`).
- `mem`: guest memory as the host functions see it (little-endian words,
  an unmapped null page, a bump allocator).
- `frameworks/audio_toolbox/`: audio queues (`audio_queue`), the disabled
  microphone calls (`guestaudio`), the stand-in exports (`exports`) and the
  lazily created audio context.
- `environment/`: the environment the audio functions work on, and the app
  picker's decisions (`app_picker`).

`app/` connects the library to a TCP socket, the file system and the
emulated CPU; `tests/` exercises the library on concrete values.
