# micbridge

One machine captures audio and another plays it, into a playback device that the
second machine presents as a microphone. `src/` is the library: the wire formats,
the reassembly of datagrams, the rings and the receive pipeline, the decisions of
both control loops, and what the window and the command line say. Verus proves its
functions against their contracts. What it believes without proof are the wrappers
around `ringbuf` in `signal/ring.rs` and around three functions of `std` in
`text.rs` (UTF-8 decoding, lower case, and how a string is quoted), with the
specification of `String::push` there. `app/` is the program around the library:
sockets, devices, threads, drawing, and what is floating point.

| Module     | What it holds |
|------------|---------------|
| `bytes`    | numbers as bytes on the wire |
| `text`     | building, trimming and searching text |
| `protocol` | media and discovery datagrams, control messages, framing |
| `signal`   | sequencer, frame ring, channel map, level, gain, pipeline |
| `audio`    | which device is meant, and which microphone it feeds |
| `engine`   | sessions: configuration, state, discovery, both ends |
| `gui`      | the window's settings, notes, tiles, tray, pictures |
| `cli`      | what a command line asks for and what is printed |

Samples pass through the library as bit patterns. What is done to their values is
handed in as a function, and contracts say which sample it is applied to and where
the result goes.

Laws that span several functions are public proof functions beside them, such as
`framing::written_frames_are_read_back`,
`sequencer::packets_land_where_their_index_says` and
`autostart::quoting_round_trips`.
