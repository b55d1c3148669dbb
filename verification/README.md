# gesture-forge

Touchpad gestures for Linux: raw kernel events become normalized touch frames,
frames become swipes, holds and drags, and configured bindings turn those into
actions. The logic is a library verified with Verus; a thin application around
it reads devices, files and sockets.

## The library (`src/`)

- `codes`, `raw_event`, `touch_frame`: kernel events and normalized touch frames.
- `physical`, `synthesizer`, `output`, `router`, `passthrough`, `slots`,
  `virtual_device`: the touchpad proxy, which forwards one and two fingers as a
  checked multitouch stream and hides three or more, and a model of the device
  that takes the stream in.
- `recognizer_config`, `segments`, `recognizer`: recognition rules and the
  recognizer.
- `event`, `config`, `trigger`, `engine`, `dispatch`, `provider`: events, bindings,
  and what an event sets off.
- `actions`, `conditions`, `key_chord`, `pointer_drag`: the built-in providers.
- `client`, `drag_stream`, `security`, `device`: decisions of the command line
  tool and the daemon.
- `text`, `text_map`, `number_text`, `metric`, `json`, `ids`: what the others are
  written in.

Numbers with a fraction are held as the bits of a double (`metric`): the library
compares them exactly, and leaves arithmetic on them to its caller. Work that
waits on a device, a process or a socket is stepped through from outside: the
library says what is to be done next, and takes in how it went.

Proof functions named `law_...` state what holds across functions.

## The application (`app/`)

The command line tool, and under the name `gesture-daemon` the daemon.
