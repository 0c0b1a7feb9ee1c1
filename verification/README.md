# breezy-cosmic

Head-tracked virtual display for XR glasses on the COSMIC desktop: the content of the primary
monitor is captured, drawn anew under the head's movement, and shown on the glasses, so that the
display appears fixed in space.

`src/` is a library that is verified with Verus. It does no input or output and no floating-point
arithmetic: it carries such numbers as their bit patterns (`ieee`), and where a computation needs
the outside world it answers each event with the next action to take.

| module | what it holds |
| --- | --- |
| `text`, `ansi`, `bytes`, `pixels`, `ppm` | plain data: text, terminal colors, integers in bytes, pixels, pictures |
| `listing` | the listing that `cosmic-randr list` prints |
| `output`, `report` | the outputs, the choice of glasses and monitor, what the user is told |
| `pose` | the record that XRLinuxDriver writes |
| `capture` | the region that the capture helper fills |
| `config` | the configuration and its defaults |
| `render`, `gpu` | the orientation shown, what the GPU gets and how its output comes back |
| `surface` | the overlay and its redraws, the test pattern |

`app/` is the program around it: arguments, files, processes, shared memory, Wayland, the GPU and
the arithmetic on quaternions and matrices. `tests/` runs the library on given values.
