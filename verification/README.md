# OpenWave

A dual-mix virtual audio mixer for Linux, built with GTK4/libadwaita on top of
PipeWire. Every input channel feeds a monitor mix and a stream mix (and, if
enabled, a VOD mix), each with its own volume and mute switch, and can run
through a chain of LV2 plugins and a Carla rack for VST plugins.

The library under `src/` holds the decisions of the program. Its behaviour is
stated in contracts and proved with Verus. The program around it, under `app/`,
shows widgets, starts processes and reads and writes files. It reaches the audio
server through the trait `AudioServer` in `app/audio.rs`. No connection to a
server is implemented there: the only implementation, `Unconnected`, reports
that no server was found, and the window shows its error page.

| Module     | What it decides |
|------------|-----------------|
| `config`   | the saved state, its defaults and lookups |
| `loading`  | how a saved configuration is made usable |
| `channels` | adding, removing and editing channels |
| `effects`  | editing the effect chain of a channel |
| `lv2`      | which installed plugins are listed, and their parameters |
| `chain`    | the PipeWire configuration that hosts a chain |
| `fx`, `history` | the helper processes: when they start, stop and are given up |
| `pushes`   | which changed parameters wait to be pushed into a running chain |
| `names`, `launch` | node names, files and commands |
| `devices`  | which inputs and outputs can be chosen, and how they are shown |
| `panel`    | what channel strips and the effects dialog show |
| `session`  | what each edit and each event leads to |
| `number`, `text`, `lists` | bit patterns of numbers, texts, facts about lists |

Floating-point numbers are carried through the library as their bit patterns.
