# italiansuperwhisper

On-device dictation built around Italian. Press a shortcut, speak, and the text
is typed into whatever app is in front of you; nothing leaves the machine.

`src/` is the library, written in Verus: every rule, plan and state machine of
the application, with its contract and its proof.

| Module | What it holds |
| --- | --- |
| `corrector` | always-true corrections of accents, spellings and spacing; correcting twice is correcting once |
| `reformulation` | the guard around a rewriting model: the dictation is never lost |
| `dictation` | settings, the hotkey, and the pipeline that saves a dictation before it pastes it |
| `speech`, `audio` | which samples are decoded, how buffers are mixed down, cut up and put together |
| `paste` | clipboard bursts and their restore, the paste chord |
| `store` | recordings, identifiers in the database, migrations, search, audio files |
| `models` | the catalog, installed models, and downloads that are validated before they are installed |
| `ids`, `clock`, `text`, `permissions` | what the others share |

Proof functions whose names start with `law_` state what holds of a module as a
whole.

The library calls `regex` and `uuid`, and a few functions of the standard
library, through declarations that say what is taken on trust; each has a
comment that names the function and the claim.

`app/` is the desktop application around the library: windows, microphone,
models, database file, network and clipboard. `tests/` runs the library on
concrete values.
