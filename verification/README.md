# Settlers 4 widescreen tool

Patches The Settlers 4 (GOG Gold Edition v2.50.1508) to run at any resolution from 800×600 to
7680×4320: it writes the vanilla `GfxEngine.dll` with the screen size at its two operand offsets
and sets the size, fullscreen and screen mode in `Config/GameSettings.cfg`. It can also restore
the vanilla 1024×768.

## Layout

- `src/` — the library, verified with Verus:
  - `dynamic_patcher` — patching and reading the resolution of the graphics engine image;
  - `ini_handler` — editing and reading the game's brace-delimited settings text; `ini_laws`
    proves that a key set reads back its value (except when an added line completes a garbled
    pattern left just before the last `}`), and that a resolution written reads back as written
    on any text where the four keys are each absent or on a line of their own and, when one is
    absent, the last `}` starts a line; that on such a text writing the resolution twice
    gives what writing it once gives; and that a list of updates applies left to right;
  - `game_detection` — installation paths, directory checks and the breadth-first search for an
    installation, which takes directories in order of depth and never goes deeper than five
    levels below the search root;
  - `patcher` — recognising the game among the entries of `/proc`;
  - `validation` — the SHA-1 check of `S4.exe` against the known GOG hash;
  - `resolution`, `display` — the known resolutions and the default screen size;
  - `gui` — the window's state machine: each message gives the next state and the outside work
    to do;
  - `text` — the character-level helpers the rest is built on.
- `app/` — the program: the iced window, file and `/proc` access, the folder dialog and the
  display query. It carries out the effects the library asks for.
- `tests/` — tests of the library.

At run time the program reads `dlls/GfxEngine_default.dll` (the vanilla image) and
`assets/app-icon-64.rgba` (the window icon) from beside the executable or the working directory.
