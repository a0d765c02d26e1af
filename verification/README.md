# gravity_engine

The verified core of Gravity Engine, a 2D physics sandbox in which dropped
images become rigid bodies.  The library, in `src/`, is written in Verus: each
public function carries a `requires`/`ensures` contract that Verus proves.
The game itself (window, drawing, rapier physics, sound, file dialogs, HTTP)
is the program in `app/`, which calls the library for its decisions.

## Layout

- `src/modes.rs` — border, background, drag and spawn-shape modes: their
  cycles, labels and what each mode implies.
- `src/menus.rs` — context menu, drag-mode picker, spawner panel and gravity
  preset buttons as state machines driven by hit-test results.
- `src/input.rs` — which widget a left click belongs to; what Escape does.
- `src/scene.rs` — removal of objects at a killing border, motion trails,
  the 88×31 download counter, the title-screen dissolve order.
- `src/shuffle.rs` — the seeded Fisher–Yates shuffle and its permutation law.
- `src/buttons.rs` — image URLs of a gallery page, merging of galleries,
  the download plan and file names of downloaded buttons.
- `src/playlist.rs` — `.pls` parsing: line recognition, `u32` numbers, path
  resolution and track order.
- `src/images.rs` — decoded RGBA images, resizing, cut-out sampling, source
  kinds by file name.
- `src/gif_anim.rs` — GIF frame compositing, frame delays and decoding.
- `src/audio.rs` — the module player's and the regular player's state,
  routing of chosen files, names shown for what is playing.
- `src/text.rs` — character-sequence helpers with the meaning of the
  corresponding `str` methods.

`tests/` runs the library on concrete values; `app/main.rs` is the game.

Calls into `image`, `gif`, `macroquad::rand` and `std::path` are made through
small trusted wrappers whose contracts are stated in their doc comments.
