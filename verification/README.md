# shoji_wm

A Wayland compositor with server-side decorations, shader effects and animated windows. It runs as a
window of another compositor, or on a terminal of its own.

The rules of the compositor are a library whose functions carry contracts that Verus proves. What
talks to clients, graphics devices and the disk is ordinary Rust around it.

## Layout

- `src/` is the library.
  - `geometry`, `strings`, `seqs`, `keymap`, `ordered_map`, `hashing`, `numbers` and `paths` are what
    the rest builds on.
  - `cli` and `config` read what the user asks for, `runtime_key_binding` reads shortcuts.
  - `input` decides what keys, buttons, scrolling and requests for windows lead to.
  - `handlers` keeps track of what clients change, `presentation` of when they are called back.
  - `backend::tty` paces the frames of an output, and picks its mode; `backend::devices` picks the
    graphics devices.
  - `backend::scene`, `backend::snapshot`, `backend::cursor`, `backend::damage` and
    `backend::decoration` decide what a frame is made of.
  - `backend::effect`, `backend::effect_cache`, `backend::effect_pass`, `backend::surface_effect` and
    `backend::shader_effect` plan the effects that show what lies behind a surface, and tell when
    their textures are stale.
  - `backend::icon`, `backend::pixels`, `backend::fonts`, `backend::text`, `backend::async_assets` and
    `backend::async_buffers` find and draw icons and labels. `backend::font_file`,
    `backend::font_names` and `backend::font_outlines` look at a font file before it is read.
  - `backend::window` computes with regions, `backend::visual` with places that lie on pixels, and
    `backend::gap_debug` measures gaps between neighbours.
- `app/` is the compositor: the event loops, the protocols, the renderer, and whatever needs
  fractions.
- `tests/` runs the library on examples.

Proof functions whose names begin with `law_` state what holds of several functions together.

## What is trusted

The library calls `png` to read pictures, `fontdb` to look up faces, and `fontdue` to read fonts and
to ask them for their letters. Each call stands in one function whose contract is believed; its comment says what the
contract claims.
