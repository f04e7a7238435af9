# Cooliris

A wall of photos, videos and music that streams from disk: however large the library is, only a
window of tiles around the camera is loaded, into a fixed pool of texture layers.

`src/` is the library. Its functions state in `requires` and `ensures` what they do, and Verus
proves it:

- `pool`, `pool_laws`: which tiles are loaded, and into which layer of the pool
- `wall`: what the wall shows, its animations, and in which order tiles are painted
- `frame`: one frame, from finished decodes to the tiles to paint
- `state`, `input`, `pointer`, `status`: what clicks, drags and keys do, and what the screen says
- `components`, `widgets`, `edit`: what the pointer hits, which widgets show, and text fields
- `library`, `media`, `manifest`, `order`, `paths`: scanning, filtering and sorting
- `decode`, `images`, `gifs`, `tiles`, `icons`, `video`: from files to pixels
- `budget`, `dates`, `text`, `system`: memory, calendar, text and system lines
- `laws`: what holds of all of it together

Doc comments name every call into another crate, and what is taken for granted of it.

`app/` is the program around the library: the window, the GPU, files, threads and the player.
Everything in floating point (camera, layout, colours) is there. It reads its drawings from an
`assets` folder (`assets/icons/*.svg`, `assets/samples/01.svg` to `18.svg`) beside the program or
in the current directory. Playback needs libmpv and the `video` feature; thumbnails of videos and
covers of music need `ffmpeg` on the path.

`tests/` runs the library on concrete values.
