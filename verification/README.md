# Privacy indicator

An applet for the COSMIC panel that shows while a camera, a microphone or the
screen is being shared, and by whom.

- `src/` is the verified library: what is being shared, what a message changes,
  what the panel and the popup show. `laws.rs` states what holds of it whatever
  happens.
  - `applet.rs`: the state, messages, panel and popup
  - `popup.rs`: the rows of the popup
  - `camera.rs`: which video devices are held open, and by whom
  - `watch.rs`: inotify watches, what their events mean, and the monitor that
    goes from one inotify instance to the next
  - `node.rs`: PipeWire nodes
  - `path.rs`: paths, compared by their components
  - `text.rs`: bytes and text
- `tests/` runs the library on examples.
- `app/` connects it to COSMIC, PipeWire, inotify and `/proc`.
