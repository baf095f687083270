# cutsvg

Drawings for a cutter, written as small Lisp scripts, rendered to SVG and
shown live in a browser.

* `src/` is the verified library:
  * `num.rs`: decimal numbers as doubles are displayed, printed and parsed
    back, with the round trip proved;
  * `drawing.rs`: lengths in units, figures, drawings;
  * `svg.rs`: the SVG document of a drawing;
  * `script.rs`: the primitives that scripts call (`px`, `in`, `cm`, `mm`,
    `cut-line`, `draw-line`, `cut-circle`) and the bindings scripts start with;
  * `viewer.rs`: what the viewer keeps and serves.
* `app/` runs the interpreter, watches the script file, serves HTTP and
  announces changes over a websocket.
* `tests/` exercises the library.
