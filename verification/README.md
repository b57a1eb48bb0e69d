# articara

Core of a robot editor and of the whole-body controller that walks its bipeds,
verified with [Verus](https://github.com/verus-lang/verus).

Quantities are whole numbers: nanometres or micrometres, microradians, milligrams,
microseconds, parts per billion. Each module says which it uses. Exponentials,
trigonometric functions and matrix products are computed outside and come in as
numbers; square roots are taken here.

## Layout

- `src/` is the library. Every function states its result in `ensures`, and
  everything in it is proved.
  - `robot`, `joint_map`, `format`, `text`, `order`, `root`: the robot model, how its
    joints map onto the dynamics model, file formats, and small helpers.
  - `collision`, `dynamics`, `chicken_head`, `camera`, `estimator`: self-collision
    results, static loads and payloads, the head hold, the viewport's camera, and
    what feeds the state estimator.
  - `biped`: gait timeline, planned centre of pressure and divergent component,
    swing feet, contacts, tasks, solver fallbacks, bring-up of the machine, state
    of the plant, trajectory log.
  - `editor`: the decisions behind the panels: console, poses and sequences,
    properties and shapes, tree, dragging, picking, export, overlays, the window's
    frame.
- `tests/` runs the library on concrete values.
- `app/` is ordinary Rust around it: drawing, files, floating point, and the loop that
  brings a machine up and runs it.

Functions named `law_..` state what holds of several functions together, or of all
states: that the plan never leaves the hull of its footsteps and moves at the speed it
publishes, that completing a command keeps its candidates, that releasing a drag leaves exactly the pins there
were before it.

## What is trusted

Five contracts on the standard library are believed and not proved: of
`char::is_whitespace` and `char::is_alphanumeric` (`text`), of `str::to_lowercase`
and `Path::extension` (`format`), and of `Path::file_stem` (`editor/export`).
