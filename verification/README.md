# Jurassic Sandbox

A dinosaur sandbox on a grid, drawn in the terminal. Dinosaurs wander, look
for trees to eat and for partners, lay eggs, hatch, die and rot; trees grow
back in groves.

- `src/` is the library, verified with Verus: the board and its occupancy
  grid (`world`), movement and the ring scan that finds the nearest thing
  (`simulation::movement`), the per-tick rules (`simulation::systems`),
  genetics, and the viewer's camera, tabs and input handling (`ui`). The older
  four-way model lives on in `board` and `creatures`.
- `app/` is the program around it: the Bevy schedule and components, the
  floating-point gauges (hunger, health, maturity, desire, decay), forest
  noise, and the ratatui/crossterm terminal.
- `tests/` runs the library on concrete cases.
