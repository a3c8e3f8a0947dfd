# physics_core

Elastic collisions of many small spheres: particles in a box or a sphere that bounce off the
walls, off each other, off larger rigid bodies and off cannons with moving pistons. Written in
Verus: every function of the library has a contract, and all contracts are proved but those of
four wrappers around code of other crates, which are believed:

- `contacts_in_parallel` (rayon's parallel `flat_map_iter` and `collect`),
- `sort_pairs` (the standard library's `sort_unstable`),
- `seeded` (rand_xoshiro's `seed_from_u64`),
- `draw_integer` (rand's `gen_range` on integers).

## Layout

- `src/` is the verified library. It is generic over the number type (`Scalar`), so that its
  contracts fix every operation and its order without saying how a number type rounds. `Fixed` is
  a verified fixed-point type; `Exact` stands for the real numbers and exists in proofs only.
- `app/` is a program around it in single precision: a run in the terminal that reports energy and
  momentum, or a window with `--view`. It supplies what is floating point: the arithmetic and the
  projection matrices.
- `tests/` runs the library in fixed point and in single precision.

## What is proved

- The grid finds, for every point, each particle of the 3x3x3 cells around it exactly once; the
  list of contacts is exact, ascending and free of duplicates.
- A time step computes exactly what `State::stepped` says.
- On the real numbers, a step keeps the energy of particles and bodies as long as no piston moves,
  and their momentum as long as none is carried out of the walls; collisions leave spheres at
  contact distance; the broad phase misses no colliding pair; walls bring particles back inside.
- In fixed point, whatever is rounded: the broad phase misses no colliding pair, the walls of a
  box bring particles back inside and keep the magnitudes of their velocities, collisions of
  particles keep momentum and center of mass to the bit as long as nothing saturates, and pistons
  stay in their stroke.
- Particles are placed on a face-centered cubic lattice and shaken so that all stay inside the
  domain and no two overlap, and each starts with the given speed.
- The camera returns to its first view on a reset, whatever was pressed before.

Laws about lengths take as a premise that every real number from zero on has a square root
(`geometry::roots_exist`), which the solver's arithmetic does not know.

## Configuration

The program reads a TOML file (`config/example.toml` unless a path is given) with the tables
`[particles]` (`count`, `radius`, `mass`, `speed`), `[box]` (`min`, `max`) or `[sphere]`
(`center`, `radius`), `[sim]` (`dt`, `steps`, `seed`, `report_every`) and, for the window,
`[view]`.
