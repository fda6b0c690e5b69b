# Sand

A falling-sand sandbox whose simulation core is written in Verus and proved
against its contracts: a grid of cells with density-driven movement,
chemistry, an electrical charge wave and a temperature field with phase
changes.

## Layout

```
src/           the verified library
  element.rs   element catalogue and static properties
  world.rs     cells, temperature field, painting, movement primitives,
               colours, and `World::step`
  behaviour.rs per-element rules (powders, liquids, gases, fire, acid,
               plants, ants, bombs, faucets, explosions)
  energy.rs    charge propagation, heat emission, diffusion, phase changes
  skeleton.rs  the breakable skeleton of ragdoll humans
  demo.rs      the showcase scene
  ui.rs        panel and brush state, stroke interpolation
  laws.rs      laws over whole steps: a calm world rests, charge dies
               out, heat makes no new extremes, walls survive
  rng.rs       the random source (macroquad's generator)
app/           window, input, rendering and the floating-point ragdoll
               physics, around the library
tests/         tests of the library
```

Temperatures are fixed-point integers in thousandths of a degree Celsius.

`World::step` states its four passes exactly: the moved flags are cleared;
the charge pass visits every cell in row-major order; the movement pass
updates every cell once, bottom-up with the x direction alternating by
frame, each by its element's rule; the heat pass emits, diffuses and applies
a phase change at every cell. Walls never appear or disappear. Every rule
that draws random numbers hands the draws to a function whose contract fixes
the outcome for each value drawn.
