# pav_ecs_game

A turn-based dungeon game on a toroidal grid: token-gated movement, enemies
that hunt, search and wander, fractional field of view, light maps, autotiled
walls and a direction marker bound to the player.

The game's rules live in a library verified with Verus (`src/`); the Bevy
application around it (`app/`) holds the ECS plumbing, input and output, and
the floating-point parts (the fractional field of view and the light falloff).

## Library modules

- `geometry` — cell vectors, rotation by a facing, dominant-axis directions,
  entity identities in creation order.
- `grid` — the occupancy grid with its change and vision-blocking revisions.
- `resolution` — two-phase movement resolution: claims collected against a
  snapshot in creation order, old cells left, new cells entered.
- `simulation` — commands and tokens, movement intents, friction, bound
  decorations, token recharge, turn phase and pacing, keyboard commands.
- `ai` — enemy perception, decisions and their commands.
- `line` — Bresenham line of sight.
- `vision` — field-of-view rings, samples and caching; the player's
  visibility layer; the static light rebuild decision.
- `lighting` — light kinds, merging, palettes, the static light layer.
- `frame` — frame composition by visibility, depth, light and hex fill.
- `text`, `map`, `tiles`, `autotile`, `content` — map and rule drawings, what
  each glyph spawns, wall masks and direction glyphs.
- `agent` — remote control decisions and the visual grid.
- `options` — the command line and the screenshot schedule.

Each module states its behaviour in `requires`/`ensures` contracts over spec
functions, and the properties that span several calls as `law_*` proof
functions. `tests/` exercises the library on concrete values.

## Running

The application reads `assets/maps/map1.txt` and the rule drawings under
`assets/rules/` at startup. It runs headless and prints the composed frame;
`U`, `D`, `L`, `R` lines on standard input step the player.
