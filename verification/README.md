# ccv3_pp

Performance points for osu! plays, verified with Verus.

The library rates maps and scores: strain of single objects with and without
Relax, the skills of a whole map, the decay and buffs of long maps, and what a
score of osu!standard or osu!taiko is worth. It also reads the command line of
a small program that generates plays.

All numbers are IEEE binary64, computed in software on their bit patterns
(`src/double.rs`) and proved to round as the standard says (`src/value.rs`,
`src/rounding.rs`). Transcendental functions, single precision geometry and the
curves of the difficulty engine are asked of the caller (`src/query.rs`);
nothing is claimed of them beyond that equal questions get equal answers. Laws
that rest on more, such as that a curve answers shares, say so.

- `src/` the verified library
- `tests/` tests, most of them against hardware floating point
- `app/` hardware floating point, the command line and printing
