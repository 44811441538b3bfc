# maki_transcript

The transcript of a terminal agent, as data and as cells: blocks are projected
into plain values that a Lua renderer reads, what the renderer returns is read
back and laid out as styled lines, and raw terminal sequences are validated,
clipped and placed after the frame.

Verus proves the contracts in `src/`. Two things stand outside the proofs:

- The calls into `unicode_width`, `crossterm`, `serde_json`, `ratatui`, `mlua`,
  `flume` and a few functions of the standard library. Their contracts are
  believed; a doc comment above each says what is claimed. What a channel holds
  is left open, so asking it has no contract at all.
- The methods of `Host`, `Theme` and `LuaReader`, which the program around the
  library implements. They have no contracts, and nothing is assumed of them:
  what is stated holds for every answer they give.

| Modules | What they hold |
| --- | --- |
| `cells`, `snapshot`, `wrap` | styled spans and the greedy word wrap |
| `raw`, `raw_writer`, `overlay` | raw sequences: validation, writing, clipping and repainting |
| `message`, `body`, `diff`, `grep`, `code`, `header`, `json` | messages and their projections |
| `host`, `owner`, `project` | who draws a body, and whole blocks projected |
| `lua`, `render`, `parse` | the renderer chain and what a renderer returned |
| `style`, `compose`, `place`, `layout`, `theme` | render objects laid out as lines |
| `block_render` | the cache of rendered blocks |
| `*_laws` | what follows of every input |

`app/` has the parts that run the interpreter and write to the terminal.
