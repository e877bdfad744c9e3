# codex_grok

The verified core of a Grok (xAI) integration for a terminal coding agent, and of its
terminal diagram renderer.

`src/` is checked by Verus; every public function states what it returns in its contract.

- `xai_responses`, `xai_items`, `xai_tools`, `json`: adapting `/responses` requests to
  xAI (input items, tool definitions and their JSON schemas, the request body), over a JSON
  model whose objects keep their member order.
- `prompt_cache`: content-addressed prompt cache keys (SHA-256 of instructions and sorted
  tool JSON).
- `xai_oauth`, `login`: the decisions of the browser OAuth login and of the login commands
  (authorize URL, token request bodies, callback answers, final response framing, messages).
- `catalog`, `agent_communication`: the curated model list and agent-communication records.
- `gantt`, `schedule`, `timeline`, `calendar`, `text`: parsing, scheduling and drawing Mermaid
  `gantt` charts.
- `grouped`: edge routing between boxes of grouped diagrams, and scene padding. A route
  that is returned is valid; a whole search takes a fixed number of queued cells
  (`search_pops`), which is what it spends when the budget covers it, and otherwise the
  search gives up with no budget left. The search is cheapest-first over cells, but a route
  is not promised to be the cheapest one (turn costs depend on how a cell was reached).
- `frames`: building the scene of a grouped diagram scope by scope, each kept group's scene
  padded and moved into the middle of its frame; the layout engine of one scope is handed in.
- `paint`: drawing a routed edge: line masks, heads, and its label at the first place along
  the route where it fits; a label that fits nowhere makes painting fail rather than vanish.
- `diagram`: the bounds under which a diagram is drawn rather than shown as source.

`app/` holds what Verus does not check: the loopback HTTP server, stdin and stderr, logging
through `tracing`, and conversions to `serde_json` and `ratatui` values. `tests/` exercises the
library through its public API.
