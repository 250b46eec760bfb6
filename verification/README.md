# foundryvtt_streamdeck

A Stream Deck (OpenAction) plugin for Foundry VTT: Actor Sheet keys that toggle a
character sheet and show the actor's artwork, Condition keys that follow and toggle a
condition on the selected tokens, and Initiative keys that start combat for the selected
tokens and follow the combatant whose turn it is, from the companion module's `combat` events.

The plugin's logic is a library verified with Verus:

| Module | What it holds |
|---|---|
| `config` | The global settings, the relay's websocket URL, redaction of the API key, environment fallbacks |
| `foundry` | The JavaScript the plugin runs in the GM's browser |
| `json` | The JSON values the plugin reads and writes, with their mathematical view |
| `text`, `textmap` | Text helpers and a map keyed by text |
| `image` | The artwork cache (TTL and capacity), SVG framing |
| `relay` | The relay protocol: frames, replies, actor search, reconnect backoff |
| `sheet`, `condition`, `initiative` | What each kind of key shows and what a press does |
| `connection`, `events` | Property inspector messages, companion events, state sync |

Laws that relate several operations are public proof functions named `law_*`.

`app/` is the host program around the library: the websocket session, the asynchronous
event loops, the OpenAction action handlers and the serde copies of the settings types.
