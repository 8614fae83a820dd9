# arena_of_ideas

The rules of a team auto-battler, written in Verus with their contracts
proved.

- `src/` is the verified library:
  - `world`, `expression`, `effect`, `event`, `action`, `battle`: the battle
    engine. Units carry health, power, damage and status charges; effects run
    from a queue, events are handed to the statuses of their recipients,
    and a battle strikes the two front units against each other turn by turn,
    with fatigue, until one side or nobody is left standing.
  - `status_pool`: a ledger of status charges per entity with a queue of
    changes applied one charge at a time.
  - `arena`, `meta_shop`: the arena run as the server keeps it (shop,
    gold, rerolls, lives, score, rewards) and the meta shop.
  - `bindings`, `login`, `shop`, `cli`, `colors`, `model`: what the client
    sends and keeps, how it follows the run, and small vocabularies.
  - `random`: the two calls into `rand`, with the contracts they are trusted
    to meet.
- `tests/` runs the library on concrete values.
- `app/` is the command-line entry: it reads the arguments with `clap` and
  fights a battle.
