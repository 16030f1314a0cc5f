# godot_bevy_ecs_demo

Presentation core of a Godot + Bevy ECS game, verified with Verus.

- `src/` is the verified library: presentation commands and their phase
  ordering (`commands`), extraction of model changes (`extraction`), the
  per-tick output split by domain and its ordered composition (`output`),
  the entity-to-view registry and the spawn presenter's decisions
  (`registry`), the enemy placement rules (`enemies`) and the planning of
  `#[present(order = N)]` compositions (`present_order`). Entities are the
  64-bit identity of an ECS entity; transforms and views are type
  parameters, so floating-point data and engine handles stay outside.
- `app/` is the GDExtension around it: the ECS world and schedule, input
  capture, Godot nodes and scenes, floating-point movement, and the token
  expansion of the presenter composition.
- `tests/` exercises the library.

Notes on the library's choices:
- The view registry is a standard hash map keyed by the 64-bit entity
  identity (index and generation), in place of the ECS's entity-keyed map:
  the registry is generic over the engine's view handle, and the contents of
  an outside collection can only be described for concrete plain values.
- Every draining operation leaves its buffer empty while the buffer keeps its
  storage for the next tick.
- `Present<Context>` carries a relation `presents(before, after)`; the
  output's composition presents spawns, then spatial patches, then despawns,
  each from the context the previous domain left.
