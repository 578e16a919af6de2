# OmniAgent user-space services, verified

The data structures and rules behind OmniAgent's user-space services,
written in Verus: each public function carries a `requires`/`ensures`
contract over a mathematical model of its data, and Verus proves the code
against it. Properties that relate several operations stand as public proof
functions whose names begin with `law_`.

## Layout

- `src/` — the verified library, one module per service:
  - `fs` — the virtual file system (path resolution, inodes, descriptors)
    and per-agent file systems;
  - `automation` — the task scheduler with dependencies and priorities,
    triggers and the workflow engine;
  - `distributed` — node ids, cluster membership, vector clocks and the
    replicated types (counter, observed-remove set, last-writer-wins
    register);
  - `memory` — memory regions with first-fit allocation, region pools
    and quantized tensor storage;
  - `compositor` — GPU resource accounting, animation timing, layer
    order and the renderer's swapchain life cycle;
  - `agent`, `inference`, `learning`, `ipc`, `driver`, `desktop` — agent
    configuration, model routing, memory stores and knowledge graphs,
    messages, device drivers, and desktop windows, input and the theme
    registry;
  - `keyed`, `text`, `textmap` — keyed sequences viewed as maps, text
    building, and a small ordered text map shared by the modules above.
- `tests/` — ordinary Rust tests of the library, one file per service.
- `app/` — the parts that stay outside verification: floating-point
  arithmetic (easing curves, interpolation, quantization scales), threads
  and locks, and the types that carry `f32` fields, built on the library.

## Checking

Verus verifies everything under `src/`; the tests run against the compiled
library.
