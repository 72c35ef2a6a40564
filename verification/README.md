# render_engine

The decision-making core of a small Vulkan render engine, written in Verus
and proved against its contracts.

## Layout

- `src/` — the verified library.
  - `enumerations`, `data_type`, `id_table`, `interpreter`, `shader`: a
    SPIR-V interpreter that reads a module's shader stage and its variable
    layout (inputs, outputs, uniform sets), with a checker that says when a
    module can be read at all.
  - `descriptor_requirements`: the descriptor scan of a shader module, the
    compatibility check between shaders of a pipeline, and the combination
    of their descriptors; `descriptor_set_data`: what data an update of a
    descriptor may carry, and the grouping of descriptors by set.
  - `compiler`: warnings of a compilation split into lines, and the
    compiled-module container.
  - `shader_type`, `operation`, `device_selection`: stage bits, the queue
    semaphore rule, and the choice of physical device and queues.
- `tests/` — tests on hand-built SPIR-V modules and concrete values.
- `app/` — the code that talks to shaderc and vulkano, using the library
  for every decision.
