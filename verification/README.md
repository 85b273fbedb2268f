# lua_replace

The verified core of a Smash Ultimate (skyline) plugin that lets other plugins
replace ACMD scripts, status functions and system-line control functions of
fighters and weapons.

- `src/` is the library, proved with Verus:
  - `scripts.rs`: the registries of replacements (by agent Hash40 and script
    category), plugin registration, the system-line hot-patch choice and the
    classification of loaded modules;
  - `silent.rs`: agent creators of fighter modules (symbol names, hash
    collection from their code, per-module tables), the plan for creating an
    agent with its replacements, status agents, and a text search;
  - `rtld.rs`: the ELF hash, C string comparison and symbol lookup in a
    module's hash table;
  - `unwind.rs`: plugin address ranges and the decisions of the unwinder hooks;
  - `raw_dump.rs`: hex dumps;
  - `text.rs`: hexadecimal and decimal formatting.
- `app/` is the plugin itself: global state, exported functions, game hooks
  and everything that reads or patches memory.
- `tests/` runs the library on concrete values.
