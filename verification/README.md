# nocompile

A compile-fail test harness: assert that code does _not_ compile, and that it
fails for the intended reason.

`src/` is what the harness decides, written in Verus. Every function states what
it returns, and Verus proves it. It depends on nothing but `std`, and touches no
file and no process. Of `std` it takes five contracts of its own on trust, besides
those of `vstd`: `String::push` (in `text`), `String::from_utf8_lossy` and
`str::from_utf8` (in `path`), `char::from_u32` (in `json`), and
`str::to_uppercase` (in `normalize`).

| | |
|---|---|
| `cases` | registering fixtures, dependencies and manifest text |
| `scratch` | the scratch project every fixture is compiled in |
| `compile`, `json` | what cargo is asked, and how what it prints is sorted |
| `normalize` | what a golden holds of a diagnostic |
| `compare` | how much of a diagnostic is compared |
| `run` | a run, one step at a time |
| `outcome`, `diff` | what is reported |
| `path`, `text` | paths by their components, text by its characters |
| `laws` | what holds of all of it |

`app/` is the rest: it walks directories, reads and writes files, takes the lock
that runs wait for each other on, and starts cargo. It does what a step of a run
asks for and hands back what came of it.

```rust
let mut t = nocompile_run::cases!();
t.dependency_path("my-crate", ".");   // fixtures need the crate under test
t.compile_fail_dir("tests/ui");       // every .rs beside its .stderr
t.assert();
```

`tests/` runs the library in a world kept in memory.
