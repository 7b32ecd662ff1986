# panini

Press a Gleam (Erlang/BEAM) app into a single, self-contained binary: the
compiled app, a minimal OTP runtime and a boot script are packed into a
self-extracting launcher that runs on a machine with nothing installed.

`src/` is the verified library (Verus). It decides what panini decides, on plain
values; only the colours of a gradient are computed outside, in floating point:

- `cli` reads the command line and says what `doctor` and `targets` show.
- `pipeline` decides which binaries a build makes and what making one takes;
  `press` takes one binary through its stages.
- `target` knows the platforms; `otp`, `zig` and `versions` know where their
  runtimes and toolchains come from; `apps` picks the OTP applications to bundle,
  from what `walk` finds in the compiled code.
- `style` and `theme` hold the palette, for panini's own output and for clap's.
- `plan` and `process` describe outside work: a `Plan` is a list of tasks, and
  `Plan::advance` says what comes next, given what came of a task.
- `path`, `listing` and `text` are the paths, directory listings and texts that
  all of this is stated over.

`app/` is the program around it: it runs programs, reads and writes files, and
carries out plans task by task. `tests/` runs the library.

Paths are UTF-8 text with `/` between their components.

## What is proved

Every executable function has a contract that says what it returns. On top of
these stand laws, as public proof functions. Among them:

- the bundled runtime is never of another major than the one the app was
  compiled with (`pipeline::bytecode_matches_the_runtime`), and an app for this
  machine's OS is compiled with the very version that is bundled
  (`press::native_apps_are_compiled_with_what_is_bundled`);
- no binary of a build overwrites another (`cli::binaries_do_not_collide`);
- a launcher is put in its place only when it was built, and from nothing but
  the template's sources and the payload
  (`pipeline::binary_is_put_in_place_when_built`,
  `pipeline::stale_builds_are_not_reused`);
- a Linux binary carries the libc that its runtime is linked against
  (`press::linux_binaries_carry_their_libc`);
- the runtime and the app are packed apart, each under a tag that is a function of
  what its pack holds alone, so that binaries with the same runtime share one copy
  (`pipeline::runtime_and_app_are_packed_apart`,
  `press::packs_are_tagged_by_what_they_hold`);
- compiled code is bundled again from target to target
  (`pipeline::shipment_is_reused_across_targets`);
- a finished search has found exactly the `.app` files that there are, each once
  (`walk::finished_walk_has_found_the_files`, `walk::found_files_are_those_below`,
  `walk::no_file_is_found_twice`);
- what was downloaded once is not downloaded again, and a download that breaks
  off never takes the place of the file (`otp::cached_archive_is_not_downloaded`,
  `otp::archive_is_placed_when_complete`);
- versions are listed newest first, and only those with a
  precompiled runtime (`versions::listing_is_newest_first` and others).

What clap's styling functions do is taken on trust; `theme` says what exactly.
