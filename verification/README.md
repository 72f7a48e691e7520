# lifecycle

Launch-time support for Cloud Native Buildpacks, verified with Verus.

- `src/api/`: API versions (`version.rs`), and the buildpack and platform
  API versions that the lifecycle supports, with the checks of a requested
  version (`buildpack.rs`, `platform.rs`).
- `src/env.rs`: the launch environment: host variables kept, `PATH`
  sanitised, layer directories and environment files applied.
- `src/env_file.rs`: what each file of an env directory names, and the
  order in which the files apply.
- `src/path_list.rs`: colon-separated path lists.
- `src/exec_d.rs`: decoding the TOML output of exec.d programs.
- `src/text.rs`: character-level string helpers.
- `app/lib.rs`: file system and process work around the library (reading
  layers and env directories, running exec.d programs), and the error
  types with `Display`.
