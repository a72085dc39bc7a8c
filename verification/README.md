# gitlab_runner

A library to build custom GitLab runners, with a mock of the GitLab server to test them against. What the
library decides and computes is verified with Verus; talking to the server, the file system and the tracing
infrastructure happens around it.

## Layout

- `src/` is the verified library:
  - `client`: the requests of the runner API, and how their replies are understood
  - `runner`: the runner, its system id, and when it asks for jobs
  - `run`: the run of one job, its artifacts and its reports to the server
  - `job`: variables, the log, and the artifacts of dependencies
  - `git`: what to fetch and check out
  - `artifact`, `uploader`: reading and writing artifacts
  - `paths`: which files an artifact selects
  - `masking`: hiding tokens in logs and files
  - `logging`: which output belongs to which job
  - `runlist`: the list of running jobs
  - `mock`: the server for tests
  - `protocol`: how client and mock fit together
  - `text`: numbers, ranges and lists written as text
- `tests/` runs the library, with the outside crates linked.
- `app/` connects the library with HTTP, files, threads and `tracing`.

No file here names `kstring`. `gix` depends on it, and `Cargo.toml` holds it at a release that builds with the
compiler that Verus comes with; later ones need a newer one.

The contracts of the functions are stated over spec functions beside them. Public proof functions whose names
begin with `law_` state what holds of several functions together. Functions marked
`#[verifier::external_body]` call outside crates; their doc comments say what is taken for granted.
