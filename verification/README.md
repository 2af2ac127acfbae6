# shellops

`so` runs the everyday commands of a compose project: docker compose with the user's ids, image
builds in dependency order, Symfony and PHP tools inside their services, cache clearing, settings
with secrets, releases with notes, and its own updates.

- `src/` is the library, verified with Verus: what is decided and computed.
- `app/` is the program around it: arguments, files, processes, requests and the terminal.
- `tests/` runs the library on concrete values.

## What is proved

Every function of the library states what it returns, and Verus proves it. Beyond that, public
proof functions state what holds of the library as a whole, among them:

- images are built after the images that they use, and there is an order unless they use one
  another in a ring (`build::order`);
- a build gets the arguments that its Dockerfile declares and no others, and secrets by name alone
  (`build::plan`);
- a setting that was written is found again, a project's before everyone's, and other settings
  stay as they are (`config`);
- the settings that are listed are those that are found, in files that were written by setting
  and unsetting and can be read; they can be read back as long as keys have no more names than a
  TOML heading takes and none that TOML has for itself (`listing`);
- a release gets a tag that is not there yet, is cut from what the remote has, and is taken back
  where it fails (`tags`, `release`);
- versions are read as they are written, and their order is total (`version`).

## What is trusted

The library calls a few functions of other crates: `semver` reads and orders versions, `toml` and
`serde_json` read and write documents, `sha2` hashes, `tar` and `flate2` unpack, and `owo-colors`
styles text. What is believed of each stands above the function that calls it.
