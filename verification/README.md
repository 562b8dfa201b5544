# imaging_portal

A portal for the neutron imaging instruments VENUS and MARS. The user picks an
instrument, an IPTS (a proposal with its folder on shared storage) and an
application from a catalog. The portal copies the application's notebook into
the IPTS and runs it there. It also finds out on which analysis machine the
user's Firefox is already running, and can have stuck sessions killed.

## Layout

- `src/` is the library. What the portal decides and computes is there, with
  contracts that Verus proves.
  - `portal`: the state of the portal, and every step from one state to the
    next.
  - `catalog`, `display`: the catalog of applications, and how it is listed.
  - `ipts`, `provision`: the folders of an instrument, and what is copied where.
  - `browser`, `lock`, `launch`, `command`: the reports of the maintenance
    script, the locks of Firefox profiles, the output of a running notebook, and
    what each program is given.
  - `theme`, `instrument`, `notice`: colors, instruments and messages.
  - `text`, `split`, `number`, `order`, `paths`: text, numbers and Unix paths.
- `app/` is the program around it: the window, the file system, and the programs
  that are run.
  The window zooms with the toolkit's keyboard shortcuts; it has no button for
  it and does not remember the factor.
- `tests/` runs the library on concrete values.

## What is trusted

The library calls a few functions that Verus does not see into. What it takes
them to do is stated where they are declared:

- `text`: `String::push`, `String::from_utf8_lossy`, `str::to_lowercase`
- `catalog`: `serde_json::from_str`, and `get`, `as_str` and `as_array` of
  `serde_json::Value`
