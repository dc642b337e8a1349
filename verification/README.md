# fmusim_gui

A desktop front end for simulating Functional Mock-up Units (FMUs), built
around a library whose session logic is formally verified.

- `src/` is the verified library:
  - `kinds.rs`: FMI versions, variable kinds and interfaces, with their labels;
  - `logging.rs`: log levels, their order, and log entries built from FMU reports;
  - `text.rs`: removal of trailing Unicode whitespace;
  - `series.rs`: bounded live series and the map of series by output name;
  - `app.rs`: the session state (loaded FMU, configuration, selection, run
    state, bounded log, series) and how it answers user actions and worker events;
  - `worker.rs`: the configuration of a run and the resolution of its outputs;
  - `messages.rs`: the events a simulation worker sends back;
  - `external.rs`: the standard-library types the library carries unopened.
- `app/` is the program: the window, file dialogs, unpacking and reading FMUs,
  the simulation thread and its channels, and everything computed on
  floating-point values (plot windows, progress, parsing of default times).
- `tests/` exercises the library on concrete values.
