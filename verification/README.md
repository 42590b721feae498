# waytorandr

Display-profile management for Wayland compositors (GNOME/Mutter, KDE via
`kscreen-doctor`, and wlroots compositors), written as a verified library.

- `src/` is the library, verified with Verus: the output model and its limits,
  identity matching, profile selection and planning (presets included), the
  profile store's contents, runtime state, hook policy, the apply cycle (a
  state machine whose steps fix its order), and what each backend decides
  from the values its compositor reports. Contracts are stated over
  `Seq`/`Map`-style views; the laws of the library are public proof functions
  (`lemma_*`).
- `app/` is the unverified shell around it: file I/O and locking, the D-Bus,
  Wayland and `kscreen-doctor` conversations, child processes for hooks, and
  the floating-point work on refresh rates and scales (scales travel through
  the library as `f64` bit patterns).
- `tests/` exercises the library on concrete values.
