# bevy_potoo

Immediate-mode entity bookkeeping for Bevy, verified with Verus.

A system calls into the protocol every frame with an identity made of its
call site (and optionally a key). The library gives each identity a stable
entity, tells a call whether it runs for the first time or comes back after a
frame without it, and at the end of the frame hands back the deactivations of
calls that stopped.

- `src/` is the verified library: identities (`ident`), the protocol
  (`protocol`, and its earlier targeted form in `targeted`), deactivation
  groups (`deactivations`), queued per-frame work and its matching against
  entities (`pending`, `diffs`, `flurp`), draw bookkeeping and the material
  cache (`draw`), and the contracts of Bevy's hash collections
  (`collections`).
- `app/` is the Bevy side: system parameters, plugins, components, and the
  systems that carry out what the library decides.
- `tests/` runs the library on concrete frames.
