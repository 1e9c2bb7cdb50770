# vino

The logic of a driver for USB display docks, written and proved in Verus.

- `src/haar/` is the strip codec: colour and Haar transforms, quantisers, entropy coding, the
  order and framing of strips into records, and the decoder its laws read strips back with.
- `src/session/` decides what a dock session does next: which dock this is, the encrypted setup,
  the replies it waits for, bring-up, and the upkeep of a live session.
- `src/usb/`, `src/drm/`, `src/i2c.rs` and `src/sysfs.rs` hold the rules of the kernel interfaces
  underneath.
- `app/` performs the I/O: it carries out the actions the library asks for and hands back what
  became of them.

Contracts are stated over sequences, integers and the spec functions beside each function. The
properties that span functions are the public proof functions named `law_...`.
