# newton_hypervisor

The logic of a bare-metal hypervisor that runs the Newton's ROM on a 64-bit ARM board,
and of its serial boot loader. Verus proves every contract but two: those of the standard
library's `String::push` and `str::from_utf8`, which stand in `src/text.rs` and are believed.

- `src/` is the library.
  - `newton_objects` parses the object heap of a package or a guest.
  - `guest_mem`, `guest_endian`, `stage1`, `guest_trampolines` and `rom_loader` hold the
    guest's memory, its byte order, its page tables, and what is written into its ROM.
  - `arch` and `guest` decode, emit and bank registers, and give the state with which the
    guest is entered.
  - `flash_persist` decides how the internal flash is kept on a card.
  - `audio`, `display` and `fb_dump` are sound and screen.
  - `nhboot` is the boot loader: checksums, image containers, the upload protocol.
  - `diag`, `heap_check`, `ref_printer`, `guest_bp` and the capture modules inspect the guest.
- `tests/` runs the library on concrete values.
- `app/` touches the devices, the card and the console.

Device registers never appear in the library: a function takes what was read and gives what
is to be written. Functions that alternate between the two are steps from a state and an
event to the next state and an action.
