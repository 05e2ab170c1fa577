# installer

The decision logic of a bootc-based OS installer, verified with Verus.

- `src/installer/` — the installer's data: the user's intent, the probe report and the
  resolved plan, with their defaults; the block-device forest (`build_tree`,
  `sort_children_recursive`) with its proofs (`forest.rs`, `disk_tree.rs`, `names.rs`);
  what is decided from udev, blkid and NetworkManager readings; the boot mode from the
  SMBIOS tables, walked with dmidecode after a framing check (`smbios.rs`).
- `src/tui/` — terminal events, the application's screen state machine, the main
  screen's rows and labels, and the centering of popups with ratatui's layout solver.
- `src/text.rs`, `src/utils.rs` — character-level text tests; choice among settings.
- `app/` — the program: terminal handling, drawing, logging, panic reporting, and
  the probes that read udev, blkid, D-Bus, sysfs and the firmware table files; serde copies of the plan types.
- `tests/` — tests of the library on concrete values.
