# usb_probe

Read-only inspection of USB buses, Type-C ports, Power Delivery contracts,
storage and displays on Linux, with a rule engine aimed at cable and charging
problems. What a link negotiated and what each side advertised is known for
certain; a cable itself cannot be measured from software, and nothing about a
cable is called measured that was not read off an e-marker or a hardware counter.

## Layout

- `src/` is the library. Every function in it is verified with Verus against its
  contract, and works on plain values: what was read is handed in.
  - `model`, `tally`, `snapshot`, `report`, `fingerprint`: the data, and what can
    be asked of it.
  - `diag/`: the rules. Each states its findings as a function of a snapshot;
    `analysis` runs, corroborates and ranks them, and `promises` holds what is
    true of everything that is reported.
  - `chain`, `kind`, `cycling`, `vdo`: bottleneck chains, device kinds, link
    stability, e-marker words.
  - `kernel`, `block`, `drm`, `monitor`, `caps`, `root`, `capture`: making sense
    of what the kernel says.
  - `cancel`, `escalate`: stopping a probe, and running one as root.
  - `view/`: what the window shows and how it reacts.
  - `text`, `number`, `double`, `big`, `order`, `path`, `seqs`: strings, decimals,
    binary floating point, sorting.
- `tests/` runs the library.
- `app/` is the program around it: reading sysfs and the kernel log, child
  processes, JSON files and the GTK window.
