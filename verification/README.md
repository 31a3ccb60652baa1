# PS5 Drive Enabler, verified core

The PS5 Drive Enabler writes a 2 MiB "Gen3 enabler" image to the start of an
NVMe drive so that the PS5 skips its PCIe Gen4 speed check, then reads it back
to make sure every byte landed.

- `src/` is the library, verified with Verus:
  - `flash`: flashing and verifying as a job of device steps (`Job::step`),
    with proofs that a flash writes the image at offset 0 and nothing else,
    that verification succeeds exactly when the device holds the image, and
    that flash-and-verify is flash followed by verify;
  - `image`: the shape an image must have;
  - `disk`, `error`: the disk record, its risk class, and the errors;
  - `platform::{linux, macos, windows}`: disk listings from `/sys/block`,
    `diskutil` property lists and PowerShell's `Get-Disk`;
  - `cli`, `wizard`: the decisions and texts of the command-line tool and of
    the graphical wizard, including the refusal of the system disk;
  - `text`: the string helpers the parsers and formatters share.
- `app/` is the program around it: argument handling, the device and
  operating-system I/O, the egui front-end, the capacity text (computed in
  floating point) and the embedded payload `gen3_enabler_bringus.img`, which
  is expected at the root of the project.
- `tests/` runs the library on concrete values.
