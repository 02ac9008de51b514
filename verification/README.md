# pinnacle

A boot-time PIN gate for UEFI: it prompts for a PIN, extends a memory-hard and
compute-hard hash of it into a TPM PCR, then starts the next boot loader, which may
live on a different volume.

```text
measured = "pinnacle" || pcr_index_le || argon2id(pin_char16le, salt=smbios_uuid, params)
```

- PCR 15, next image `\EFI\boot\BOOTX64.efi`, no event log entry by default
- Argon2id with 64 MiB of memory, 64 passes, 1 lane, 32 bytes of output

## Layout

- `src/` is the library, verified with Verus. It holds all decisions: the boot flow
  (`boot`, with what holds of it as a whole in `flow`), the prompt, the measurement,
  the TPM and SMBIOS formats, the search for the loader, the log lines, and the
  registration as the first boot option (`bootentry`, `bootorder`, with what it does
  to the firmware variables in `nvram`).
- `app/` is the UEFI program around it. It performs what a stage asks for and hands
  the outcome back.
- `tests/` runs the library on concrete values.

The library relies on `argon2` for the hash, on `zeroize` for buffers that are cleared
on drop, and on `uefi` for device paths, UCS-2 strings and status names. What is taken
from them without proof is stated at the functions that call them.
