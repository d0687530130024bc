# kernel

The logic of a small x86-64 kernel and its UEFI boot loader, written in Verus
with its contracts proved.

- `src/` is the verified library: the boot information and ELF loading plan,
  the frame, slab and linear allocators, lists, queues and caches, the frame
  buffer writer and text console, the PS/2 controller commands and the PS/2
  and USB HID input decoders, the
  PATA, PCI, MSI and ACPI structures, the xHCI rings, TRBs, descriptors,
  input and device contexts and configuration phases, and the FAT32 file
  system on block devices.
  Hardware-facing work is expressed as values: a step function returns the
  action to perform (a port to write, a TRB to store, a doorbell to ring) and
  takes back what came of it. The block device and PCI configuration
  traits state their reads and writes over a model (`RamDisk`,
  `ConfigSpace`); a device driven from outside the library is not modeled,
  and nothing is assumed of what it returns.
- `tests/` exercises the library on concrete values, with RAM disks and
  configuration spaces in memory in place of hardware.
- `app/` is the boot loader's entry point and the thin drivers that perform
  the library's actions on real hardware (port and memory-mapped I/O, the
  timer, the global device tables).
