# Network recovery boot: boot-source protocol

A verified library for booting firmware over the network through a mailbox
shared between the MCU and a network coprocessor. The MCU asks the
coprocessor for images; the coprocessor finds them with DHCP and fetches
them with TFTP through lwIP.

`src/` is verified with Verus:

- `messages`: the protocol's packets, their little-endian encodings and
  decoding, and the chunk framing.
- `wire`: little-endian fields and the packing of bytes into mailbox words.
- `toc`: the table of contents that maps firmware IDs to TFTP file names.
- `mailbox`, `emu_mailbox`: the mailbox's status encodings and driver
  decisions, and a register-level model of the mailbox hardware.
- `lwip`, `dhcp6`: IPv6 address and boot-file URL parsing, address-slot
  selection, the DHCPv4 boot-file name, and the TFTP client's state.
- `network`: DHCP leases and the TFTP data buffer between lwIP and the
  mailbox.
- `boot_app`: the boot-source application, from `InitiateBootRequest` to
  `Finalize`, as steps that say what the mailbox and lwIP are to do.
- `provider`: the MCU ROM's image provider that pulls images chunk by chunk.
- `rom_selftest`: the MCU ROM's self-test of the protocol.
- `timers`: elapsed time from tick counts.

`app/` connects the boot source to a mailbox, to lwIP and to a decoder of
the TOC file format, and runs the ROM self-test against a mailbox.
