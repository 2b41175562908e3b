# elusive

Elusive generates initramfs archives, and microcode bundles for early CPU
microcode loading, from a declarative configuration: a compressed cpio
archive (newc format) holding exactly the binaries, libraries, files,
symlinks, kernel modules and systemd units that the configuration names.

The library in `src/` is verified with Verus:

- `path`, `order`: paths as components, their byte order, and the path
  operations (join, parent, file name, extension) stated over an abstract view.
- `vfs`: the in-memory filesystem that an archive is built from, with its
  laws (paths are never removed, regular files never replaced, creating a
  directory tree twice changes nothing).
- `newc`: the cpio newc serialization, entries sorted by path and followed by
  the trailer, every archive a whole number of four-byte words.
- `encoder`: the choice of compression (none, gzip, zstd).
- `elf`, `search`: the libraries that an ELF binary links and where binaries
  and libraries are found on the host.
- `kmod`: kernel module formats, install paths and module information.
- `systemd`: reading unit files, the programs a service runs, the units it
  requires and where it is installed.
- `microcode`, `initramfs`, `config`, `cli`: building the archives, step by
  step, and choosing what the command line and configuration select.

Reading the host (files, directories, libkmod) and the command line is left
to the program in `app/`, which hands the library plain values and closures.
