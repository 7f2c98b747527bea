# decmpfs

A native addon for Node ships as one small file: a stub that carries the
zstd-compressed addon in a section of its own image. When Node loads the stub, it
decodes the addon once, and, where the file system compresses single files
transparently (APFS and HFS+, btrfs, NTFS), rewrites itself into the addon, stored
compressed. Later loads read the addon itself.

The library, under `src/`, is verified with Verus:

- `section` reads the section out of Mach-O, ELF and PE images, and builds and
  parses its body; `synthetic` builds the smallest images that carry one.
- `inject` puts the section into a prebuilt stub, and signs a Mach-O image again.
- `addon` is the content hash, the test for a native binary, and the codec.
- `arguments` and `producer` are the command `napi-compress`.
- `backend`, `outcome`, `compress` and `apply` decide how a file is compressed where
  it is, and what came of it; `files` replaces files without leaving a partial one.
- `cache` and `resolve` lead from a stub to the addon that is loaded.
- `bytes`, `text` and `platform` are what the others share.

What has to touch a file is a machine of steps: the library says what to do next and
takes what came of it. `app/` does it.

Trusted are the calls of `zstd` and `apple-codesign`, and the `Debug` text of a string.
