# thumbv8m_mpu

Support for the Memory Protection Unit of ARMv8-M (thumbv8m) microcontrollers,
written in Verus.

- `src/` is the verified library: memory attributes and their encoding,
  region ranges and configurations, the MPU register layout, the `MpuImpl`
  interface with its model of the MPU state, the low-level `LlMpu` (which
  refuses overlapping enabled regions) and the allocating `AllocMpu`.
- `app/` drives the MPU peripheral of a real core through its registers, using
  the library's encoding functions, and provides `RegionAligned`, which places a
  value at a region-aligned address.
- `tests/` exercises the library against an in-memory MPU.
