# material_color_utils

Color utilities for Material Design themes, with the integer and discrete parts proved
correct by Verus.

- `src/` is the verified library: packed ARGB colors and their channels, hex strings in both
  directions, degree arithmetic on integers, the color-counting quantizer, the integer tables
  and box arithmetic of the Wu quantizer, the generator that seeds K-Means, the spec-version
  fallback of dynamic schemes, and the enums and small types of the dynamic color system.
  Each function states its result in `ensures`; the laws that relate several functions are
  public proof functions next to them.
- `app/` holds what works in floating point (the L\*a\*b\*/XYZ conversions, the box choice of
  Wu, K-Means, Celebi) on top of the library, and the copies of library types that carry
  `serde` and `thiserror` derives.
- `tests/` runs the library on concrete values.
