# gpu_blur

A dual-filter (Kawase) blur that runs on the GPU through `wgpu`. The library in `src/`
holds the parts that compute, verified with Verus:

- `extent`: mip-level extents (`(size >> level).max(1)`), read-back row alignment and buffer sizes;
- `mip`: the extents of the mip chain's levels;
- `pipeline`: the per-pass shader parameters and their layout in one uniform buffer,
  one record per pass at the device's dynamic-offset alignment;
- `blur`: the schedule of down- and up-sampling passes, with the laws that tie it together;
- `pixels`: RGB to RGBA widening, stripping row padding from a read-back, RGB row copies;
- `image_io`: decoding input files and encoding the result, through the `qoi` and `image` crates;
- `codec`: the calls into `qoi`, `image` and `bytemuck`, each with the contract it is trusted with.

`app/` is the program: argument handling, file mapping and writing, the GPU device, textures,
pipelines and command recording, the floating-point shader parameters, and the QOZ codec.
