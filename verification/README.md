# shad_env

A shader-driven-rectangle environment: fragment shaders ("shaders") are bound
to rectangles of a window ("shads"), layered by `z` and fed uniforms by name.

- `src/` is the verified library (Verus). It holds the logic: the FNV-1a
  content hash that shader registration validates against (`hash`), user
  slot names (`slot`), the registry of shaders, textures, buffers and placed
  shads with their uniform blocks and painter's order (`scene`), the byte
  layout of a uniform block (`bytes`), the unpadding and BGRA-to-RGBA swizzle
  of a readback (`readback`), the window-or-screenshot argument choice
  (`cli`), and the laws that relate these (`laws`). `f32` values (rects,
  layers, uniform values, time) travel through the library as their bit
  patterns.
- `app/` is the GPU and windowing side (wgpu, winit, image, pollster): it owns
  the device, compiled shaders and pipelines, performs what the registry
  decides, does the float arithmetic (corner-to-rect, viewport clamping) and
  runs the event loop.
- `tests/` exercises the library on concrete values.
