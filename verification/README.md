# raytracer

A small path tracer that draws two spheres into a window and lets the
camera step left and right.

- `src/` is the verified library (Verus): the order of distances along a
  ray (`param`), which root of which sphere a ray meets first (`hit`), how
  a traced path ends (`trace`), where each pixel of the frame lies and how
  its bytes are laid out (`frame`), and how the window loop answers its
  events (`controls`).
- `app/` is the program around it: the `f32` vector arithmetic (through
  nalgebra-glm), the camera, the materials, the quadratic of each sphere,
  random sampling (rand), the threads (rayon) and the window (winit,
  pixels).
- `tests/` exercises the library on concrete values.
