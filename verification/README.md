# raytracer

The structural core of a ray tracer, verified with Verus: image buffers and their
pixel iterators (reading and writing), render statistics, bounding volume hierarchies
and the walk a ray makes through them, triangle meshes and the checking of model-file
faces, and the containers that group shapes, primitives, materials and transforms.

- `src/` is the verified library. Geometry is generic over its point, vector, colour
  and float types, so the library never computes with floating point numbers itself.
- `app/` holds what works with `f32` through `cgmath`: transform matrices, the sky
  gradient, the checker pattern, random directions, the factories that size and place
  shapes, and loading meshes from model files with `obj`.
- `tests/` exercises the library on concrete values.
