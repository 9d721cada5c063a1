# spritec

The sprite compiler renders a 3D model from chosen angles and poses and lays the images out as
a single picture or as a spritesheet with one animation per row.

`src/` is the verified library, checked with Verus:

- `renderer/layout` lays a render tree out as nested grids: where each image goes, proved to lie
  inside its cell and never to overlap another image.
- `renderer/draw` and `scale` put the drawn images together, crop them and scale them up without
  interpolation, each stated pixel by pixel.
- `spritesheet` and `tasks` size spritesheets, place each frame and build the render tasks.
- `resolve_path` resolves configuration paths against an absolute base directory, in Unix or
  Windows style, to normalized paths: absolute ones, but for Windows paths relative to the
  current directory of a drive (such as `D:x`), which stay so.
- `scene` holds the scene graph (node trees, breadth-first walks, skins, textures, materials,
  geometry) and `name_map`, `renderer/uniform_map` the name-keyed maps handed to shaders.
- `tasks/file_cache` keeps weak references to opened files.

`app/` is ordinary Rust around the library: opening glTF and OBJ files through the file cache
and reading them into scene types, the floating-point math of cameras, transforms and cel
shading, the uniform maps handed to glium and the upload of joint matrices as a texture,
running render jobs and writing images. The GPU renderer itself is not part of this crate.

`tests/` holds the tests, run against the compiled library.
