pub mod volume;
pub mod indexed_mesh;
pub mod mesh;
pub mod primitive;
pub mod shape;
pub mod hit_result;
pub mod shape_list;
pub mod unskinned_shape;
pub mod geometry_wrapper;
pub mod invert_normal;
pub mod medium;
pub mod parabola;
pub mod rectangle;
pub mod scale;
pub mod sphere;
pub mod translate;
pub mod transform;
