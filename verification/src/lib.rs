use vstd::prelude::*;

mod fx;
mod algebra;
mod bounding;
mod trig;
mod geometry;
mod transform;
mod scene;
mod otree;
mod world;
mod camera;
mod render;
mod buffer;

pub use fx::{Fx, DistanceConstants, FX_ONE, FX_INF_RAW, FX_PI_RAW};
pub use algebra::{Vec3, Point3, Point3Ops, Ray};
pub use bounding::BoundingBox;
pub use geometry::{Geometry, Sphere, Cube, Plane, HitResult, TextureCoords, Bounded};
pub use transform::{Transform, Frame, Matrix4, RenderError};
pub use scene::{Color, Surface, Material, Texture, CheckerboardTexture, Light, Object, Scene};
pub use otree::{Octree, OctreeConfig, OctreeNode, Intersection, closest_in_list, any_in_list};
pub use world::{World, WorldRoot};
pub use camera::{Camera, Image, to_byte};
pub use render::{RenderListener, Renderer, TraceRenderer, TraceRenderConfig};
pub use buffer::FramePacer;

verus! {

} // verus!
