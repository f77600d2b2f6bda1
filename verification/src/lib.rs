//! Core of a small real-time rendering engine: an append-only asset arena with
//! typed handles, an asset server with background-load bookkeeping and
//! hot-reload change tracking, a scene graph, and the registration half of a
//! visual server that mirrors scene content into GPU-side resources.
pub mod arena;
pub mod asset_server;
pub mod camera;
pub mod color;
pub mod gltf;
pub mod image;
pub mod light;
pub mod material;
pub mod mesh;
pub mod preprocessor;
pub mod scene;
pub mod shader_source;
pub mod timestamp;
pub mod transform;
pub mod ui;
pub mod visual_server;

pub use arena::{Arena, Handle, TypeErasedHandle};
pub use asset_server::AssetServer;
pub use camera::Camera;
pub use color::Color;
pub use image::Image;
pub use light::Light;
pub use material::Material;
pub use mesh::{Mesh, Submesh};
pub use scene::{Node, NodeData, Scene};
pub use shader_source::ShaderSource;
pub use timestamp::Timestamp;
pub use visual_server::VisualServer;
