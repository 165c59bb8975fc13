//! A dynamic GPU buffer and bind-group management layer for a small
//! 2D ray-traced scene.
//!
//! The core packs heterogeneous, variable-length scene data (camera
//! parameters, chunk records) into device buffers under the device's
//! layout and alignment rules, grows those buffers on demand without
//! ever shrinking them, and keeps the bind groups that reference them
//! consistent after every resize. The layout arithmetic, the
//! serializer and its round trip, the exact-fit growth rule, and the
//! binding-consistency bookkeeping are all verified; the calls into
//! the graphics API stand behind small trusted wrappers in [`gpu`].
//!
//! - [`vector2`], [`vector3`]: the plain vector shapes serialized
//!   into buffers.
//! - [`layout`]: field shapes, offset and alignment arithmetic, and
//!   the layout descriptor.
//! - [`value`]: serializable values, the serializer, and the
//!   deserializer that mirrors it.
//! - [`buffers`]: the fixed-size and the growable buffer.
//! - [`group`]: bundles of buffers bound as one unit.
//! - [`scene`]: the camera and chunk data of this renderer.
//! - [`state`]: the per-frame orchestrator.

pub mod buffers;
pub mod error;
pub mod gpu;
pub mod group;
pub mod layout;
pub mod scene;
pub mod state;
pub mod value;
pub mod vector2;
pub mod vector3;
