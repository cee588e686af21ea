pub mod artifacts;
pub mod bytes;
pub mod codec;
pub mod cover;
pub mod digest;
pub mod frame;
pub mod frame_view;
pub mod history;
pub mod order;
pub mod primitives;
pub mod ranges;
pub mod request;
pub mod stable;
pub mod testkit;
pub mod text;
pub mod xatu;
