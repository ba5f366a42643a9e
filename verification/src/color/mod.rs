pub mod srgb;
