//! Integer core of a small ray tracer: the pixel canvas and the order in
//! which a render fills it, the PPM encoding of quantized pixels, the
//! intersection list of a ray and its hit rule, the world's shape and light
//! storage, the clock face drawing, and the error values of the pipeline.
//! Distances, colours and geometry are floating point and stay with the
//! caller, which hands these modules plain values.
pub mod canvas;
pub mod clock;
pub mod error;
pub mod intersections;
pub mod ppm;
pub mod world;
