//! Object-layout and method-dispatch-table planning for an ahead-of-time
//! compiler backend, together with the small arithmetic and random-number
//! helpers of the runtime.
pub mod constants;
pub mod hasher;
pub mod layouts;
pub mod mir;
pub mod modulo;
pub mod random;
pub mod sizer;
pub mod slots;
