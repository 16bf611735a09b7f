//! Field and slot indices fixed by the contract with the runtime. These are
//! the same for every compilation.
use vstd::prelude::*;

verus! {

/// The offset to apply to access a regular field: the object header occupies
/// the first field, so all user-defined fields start at the next one.
pub const FIELD_OFFSET: usize = 1;

/// The offset to apply to access a process field: the header and the process
/// padding occupy the first two fields.
pub const PROCESS_FIELD_OFFSET: usize = 2;

/// The class pointer's field index in the object header.
pub const HEADER_CLASS_INDEX: u32 = 0;

/// The reference count's field index in the object header.
pub const HEADER_REFS_INDEX: u32 = 1;

/// The method count's field index in a class descriptor.
pub const CLASS_METHODS_COUNT_INDEX: u32 = 2;

/// The method table's field index in a class descriptor.
pub const CLASS_METHODS_INDEX: u32 = 3;

/// The hash's field index in a method-table slot.
pub const METHOD_HASH_INDEX: u32 = 0;

/// The function pointer's field index in a method-table slot.
pub const METHOD_FUNCTION_INDEX: u32 = 1;

/// The state pointer's field index in an async-call context.
pub const CONTEXT_STATE_INDEX: u32 = 0;

/// The process pointer's field index in an async-call context.
pub const CONTEXT_PROCESS_INDEX: u32 = 1;

/// The arguments pointer's field index in an async-call context.
pub const CONTEXT_ARGS_INDEX: u32 = 2;

/// The arguments array's field index in a process message.
pub const MESSAGE_ARGUMENTS_INDEX: u32 = 2;

/// The method-table slot reserved for the dropper method in every class.
pub const DROPPER_INDEX: u32 = 0;

/// The method-table slot reserved for `call` in closure classes.
pub const CLOSURE_CALL_INDEX: u32 = 1;

/// The length's field index in an inline vector.
pub const ARRAY_LENGTH_INDEX: u32 = 1;

/// The capacity's field index in an inline vector.
pub const ARRAY_CAPA_INDEX: u32 = 2;

/// The buffer pointer's field index in an inline vector.
pub const ARRAY_BUF_INDEX: u32 = 3;

} // verus!
