//! The slice of the mid-level IR that layout planning consumes: classes with
//! their fields and methods, dynamic-call sites, extern signatures, and the
//! target parameters that the plan depends on.
use vstd::prelude::*;

verus! {

/// A machine-level type as the code emitter will see it. Pointers are opaque;
/// an aggregate carries the bit width the target reports for it.
#[derive(Clone, Copy, PartialEq, Eq, Structural, Debug)]
pub enum MachineType {
    /// An opaque pointer.
    Pointer,
    /// An 8-bit integer.
    Int8,
    /// A 16-bit integer.
    Int16,
    /// A 32-bit integer.
    Int32,
    /// A 64-bit integer.
    Int64,
    /// A 64-bit floating point value (opaque to the planner).
    Float64,
    /// The object header: class pointer and reference count, 16 bytes.
    Header,
    /// An opaque filler of the given number of bytes, `[n x i8]`.
    ByteFiller(u32),
    /// The inline vector triple `{length, capacity, buffer pointer}`.
    VectorTriple,
    /// An inline array of the given number of pointers.
    PointerArray(u32),
    /// An aggregate, with the bit size the target data reports for it.
    Aggregate(u64),
}

/// What kind of class a class is; the kind decides its instance layout and
/// how its methods are placed.
#[derive(Clone, Copy, PartialEq, Eq, Structural, Debug)]
pub enum ClassKind {
    /// A regular heap-allocated class.
    Regular,
    /// An extern (C-compatible) struct: no header, fields only.
    Extern,
    /// An async/process class: header, process padding, then fields.
    Async,
    /// A closure: a fixed two-slot method layout.
    Closure,
}

/// The built-in classes that receive a fixed instance body, plus `Str`, which
/// is tagged built-in but laid out like a regular class.
#[derive(Clone, Copy, PartialEq, Eq, Structural, Debug)]
pub enum Builtin {
    /// Not a built-in class.
    NotBuiltin,
    /// The boxed 64-bit integer class.
    Int,
    /// The boxed 64-bit float class.
    Float,
    /// The boolean class: a header and nothing else.
    Bool,
    /// The nil class: a header and nothing else.
    Nil,
    /// The byte array class: a header and an inline vector.
    ByteArray,
    /// The string class: tagged built-in, but its declared fields are laid
    /// out like those of a regular class.
    Str,
}

/// A compile-time specialization shape. The planner reads only its stable
/// identifier, which feeds method hashing.
#[derive(Debug)]
pub struct Shape {
    /// The stable identifier this shape contributes to a method's hash key.
    pub identifier: String,
}

/// Where a method comes from: written directly, or implementing a trait
/// method (identified by the trait method's id).
#[derive(Clone, Copy, PartialEq, Eq, Structural, Debug)]
pub enum MethodSource {
    /// A method written directly on its type.
    Direct,
    /// An implementation of the trait method with the given id.
    Implementation(usize),
}

/// A method record as earlier compiler phases produced it.
#[derive(Debug)]
pub struct Method {
    /// The method's name.
    pub name: String,
    /// The specialization shapes, in order; they feed the hash key.
    pub shapes: Vec<Shape>,
    /// The lowered receiver type, for instance methods.
    pub receiver: MachineType,
    /// The lowered argument types, in source order.
    pub arguments: Vec<MachineType>,
    /// The lowered return type; absent means the method returns nothing.
    pub returns: Option<MachineType>,
    /// Whether the method is async (runs on a process).
    pub is_async: bool,
    /// Whether the method is an instance method (takes a receiver).
    pub is_instance: bool,
    /// Whether the method is a static method.
    pub is_static: bool,
    /// Whether the method is variadic (meaningful for extern methods only).
    pub is_variadic: bool,
    /// Where the method comes from.
    pub source: MethodSource,
}

/// A class as the MIR presents it to the planner.
#[derive(Debug)]
pub struct MirClass {
    /// The fully qualified class name.
    pub name: String,
    /// The class's kind.
    pub kind: ClassKind,
    /// Which built-in class this is, if any.
    pub builtin: Builtin,
    /// The lowered types of the declared fields, in source order.
    pub fields: Vec<MachineType>,
    /// The ids of the methods defined on this class, in MIR order.
    pub methods: Vec<usize>,
}

/// One dynamic-call target: a specialized trait method instance and the
/// shapes of the call.
#[derive(Debug)]
pub struct DynCall {
    /// The id of the specialized trait method this call dispatches to.
    pub method: usize,
    /// The shapes the call site was specialized with.
    pub shapes: Vec<Shape>,
}

/// All dynamic-call records keyed by one trait method.
#[derive(Debug)]
pub struct DynamicCalls {
    /// The id of the trait method the calls are keyed by.
    pub origin: usize,
    /// The call records for that trait method.
    pub calls: Vec<DynCall>,
}

/// The MIR slice the planner reads.
#[derive(Debug)]
pub struct Mir {
    /// All classes, indexed by class id.
    pub classes: Vec<MirClass>,
    /// All methods, indexed by method id.
    pub methods: Vec<Method>,
    /// Dynamic-call records, grouped by trait method.
    pub dynamic_calls: Vec<DynamicCalls>,
    /// The ids of the extern (FFI) methods.
    pub extern_methods: Vec<usize>,
}

/// The operating system the build targets; it decides the process size.
#[derive(Clone, Copy, PartialEq, Eq, Structural, Debug)]
pub enum OperatingSystem {
    Linux,
    Freebsd,
    Mac,
    Windows,
    Other,
}

/// The target parameters the planner consumes.
#[derive(Clone, Copy, PartialEq, Eq, Structural, Debug)]
pub struct Target {
    /// The operating system tag.
    pub os: OperatingSystem,
    /// The C-ABI threshold, in bits: aggregates larger than this are
    /// returned through a caller-supplied pointer.
    pub pass_struct_size: u64,
}

impl Mir {
    /// Every id held anywhere in the MIR points into `methods`.
    pub open spec fn ids_in_range(self) -> bool {
        &&& forall|c: int, i: int|
            0 <= c < self.classes.len() && 0 <= i < self.classes[c].methods.len()
                ==> #[trigger] self.classes[c].methods@[i] < self.methods.len()
        &&& forall|g: int, j: int|
            0 <= g < self.dynamic_calls.len() && 0 <= j < self.dynamic_calls[g].calls.len()
                ==> #[trigger] self.dynamic_calls[g].calls@[j].method < self.methods.len()
        &&& forall|g: int|
            0 <= g < self.dynamic_calls.len() ==> #[trigger] self.dynamic_calls[g].origin
                < self.methods.len()
        &&& forall|k: int|
            0 <= k < self.extern_methods.len() ==> #[trigger] self.extern_methods@[k]
                < self.methods.len()
    }

    /// Whether method id `m` is listed by some class.
    pub open spec fn is_class_method(self, m: int) -> bool {
        exists|c: int, i: int|
            0 <= c < self.classes.len() && 0 <= i < self.classes[c].methods.len()
                && #[trigger] self.classes[c].methods@[i] == m
    }

    /// Whether method id `m` is listed as an extern method.
    pub open spec fn is_extern_method(self, m: int) -> bool {
        exists|k: int| 0 <= k < self.extern_methods.len() && #[trigger] self.extern_methods@[k] == m
    }

    /// Whether method id `m` appears in some dynamic-call record.
    pub open spec fn is_dynamic_target(self, m: int) -> bool {
        exists|g: int, j: int|
            0 <= g < self.dynamic_calls.len() && 0 <= j < self.dynamic_calls[g].calls.len()
                && #[trigger] self.dynamic_calls[g].calls@[j].method == m
    }

    /// Each method id is listed by at most one class, once; dynamic-call
    /// targets are distinct and name no class, static or extern method, so
    /// their records are never overwritten by later planning steps.
    pub open spec fn ids_unique(self) -> bool {
        &&& forall|c1: int, i1: int, c2: int, i2: int|
            0 <= c1 < self.classes.len() && 0 <= i1 < self.classes[c1].methods.len() && 0 <= c2
                < self.classes.len() && 0 <= i2 < self.classes[c2].methods.len()
                && #[trigger] self.classes[c1].methods@[i1]
                == #[trigger] self.classes[c2].methods@[i2] ==> c1 == c2 && i1 == i2
        &&& forall|g1: int, j1: int, g2: int, j2: int|
            0 <= g1 < self.dynamic_calls.len() && 0 <= j1 < self.dynamic_calls[g1].calls.len() && 0
                <= g2 < self.dynamic_calls.len() && 0 <= j2 < self.dynamic_calls[g2].calls.len()
                && #[trigger] self.dynamic_calls[g1].calls@[j1].method
                == #[trigger] self.dynamic_calls[g2].calls@[j2].method ==> g1 == g2 && j1 == j2
        &&& forall|m: int|
            #[trigger] self.is_dynamic_target(m) ==> !self.is_class_method(m)
                && !self.is_extern_method(m) && !self.methods@[m].is_static
        &&& forall|m: int| #[trigger] self.is_extern_method(m) ==> !self.is_class_method(m)
    }
}

} // verus!
