//! The planner: given the MIR's classes, methods, dynamic calls and extern
//! signatures, produce every class's instance layout and class-descriptor
//! capacity, and every method's table slot, hash, machine signature and
//! collision flag.
use crate::hasher::{hash_chars, MethodHasher};
use crate::mir::{
    Builtin, ClassKind, Method, MethodSource, MachineType, Mir,
    OperatingSystem, Shape, Target,
};
use crate::sizer::{
    lemma_pow2_bit_form, lemma_table_capacity_pow2, table_capacity, table_capacity_spec,
    MAX_CLASS_METHODS, METHOD_TABLE_MIN_SIZE,
};
use crate::slots::{
    buckets_after, collision_at, count_true, home_slot, lemma_slots_unique, place_collision,
    place_slot, placeable, probe_from, slot_at, PlaceKey,
};
use vstd::prelude::*;
use vstd::string::{StrSliceExecFns, StringExecFns};

verus! {

/// The size of an object header, in bytes.
pub const HEADER_SIZE: u32 = 16;

/// The dropper method's name.
pub open spec fn dropper_name() -> Seq<char> {
    "$dropper"@
}

/// The closure call method's name.
pub open spec fn call_name() -> Seq<char> {
    "call"@
}

/// The size of a process instance's fixed prefix, in bytes: mutexes are
/// smaller on Linux and FreeBSD, so the prefix is smaller there.
pub open spec fn process_size_spec(os: OperatingSystem) -> nat {
    match os {
        OperatingSystem::Linux => 112,
        OperatingSystem::Freebsd => 112,
        _ => 128,
    }
}

/// A machine-level function signature.
#[derive(Debug)]
pub struct Signature {
    /// The parameter types, implicit leading arguments included.
    pub params: Vec<MachineType>,
    /// The return type; absent means the function returns nothing.
    pub returns: Option<MachineType>,
    /// Whether the function is variadic.
    pub variadic: bool,
}

/// What the planner records about one method.
#[derive(Debug)]
pub struct MethodInfo {
    /// The method-table slot the method occupies; 0 if it is not in a table.
    pub index: u16,
    /// The method's hash; 0 if it is never dispatched on.
    pub hash: u64,
    /// Whether placing the method displaced it from its home slot.
    pub collision: bool,
    /// The machine-level signature.
    pub signature: Signature,
    /// For extern methods returning a large aggregate on the stack: that
    /// aggregate; the signature's return type is void in that case.
    pub struct_return: Option<MachineType>,
}

/// The layout of one class's instances.
#[derive(Debug)]
pub struct InstanceLayout {
    /// The instance struct's name.
    pub name: String,
    /// The field types, header and padding included, in order.
    pub fields: Vec<MachineType>,
}

/// The layout of one class descriptor: its identity and the length of its
/// method-table array. The descriptor's fixed prefix (class pointer,
/// reference count, method count, table) is the same for every class.
#[derive(Debug)]
pub struct ClassLayout {
    /// The descriptor struct's name.
    pub name: String,
    /// The method table's capacity: always a power of two, so that
    /// `hash & (capacity - 1)` indexes it.
    pub capacity: u32,
}

/// The identifier sequences of a shape list.
pub open spec fn shapes_idents(shapes: Seq<Shape>) -> Seq<Seq<char>> {
    shapes.map_values(|s: Shape| s.identifier@)
}

/// The hash key of a method name and its shape identifiers: the name with
/// every identifier appended in order.
pub open spec fn hash_key_spec(name: Seq<char>, idents: Seq<Seq<char>>) -> Seq<char>
    decreases idents.len(),
{
    if idents.len() == 0 {
        name
    } else {
        hash_key_spec(name, idents.drop_last()) + idents.last()
    }
}

/// The hash of a class method: a pure function of its name and shapes.
pub open spec fn method_hash(mir: Mir, m: int) -> u64 {
    hash_chars(
        hash_key_spec(mir.methods@[m].name@, shapes_idents(mir.methods@[m].shapes@)),
    )
}

/// The hash of a dynamic-call record: a pure function of the target method's
/// name and the call's shapes.
pub open spec fn dyn_call_hash(mir: Mir, g: int, j: int) -> u64 {
    hash_chars(
        hash_key_spec(
            mir.methods@[mir.dynamic_calls@[g].calls@[j].method as int].name@,
            shapes_idents(mir.dynamic_calls@[g].calls@[j].shapes@),
        ),
    )
}

/// How many of a class's methods are instance methods, over the first `n`
/// ids of its method list.
pub open spec fn instance_count_prefix(methods: Seq<Method>, ids: Seq<usize>, n: nat) -> nat
    decreases n,
{
    if n == 0 {
        0
    } else {
        instance_count_prefix(methods, ids, (n - 1) as nat) + if methods[ids[n - 1] as int]
            .is_instance {
            1nat
        } else {
            0nat
        }
    }
}

/// A class's instance-method count.
pub open spec fn instance_count(mir: Mir, c: int) -> nat {
    instance_count_prefix(mir.methods@, mir.classes@[c].methods@, mir.classes@[c].methods@.len())
}

/// A class's method-table capacity.
pub open spec fn class_capacity(mir: Mir, c: int) -> nat {
    table_capacity_spec(instance_count(mir, c))
}

/// The occupancy of a fresh method table: only the reserved dropper slot.
pub open spec fn init_buckets(len: nat) -> Seq<bool> {
    Seq::new(len, |i: int| i == 0)
}

/// What slot placement reads of class method `i` of class `c`.
pub open spec fn class_key(mir: Mir, c: int, i: int) -> PlaceKey {
    PlaceKey {
        dropper: mir.methods@[mir.classes@[c].methods@[i] as int].name@ == dropper_name(),
        hash: method_hash(mir, mir.classes@[c].methods@[i] as int),
    }
}

/// The placement keys of one class's method list.
pub open spec fn class_keys(mir: Mir, c: int) -> Seq<PlaceKey> {
    Seq::new(mir.classes@[c].methods@.len(), |i: int| class_key(mir, c, i))
}

/// Whether the class is a closure class.
pub open spec fn class_is_closure(mir: Mir, c: int) -> bool {
    mir.classes@[c].kind == ClassKind::Closure
}

/// The slot of class method `i` of class `c`.
pub open spec fn class_slot(mir: Mir, c: int, i: int) -> int {
    slot_at(class_is_closure(mir, c), init_buckets(class_capacity(mir, c)), class_keys(mir, c), i)
}

/// The collision flag of class method `i` of class `c`.
pub open spec fn class_collision(mir: Mir, c: int, i: int) -> bool {
    collision_at(
        class_is_closure(mir, c),
        init_buckets(class_capacity(mir, c)),
        class_keys(mir, c),
        i,
    )
}

/// Whether placing class method `i` of class `c` collided and implements
/// trait method `o`: the condition under which the collision propagates to
/// `o`'s dynamic-call records.
pub open spec fn class_method_collides_for(mir: Mir, c: int, i: int, o: usize) -> bool {
    &&& mir.methods@[mir.classes@[c].methods@[i] as int].source == MethodSource::Implementation(o)
    &&& class_collision(mir, c, i)
}

/// Whether some implementation of trait method `o`, in the classes before
/// `cc` (and, within class `cc`, the methods before `ii`), was displaced.
pub open spec fn origin_collided_upto(mir: Mir, o: usize, cc: int, ii: int) -> bool {
    exists|c: int, i: int|
        0 <= c < mir.classes.len() && 0 <= i < mir.classes@[c].methods.len() && (c < cc || (c == cc
            && i < ii)) && #[trigger] class_method_collides_for(mir, c, i, o)
}

/// Whether any implementation of trait method `o` anywhere was displaced.
pub open spec fn origin_collided(mir: Mir, o: usize) -> bool {
    origin_collided_upto(mir, o, mir.classes.len() as int, 0)
}

/// The instance body a class is owed: built-ins have fixed bodies; extern
/// classes hold their fields bare; every other class starts with the header,
/// with process padding after it for async classes.
pub open spec fn instance_fields_spec(mir: Mir, target: Target, c: int) -> Seq<MachineType> {
    let cls = mir.classes@[c];
    match cls.builtin {
        Builtin::Int => seq![MachineType::Header, MachineType::Int64],
        Builtin::Float => seq![MachineType::Header, MachineType::Float64],
        Builtin::Bool => seq![MachineType::Header],
        Builtin::Nil => seq![MachineType::Header],
        Builtin::ByteArray => seq![MachineType::Header, MachineType::VectorTriple],
        _ => {
            if cls.kind == ClassKind::Extern {
                cls.fields@
            } else if cls.kind == ClassKind::Async {
                seq![
                    MachineType::Header,
                    MachineType::ByteFiller(
                        (process_size_spec(target.os) - HEADER_SIZE as nat) as u32,
                    ),
                ] + cls.fields@
            } else {
                seq![MachineType::Header] + cls.fields@
            }
        },
    }
}

/// Whether a signature is exactly the given parameters, return type and
/// variadic flag.
pub open spec fn sig_is(
    sig: Signature,
    params: Seq<MachineType>,
    returns: Option<MachineType>,
    variadic: bool,
) -> bool {
    &&& sig.params@ == params
    &&& sig.returns == returns
    &&& sig.variadic == variadic
}

/// The parameters a class method's machine signature is owed: state and
/// process pointers, the receiver for instance methods, then the declared
/// arguments. Async methods take only the context pointer.
pub open spec fn language_params(method: Method) -> Seq<MachineType> {
    if method.is_async {
        seq![MachineType::Pointer]
    } else if method.is_instance {
        seq![MachineType::Pointer, MachineType::Pointer, method.receiver] + method.arguments@
    } else {
        seq![MachineType::Pointer, MachineType::Pointer] + method.arguments@
    }
}

/// The return type a class method's machine signature is owed: async methods
/// return nothing (the context carries their result).
pub open spec fn language_returns(method: Method) -> Option<MachineType> {
    if method.is_async {
        Option::None
    } else {
        method.returns
    }
}

/// The parameters a static method's machine signature is owed: state and
/// process pointers, then the declared arguments.
pub open spec fn static_params(method: Method) -> Seq<MachineType> {
    seq![MachineType::Pointer, MachineType::Pointer] + method.arguments@
}

/// The parameters a dynamic-call record's signature is owed: state, process
/// and opaque receiver pointers, then the declared arguments.
pub open spec fn dynamic_params(method: Method) -> Seq<MachineType> {
    seq![MachineType::Pointer, MachineType::Pointer, MachineType::Pointer] + method.arguments@
}

/// Whether an extern return type triggers the C-ABI struct-return rewrite:
/// it is an aggregate wider than the target's threshold.
pub open spec fn needs_sret(target: Target, ret: MachineType) -> bool {
    match ret {
        MachineType::Aggregate(bits) => bits > target.pass_struct_size,
        _ => false,
    }
}

/// What an extern method's record is owed under the C ABI: a large aggregate
/// return becomes void with a leading pointer parameter and is remembered in
/// `struct_return`; everything else is returned in place.
pub open spec fn extern_info_ok(mir: Mir, target: Target, info: MethodInfo, m: int) -> bool {
    let method = mir.methods@[m];
    &&& info.index == 0
    &&& info.hash == 0
    &&& !info.collision
    &&& match method.returns {
        Option::Some(ret) => {
            if needs_sret(target, ret) {
                sig_is(
                    info.signature,
                    seq![MachineType::Pointer] + method.arguments@,
                    Option::None,
                    method.is_variadic,
                ) && info.struct_return == Option::Some(ret)
            } else {
                sig_is(info.signature, method.arguments@, Option::Some(ret), method.is_variadic)
                    && info.struct_return is None
            }
        },
        Option::None => sig_is(
            info.signature,
            method.arguments@,
            Option::None,
            method.is_variadic,
        ) && info.struct_return is None,
    }
}

/// What a class method's record is owed: its assigned slot and collision
/// flag, its hash, its language-level signature, and no struct return.
pub open spec fn class_info_ok(mir: Mir, info: MethodInfo, c: int, i: int) -> bool {
    let m = mir.classes@[c].methods@[i] as int;
    &&& info.index as int == class_slot(mir, c, i)
    &&& info.hash == method_hash(mir, m)
    &&& info.collision == class_collision(mir, c, i)
    &&& sig_is(
        info.signature,
        language_params(mir.methods@[m]),
        language_returns(mir.methods@[m]),
        false,
    )
    &&& info.struct_return is None
}

/// What a static method's record is owed: no slot, no hash, no collision,
/// and the state-and-process signature.
pub open spec fn static_info_ok(mir: Mir, info: MethodInfo, m: int) -> bool {
    &&& info.index == 0
    &&& info.hash == 0
    &&& !info.collision
    &&& sig_is(info.signature, static_params(mir.methods@[m]), mir.methods@[m].returns, false)
    &&& info.struct_return is None
}

/// What a dynamic-call record is owed: the hash of the call, the opaque
/// receiver signature, and a collision flag that is set exactly when some
/// implementation of the record's trait method was displaced.
pub open spec fn dyn_info_ok(mir: Mir, info: MethodInfo, g: int, j: int) -> bool {
    let m = mir.dynamic_calls@[g].calls@[j].method as int;
    &&& info.index == 0
    &&& info.hash == dyn_call_hash(mir, g, j)
    &&& info.collision == origin_collided(mir, mir.dynamic_calls@[g].origin)
    &&& sig_is(info.signature, dynamic_params(mir.methods@[m]), mir.methods@[m].returns, false)
    &&& info.struct_return is None
}

/// What the class and instance layouts of class `c` are owed.
pub open spec fn class_layout_ok(mir: Mir, target: Target, l: Layouts, c: int) -> bool {
    &&& l.classes@[c].capacity as nat == class_capacity(mir, c)
    &&& l.classes@[c].name@ == mir.classes@[c].name@ + ".class"@
    &&& l.instances@[c].name@ == mir.classes@[c].name@
    &&& l.instances@[c].fields@ == instance_fields_spec(mir, target, c)
}

/// What the record of method `m` is owed, by the driver's precedence: the
/// extern pass writes last, the static pass before it, the per-class slot
/// assignment before that, and the dynamic-call pass first. A method the MIR
/// never mentions has no record.
pub open spec fn method_info_ok(mir: Mir, target: Target, l: Layouts, m: int) -> bool {
    &&& mir.is_extern_method(m) ==> l.methods@[m] is Some && extern_info_ok(
        mir,
        target,
        l.methods@[m].unwrap(),
        m,
    )
    &&& !mir.is_extern_method(m) && mir.methods@[m].is_static ==> l.methods@[m] is Some
        && static_info_ok(mir, l.methods@[m].unwrap(), m)
    &&& !mir.is_extern_method(m) && !mir.methods@[m].is_static ==> forall|c: int, i: int|
        0 <= c < mir.classes@.len() && 0 <= i < mir.classes@[c].methods@.len()
            && #[trigger] mir.classes@[c].methods@[i] == m ==> l.methods@[m] is Some
            && class_info_ok(mir, l.methods@[m].unwrap(), c, i)
    &&& !mir.is_extern_method(m) && !mir.methods@[m].is_static && !mir.is_class_method(m)
        ==> forall|g: int, j: int|
        0 <= g < mir.dynamic_calls@.len() && 0 <= j < mir.dynamic_calls@[g].calls@.len()
            && #[trigger] mir.dynamic_calls@[g].calls@[j].method == m ==> l.methods@[m] is Some
            && dyn_info_ok(mir, l.methods@[m].unwrap(), g, j)
    &&& !mir.is_extern_method(m) && !mir.methods@[m].is_static && !mir.is_class_method(m)
        && !mir.is_dynamic_target(m) ==> l.methods@[m] is None
}

/// Everything `Layouts::new` promises: the fixed runtime templates, every
/// class's descriptor capacity and instance body, and every method's record.
pub open spec fn planned(mir: Mir, target: Target, l: Layouts) -> bool {
    &&& l.classes@.len() == mir.classes@.len()
    &&& l.instances@.len() == mir.classes@.len()
    &&& l.methods@.len() == mir.methods@.len()
    &&& l.header@ == seq![MachineType::Pointer, MachineType::Int32]
    &&& l.method@ == seq![MachineType::Int64, MachineType::Pointer]
    &&& l.state@ == seq![
        MachineType::Pointer,
        MachineType::Pointer,
        MachineType::Pointer,
        MachineType::Pointer,
    ]
    &&& l.context@ == seq![MachineType::Pointer, MachineType::Pointer, MachineType::Pointer]
    &&& l.method_counts@ == seq![MachineType::Int16, MachineType::Int16]
    &&& l.message@ == seq![MachineType::Pointer, MachineType::Int8, MachineType::PointerArray(0)]
    &&& l.empty_class.capacity == 0
    &&& l.empty_class.name@ == Seq::<char>::empty()
    &&& forall|c: int| 0 <= c < mir.classes@.len() ==> #[trigger] class_layout_ok(mir, target, l, c)
    &&& forall|m: int| 0 <= m < mir.methods@.len() ==> #[trigger] method_info_ok(mir, target, l, m)
}

/// The well-formedness the planner asks of the MIR: ids point into the
/// method list and name nothing twice, every class's method list leaves a
/// table slot spare, classes hold at most one dropper, and a closure class
/// holds nothing besides one dropper and one `call`.
pub open spec fn plannable(mir: Mir) -> bool {
    &&& mir.ids_in_range()
    &&& mir.ids_unique()
    &&& forall|c: int|
        0 <= c < mir.classes@.len() ==> #[trigger] instance_count(mir, c) <= MAX_CLASS_METHODS
            as nat
    &&& forall|c: int|
        0 <= c < mir.classes@.len() ==> #[trigger] mir.classes@[c].methods@.len() + 1
            <= class_capacity(mir, c)
    &&& forall|c: int, i: int, j: int|
        0 <= c < mir.classes@.len() && 0 <= i < j < mir.classes@[c].methods@.len() ==> !(
        #[trigger] class_key(mir, c, i).dropper && #[trigger] class_key(mir, c, j).dropper)
    &&& forall|c: int, i: int|
        0 <= c < mir.classes@.len() && class_is_closure(mir, c) && 0 <= i < mir.classes@[
            c
        ].methods@.len() ==> #[trigger] mir.methods@[mir.classes@[c].methods@[i] as int].name@
            == dropper_name() || mir.methods@[mir.classes@[c].methods@[i] as int].name@
            == call_name()
    &&& forall|c: int, i: int, j: int|
        0 <= c < mir.classes@.len() && class_is_closure(mir, c) && 0 <= i < j < mir.classes@[
            c
        ].methods@.len() ==> (#[trigger] class_key(mir, c, i).dropper || #[trigger] class_key(
            mir,
            c,
            j,
        ).dropper)
}

/// Types and layout information to expose to all modules: the planner's
/// result.
pub struct Layouts {
    /// The layout of an empty class, used when generating dynamic dispatch
    /// code, where the exact class is unknown.
    pub empty_class: ClassLayout,
    /// The method-table slot layout: hash, then function pointer.
    pub method: Vec<MachineType>,
    /// Every class's descriptor layout, indexed by class id.
    pub classes: Vec<ClassLayout>,
    /// Every class's instance layout, indexed by class id.
    pub instances: Vec<InstanceLayout>,
    /// The slice of the runtime `State` the generated code reads.
    pub state: Vec<MachineType>,
    /// The object header layout.
    pub header: Vec<MachineType>,
    /// The context passed to async methods.
    pub context: Vec<MachineType>,
    /// The descriptor holding the built-in types' method counts.
    pub method_counts: Vec<MachineType>,
    /// Every method's record, indexed by method id.
    pub methods: Vec<Option<MethodInfo>>,
    /// The layout of messages sent to processes.
    pub message: Vec<MachineType>,
}

/// A fresh table's occupancy counts exactly its one reserved slot.
proof fn lemma_count_init(len: nat)
    requires
        len >= 1,
    ensures
        count_true(init_buckets(len)) == 1,
    decreases len,
{
    if len == 1 {
        assert(init_buckets(1).last());
        assert(count_true(init_buckets(1).drop_last()) == 0);
    } else {
        lemma_count_init((len - 1) as nat);
        assert(init_buckets(len).drop_last() =~= init_buckets((len - 1) as nat));
        assert(!init_buckets(len).last());
    }
}

/// Every class of a plannable MIR can be placed.
proof fn lemma_class_placeable(mir: Mir, c: int)
    requires
        plannable(mir),
        0 <= c < mir.classes@.len(),
    ensures
        placeable(class_is_closure(mir, c), init_buckets(class_capacity(mir, c)), class_keys(mir, c)),
{
    let cap = class_capacity(mir, c);
    assert(cap >= 64);
    lemma_count_init(cap);
    assert(init_buckets(cap)[0]);
    assert(class_keys(mir, c).len() + 1 <= cap);
}

/// Whether `name` equals the given literal name.
fn name_is(name: &String, literal: &str) -> (r: bool)
    ensures
        r == (name@ == literal@),
{
    let other = String::from_str(literal);
    name.eq(&other)
}

/// The hash key of a method: its name with every shape identifier appended.
pub fn hash_key(name: &String, shapes: &Vec<Shape>) -> (key: String)
    ensures
        key@ == hash_key_spec(name@, shapes_idents(shapes@)),
{
    let mut key = name.clone();
    let mut i: usize = 0;
    while i < shapes.len()
        invariant
            0 <= i <= shapes@.len(),
            key@ == hash_key_spec(name@, shapes_idents(shapes@).take(i as int)),
        decreases shapes@.len() - i,
    {
        key.append(shapes[i].identifier.as_str());
        proof {
            let idents = shapes_idents(shapes@);
            assert(idents.take(i + 1).drop_last() =~= idents.take(i as int));
            assert(idents.take(i + 1).last() == idents[i as int]);
        }
        i = i + 1;
    }
    proof {
        assert(shapes_idents(shapes@).take(shapes@.len() as int) =~= shapes_idents(shapes@));
    }
    key
}

/// How many of the listed methods are instance methods.
fn instance_methods_count(methods: &Vec<Method>, ids: &Vec<usize>) -> (n: usize)
    requires
        forall|i: int| 0 <= i < ids@.len() ==> #[trigger] ids@[i] < methods@.len(),
    ensures
        n == instance_count_prefix(methods@, ids@, ids@.len()),
        n <= ids@.len(),
{
    let mut n: usize = 0;
    let mut i: usize = 0;
    while i < ids.len()
        invariant
            0 <= i <= ids@.len(),
            forall|k: int| 0 <= k < ids@.len() ==> #[trigger] ids@[k] < methods@.len(),
            n == instance_count_prefix(methods@, ids@, i as nat),
            n <= i,
        decreases ids@.len() - i,
    {
        if methods[ids[i]].is_instance {
            n = n + 1;
        }
        i = i + 1;
    }
    n
}

/// The machine signature of a class method.
fn language_signature(method: &Method) -> (sig: Signature)
    ensures
        sig_is(sig, language_params(*method), language_returns(*method), false),
{
    if method.is_async {
        let mut params: Vec<MachineType> = Vec::new();
        params.push(MachineType::Pointer);
        proof {
            assert(params@ =~= seq![MachineType::Pointer]);
        }
        Signature { params, returns: Option::None, variadic: false }
    } else {
        let mut params: Vec<MachineType> = Vec::new();
        params.push(MachineType::Pointer);
        params.push(MachineType::Pointer);
        if method.is_instance {
            params.push(method.receiver);
        }
        let ghost lead = params@;
        let params = push_arguments(params, &method.arguments);
        proof {
            if method.is_instance {
                assert(lead =~= seq![
                    MachineType::Pointer,
                    MachineType::Pointer,
                    method.receiver,
                ]);
            } else {
                assert(lead =~= seq![MachineType::Pointer, MachineType::Pointer]);
            }
        }
        Signature { params, returns: method.returns, variadic: false }
    }
}

/// The machine signature of a static method.
fn static_signature(method: &Method) -> (sig: Signature)
    ensures
        sig_is(sig, static_params(*method), method.returns, false),
{
    let mut params: Vec<MachineType> = Vec::new();
    params.push(MachineType::Pointer);
    params.push(MachineType::Pointer);
    let ghost lead = params@;
    let params = push_arguments(params, &method.arguments);
    proof {
        assert(lead =~= seq![MachineType::Pointer, MachineType::Pointer]);
    }
    Signature { params, returns: method.returns, variadic: false }
}

/// The machine signature of a dynamic-call record.
fn dynamic_signature(method: &Method) -> (sig: Signature)
    ensures
        sig_is(sig, dynamic_params(*method), method.returns, false),
{
    let mut params: Vec<MachineType> = Vec::new();
    params.push(MachineType::Pointer);
    params.push(MachineType::Pointer);
    params.push(MachineType::Pointer);
    let ghost lead = params@;
    let params = push_arguments(params, &method.arguments);
    proof {
        assert(lead =~= seq![MachineType::Pointer, MachineType::Pointer, MachineType::Pointer]);
    }
    Signature { params, returns: method.returns, variadic: false }
}

/// Appends the declared argument types to the implicit leading parameters.
fn push_arguments(params: Vec<MachineType>, arguments: &Vec<MachineType>) -> (r: Vec<MachineType>)
    ensures
        r@ == params@ + arguments@,
{
    let mut r = params;
    let ghost lead = r@;
    let mut k: usize = 0;
    while k < arguments.len()
        invariant
            0 <= k <= arguments@.len(),
            r@ == lead + arguments@.take(k as int),
        decreases arguments@.len() - k,
    {
        r.push(arguments[k]);
        proof {
            assert(lead + arguments@.take(k + 1) =~= (lead + arguments@.take(k as int)).push(
                arguments@[k as int],
            ));
        }
        k = k + 1;
    }
    proof {
        assert(lead + arguments@.take(arguments@.len() as int) =~= lead + arguments@);
    }
    r
}

/// How one class's slot assignment extends the collided-trait-method map:
/// `cur` marks whatever `base` marked, plus every trait method one of the
/// first `upto` methods of class `c` collided as an implementation of.
pub open spec fn collided_extended(
    mir: Mir,
    c: int,
    upto: int,
    base: Seq<bool>,
    cur: Seq<bool>,
) -> bool {
    forall|o: int|
        0 <= o < mir.methods@.len() ==> #[trigger] cur[o] == (base[o] || exists|i: int|
            0 <= i < upto && #[trigger] class_method_collides_for(mir, c, i, o as usize))
}

/// Whether method id `m` stands at position `i` of class `c`'s method list.
pub open spec fn class_pos_is(mir: Mir, c: int, i: int, m: int) -> bool {
    &&& 0 <= c < mir.classes@.len()
    &&& 0 <= i < mir.classes@[c].methods@.len()
    &&& mir.classes@[c].methods@[i] == m
}

/// Assigns every method of class `c` to its table slot and records it, and
/// marks the trait methods whose implementations here were displaced.
#[verifier::rlimit(100)]
fn assign_class(
    mir: &Mir,
    c: usize,
    hasher: &MethodHasher,
    infos: &mut Vec<Option<MethodInfo>>,
    collided: &mut Vec<bool>,
)
    requires
        plannable(*mir),
        c < mir.classes@.len(),
        old(infos)@.len() == mir.methods@.len(),
        old(collided)@.len() == mir.methods@.len(),
    ensures
        final(infos)@.len() == mir.methods@.len(),
        final(collided)@.len() == mir.methods@.len(),
        forall|i: int|
            0 <= i < mir.classes@[c as int].methods@.len() ==> (#[trigger] final(infos)@[
                mir.classes@[c as int].methods@[i] as int
            ]) is Some && class_info_ok(
                *mir,
                final(infos)@[mir.classes@[c as int].methods@[i] as int].unwrap(),
                c as int,
                i,
            ),
        forall|m: int|
            0 <= m < mir.methods@.len() && !(exists|i: int|
                class_pos_is(*mir, c as int, i, m)) ==> final(infos)@[m] == old(infos)@[m],
        collided_extended(
            *mir,
            c as int,
            mir.classes@[c as int].methods@.len() as int,
            old(collided)@,
            final(collided)@,
        ),
{
    let cls = &mir.classes[c];
    let count = instance_methods_count(&mir.methods, &cls.methods);
    let cap = table_capacity(count);
    let closure = match cls.kind {
        ClassKind::Closure => true,
        _ => false,
    };
    proof {
        assert(cap as nat == class_capacity(*mir, c as int));
        assert(closure == class_is_closure(*mir, c as int));
        lemma_class_placeable(*mir, c as int);
    }
    let ghost keys = class_keys(*mir, c as int);
    let ghost init = init_buckets(cap as nat);
    let mut buckets: Vec<bool> = Vec::new();
    let mut k: usize = 0;
    while k < cap
        invariant
            0 <= k <= cap,
            buckets@ =~= Seq::new(k as nat, |t: int| false),
        decreases cap - k,
    {
        buckets.push(false);
        k = k + 1;
    }
    buckets.set(0, true);
    proof {
        assert(buckets@ =~= init);
    }
    let ghost old_infos = infos@;
    let ghost old_collided = collided@;
    let mut ii: usize = 0;
    while ii < cls.methods.len()
        invariant
            plannable(*mir),
            c < mir.classes@.len(),
            cls == mir.classes@[c as int],
            keys == class_keys(*mir, c as int),
            init == init_buckets(class_capacity(*mir, c as int)),
            closure == class_is_closure(*mir, c as int),
            cap as nat == class_capacity(*mir, c as int),
            64 <= cap <= 65536,
            0 <= ii <= cls.methods@.len(),
            infos@.len() == mir.methods@.len(),
            collided@.len() == mir.methods@.len(),
            old_infos.len() == mir.methods@.len(),
            buckets@ == buckets_after(closure, init, keys, ii as nat),
            forall|i: int|
                0 <= i < ii ==> (#[trigger] infos@[mir.classes@[c as int].methods@[i] as int])
                    is Some && class_info_ok(
                    *mir,
                    infos@[mir.classes@[c as int].methods@[i] as int].unwrap(),
                    c as int,
                    i,
                ),
            forall|m: int|
                0 <= m < mir.methods@.len() && !(exists|i: int|
                    0 <= i < ii && class_pos_is(*mir, c as int, i, m)) ==> infos@[m] == old_infos[m],
            collided_extended(*mir, c as int, ii as int, old_collided, collided@),
        decreases cls.methods@.len() - ii,
    {
        let m = cls.methods[ii];
        proof {
            lemma_class_placeable(*mir, c as int);
            assert(mir.classes@[c as int].methods@[ii as int] < mir.methods@.len());
        }
        let method = &mir.methods[m];
        let key_string = hash_key(&method.name, &method.shapes);
        let hash = hasher.hash(key_string);
        let dropper = name_is(&method.name, "$dropper");
        proof {
            assert(keys[ii as int] == class_key(*mir, c as int, ii as int));
            assert(keys[ii as int].hash == hash);
            assert(keys[ii as int].dropper == dropper);
            crate::slots::lemma_placement_invariants(closure, init, keys, ii as nat);
        }
        let mut collision = false;
        let index: usize = if closure {
            if dropper {
                0
            } else {
                1
            }
        } else if dropper {
            0
        } else {
            let start = (hash % (cap as u64)) as usize;
            let ghost bs = buckets@;
            proof {
                assert(count_true(bs) < bs.len());
                crate::slots::lemma_probe_succeeds(bs, start as int);
                assert(start as int == home_slot(keys[ii as int], bs.len() as int));
                vstd::arithmetic::div_mod::lemma_small_mod(start as nat, cap as nat);
            }
            let mut idx_probe = start;
            let ghost mut jj: nat = 0nat;
            loop
                invariant
                    bs == buckets@,
                    bs.len() == cap,
                    64 <= cap <= 65536,
                    0 <= start < cap,
                    jj <= bs.len(),
                    idx_probe as int == (start as int + jj) % (cap as int),
                    probe_from(bs, start as int, jj) == probe_from(bs, start as int, 0),
                    0 <= probe_from(bs, start as int, 0) < cap,
                    !bs[probe_from(bs, start as int, 0)],
                    collision == (jj > 0),
                    jj > 0 ==> bs[start as int],
                ensures
                    idx_probe as int == probe_from(bs, start as int, 0),
                    collision == bs[start as int],
                decreases bs.len() - jj,
            {
                proof {
                    if jj >= bs.len() {
                        assert(probe_from(bs, start as int, jj) == -1);
                        assert(false);
                    }
                }
                if !buckets[idx_probe] {
                    proof {
                        assert(probe_from(bs, start as int, jj) == idx_probe as int);
                        if jj == 0 {
                            assert(idx_probe as int == (start as int) % (cap as int));
                            assert((start as int) % (cap as int) == start as int) by {
                                vstd::arithmetic::div_mod::lemma_small_mod(
                                    start as nat,
                                    cap as nat,
                                );
                            }
                        }
                    }
                    proof {
                        if jj > 0 {
                            assert(bs[start as int]);
                        } else {
                            assert(!bs[start as int]);
                        }
                    }
                    break ;
                }
                collision = true;
                proof {
                    assert(probe_from(bs, start as int, jj + 1) == probe_from(bs, start as int, jj));
                    if jj == 0 {
                        assert(idx_probe as int == (start as int) % (cap as int));
                        assert((start as int) % (cap as int) == start as int) by {
                            vstd::arithmetic::div_mod::lemma_small_mod(start as nat, cap as nat);
                        }
                    }
                }
                let next = (idx_probe + 1) % cap;
                proof {
                    let a = start as int + jj;
                    assert((a % (cap as int) + 1) % (cap as int) == (a + 1) % (cap as int)) by {
                        vstd::arithmetic::div_mod::lemma_fundamental_div_mod(a, cap as int);
                        vstd::arithmetic::div_mod::lemma_mod_multiples_vanish(
                            a / (cap as int),
                            a % (cap as int) + 1,
                            cap as int,
                        );
                    }
                    jj = jj + 1;
                }
                idx_probe = next;
            }
            idx_probe
        };
        proof {
            assert(index as int == place_slot(closure, keys[ii as int], buckets@));
            assert(index as int == class_slot(*mir, c as int, ii as int));
            assert(collision == place_collision(closure, keys[ii as int], buckets@));
            assert(collision == class_collision(*mir, c as int, ii as int));
            assert(0 <= index < cap);
        }
        buckets.set(index, true);
        proof {
            assert(buckets@ =~= buckets_after(closure, init, keys, (ii + 1) as nat));
        }
        let ghost prev_collided = collided@;
        if collision {
            match method.source {
                MethodSource::Implementation(orig) => {
                    if orig < collided.len() {
                        collided.set(orig, true);
                    }
                },
                MethodSource::Direct => {},
            }
        }
        proof {
            assert(collided_extended(*mir, c as int, ii + 1, old_collided, collided@)) by {
                assert forall|o: int| 0 <= o < mir.methods@.len() implies #[trigger] collided@[o]
                    == (old_collided[o] || exists|i: int|
                    0 <= i < ii + 1 && #[trigger] class_method_collides_for(
                        *mir,
                        c as int,
                        i,
                        o as usize,
                    )) by {
                    assert(prev_collided[o] == (old_collided[o] || exists|i: int|
                        0 <= i < ii && #[trigger] class_method_collides_for(
                            *mir,
                            c as int,
                            i,
                            o as usize,
                        )));
                if class_method_collides_for(*mir, c as int, ii as int, o as usize) {
                    assert(class_collision(*mir, c as int, ii as int));
                    assert(collision);
                    assert(mir.methods@[mir.classes@[c as int].methods@[ii as int] as int].source
                        == MethodSource::Implementation(o as usize));
                    assert(collided@[o]);
                    assert(exists|i: int|
                        0 <= i < ii + 1 && #[trigger] class_method_collides_for(
                            *mir,
                            c as int,
                            i,
                            o as usize,
                        ));
                    assert(collided@[o] == (old_collided[o] || exists|i: int|
                        0 <= i < ii + 1 && #[trigger] class_method_collides_for(
                            *mir,
                            c as int,
                            i,
                            o as usize,
                        )));
                } else {
                    assert(collided@[o] == prev_collided[o]) by {
                        match method.source {
                            MethodSource::Implementation(orig) => {
                                if collision {
                                    assert(class_method_collides_for(
                                        *mir,
                                        c as int,
                                        ii as int,
                                        orig,
                                    ));
                                    assert(o != orig as int);
                                }
                            },
                            MethodSource::Direct => {},
                        }
                    }
                    if exists|i: int|
                        0 <= i < ii + 1 && #[trigger] class_method_collides_for(
                            *mir,
                            c as int,
                            i,
                            o as usize,
                        ) {
                        let i0 = choose|i: int|
                            0 <= i < ii + 1 && #[trigger] class_method_collides_for(
                                *mir,
                                c as int,
                                i,
                                o as usize,
                            );
                        assert(i0 < ii);
                        assert(exists|i: int|
                            0 <= i < ii && #[trigger] class_method_collides_for(
                                *mir,
                                c as int,
                                i,
                                o as usize,
                            ));
                        assert(prev_collided[o]);
                        assert(collided@[o] == (old_collided[o] || exists|i: int|
                            0 <= i < ii + 1 && #[trigger] class_method_collides_for(
                                *mir,
                                c as int,
                                i,
                                o as usize,
                            )));
                    } else {
                        if exists|i: int|
                            0 <= i < ii && #[trigger] class_method_collides_for(
                                *mir,
                                c as int,
                                i,
                                o as usize,
                            ) {
                            let i1 = choose|i: int|
                                0 <= i < ii && #[trigger] class_method_collides_for(
                                    *mir,
                                    c as int,
                                    i,
                                    o as usize,
                                );
                            assert(0 <= i1 < ii + 1 && class_method_collides_for(
                                *mir,
                                c as int,
                                i1,
                                o as usize,
                            ));
                            assert(false);
                        }
                        assert(prev_collided[o] == old_collided[o]);
                        assert(collided@[o] == (old_collided[o] || exists|i: int|
                            0 <= i < ii + 1 && #[trigger] class_method_collides_for(
                                *mir,
                                c as int,
                                i,
                                o as usize,
                            )));
                    }
                }
                }
            }
        }
        let signature = language_signature(method);
        infos.set(
            m,
            Option::Some(
                MethodInfo {
                    index: index as u16,
                    hash,
                    collision,
                    signature,
                    struct_return: Option::None,
                },
            ),
        );
        proof {
            assert forall|i: int| 0 <= i < ii + 1 implies (#[trigger] infos@[mir.classes@[
                c as int
            ].methods@[i] as int]) is Some && class_info_ok(
                *mir,
                infos@[mir.classes@[c as int].methods@[i] as int].unwrap(),
                c as int,
                i,
            ) by {
                if i < ii {
                    assert(mir.classes@[c as int].methods@[i] != mir.classes@[c as int].methods@[
                        ii as int
                    ]);
                }
            }
            assert forall|m2: int|
                0 <= m2 < mir.methods@.len() && !(exists|i: int|
                    0 <= i < ii + 1 && class_pos_is(*mir, c as int, i, m2)) implies infos@[m2]
                == old_infos[m2] by {
                assert(!class_pos_is(*mir, c as int, ii as int, m2));
                assert(m2 != mir.classes@[c as int].methods@[ii as int]);
                if exists|i: int| 0 <= i < ii && class_pos_is(*mir, c as int, i, m2) {
                    let i0 = choose|i: int| 0 <= i < ii && class_pos_is(*mir, c as int, i, m2);
                    assert(0 <= i0 < ii + 1 && class_pos_is(*mir, c as int, i0, m2));
                    assert(false);
                }
            }
        }
        ii = ii + 1;
    }
}

/// Whether method id `m` stands at position `(g, j)` of the dynamic calls.
pub open spec fn dyn_pos_is(mir: Mir, g: int, j: int, m: int) -> bool {
    &&& 0 <= g < mir.dynamic_calls@.len()
    &&& 0 <= j < mir.dynamic_calls@[g].calls@.len()
    &&& mir.dynamic_calls@[g].calls@[j].method == m
}

/// Whether `m` is a dynamic-call target among the groups before `gg` and,
/// within group `gg`, the calls before `jj`.
pub open spec fn dyn_target_before(mir: Mir, m: int, gg: int, jj: int) -> bool {
    exists|g: int, j: int| (g < gg || (g == gg && j < jj)) && #[trigger] dyn_pos_is(mir, g, j, m)
}

/// Whether `m` is listed by one of the classes before `cc`.
pub open spec fn class_member_before(mir: Mir, m: int, cc: int) -> bool {
    exists|c: int, i: int| c < cc && #[trigger] class_pos_is(mir, c, i, m)
}

/// The two spellings of "is a dynamic-call target" agree.
proof fn lemma_dyn_target_forms(mir: Mir, m: int)
    ensures
        mir.is_dynamic_target(m) == dyn_target_before(
            mir,
            m,
            mir.dynamic_calls@.len() as int,
            0,
        ),
{
    if mir.is_dynamic_target(m) {
        let (g, j) = choose|g: int, j: int|
            0 <= g < mir.dynamic_calls.len() && 0 <= j < mir.dynamic_calls[g].calls.len()
                && #[trigger] mir.dynamic_calls[g].calls@[j].method == m;
        assert(dyn_pos_is(mir, g, j, m));
        assert(dyn_target_before(mir, m, mir.dynamic_calls@.len() as int, 0));
    }
    if dyn_target_before(mir, m, mir.dynamic_calls@.len() as int, 0) {
        let (g, j) = choose|g: int, j: int|
            (g < mir.dynamic_calls@.len() as int || (g == mir.dynamic_calls@.len() as int && j
                < 0)) && #[trigger] dyn_pos_is(mir, g, j, m);
        assert(mir.dynamic_calls[g].calls@[j].method == m);
    }
}

/// The two spellings of "is a class method" agree.
proof fn lemma_class_member_forms(mir: Mir, m: int)
    ensures
        mir.is_class_method(m) == class_member_before(mir, m, mir.classes@.len() as int),
{
    if mir.is_class_method(m) {
        let (c, i) = choose|c: int, i: int|
            0 <= c < mir.classes.len() && 0 <= i < mir.classes[c].methods.len()
                && #[trigger] mir.classes[c].methods@[i] == m;
        assert(class_pos_is(mir, c, i, m));
        assert(class_member_before(mir, m, mir.classes@.len() as int));
    }
    if class_member_before(mir, m, mir.classes@.len() as int) {
        let (c, i) = choose|c: int, i: int| c < mir.classes@.len() as int && #[trigger] class_pos_is(
            mir,
            c,
            i,
            m,
        );
        assert(mir.classes[c].methods@[i] == m);
    }
}

/// Extending the collided scan by one whole class adds exactly that class's
/// displaced implementations.
proof fn lemma_collided_step(mir: Mir, o: usize, cc: int)
    requires
        0 <= cc < mir.classes@.len(),
    ensures
        origin_collided_upto(mir, o, cc + 1, 0) == (origin_collided_upto(mir, o, cc, 0) || exists|
            i: int,
        |
            0 <= i < mir.classes@[cc].methods@.len() && #[trigger] class_method_collides_for(
                mir,
                cc,
                i,
                o,
            )),
{
    if origin_collided_upto(mir, o, cc + 1, 0) {
        let (c, i) = choose|c: int, i: int|
            0 <= c < mir.classes.len() && 0 <= i < mir.classes@[c].methods.len() && (c < cc + 1 || (
            c == cc + 1 && i < 0)) && #[trigger] class_method_collides_for(mir, c, i, o);
        if c < cc {
            assert(origin_collided_upto(mir, o, cc, 0));
        } else {
            assert(c == cc);
            assert(exists|i2: int|
                0 <= i2 < mir.classes@[cc].methods@.len() && #[trigger] class_method_collides_for(
                    mir,
                    cc,
                    i2,
                    o,
                ));
        }
    }
    if origin_collided_upto(mir, o, cc, 0) {
        let (c, i) = choose|c: int, i: int|
            0 <= c < mir.classes.len() && 0 <= i < mir.classes@[c].methods.len() && (c < cc || (c
                == cc && i < 0)) && #[trigger] class_method_collides_for(mir, c, i, o);
        assert(origin_collided_upto(mir, o, cc + 1, 0));
    }
    if exists|i: int|
        0 <= i < mir.classes@[cc].methods@.len() && #[trigger] class_method_collides_for(
            mir,
            cc,
            i,
            o,
        ) {
        let i = choose|i: int|
            0 <= i < mir.classes@[cc].methods@.len() && #[trigger] class_method_collides_for(
                mir,
                cc,
                i,
                o,
            );
        assert(origin_collided_upto(mir, o, cc + 1, 0));
    }
}

/// Runs slot assignment over every class, collecting the displaced trait
/// methods.
fn assign_classes(
    mir: &Mir,
    hasher: &MethodHasher,
    infos: &mut Vec<Option<MethodInfo>>,
    collided: &mut Vec<bool>,
)
    requires
        plannable(*mir),
        old(infos)@.len() == mir.methods@.len(),
        old(collided)@.len() == mir.methods@.len(),
        forall|o: int| 0 <= o < mir.methods@.len() ==> !(#[trigger] old(collided)@[o]),
    ensures
        final(infos)@.len() == mir.methods@.len(),
        final(collided)@.len() == mir.methods@.len(),
        forall|c: int, i: int|
            0 <= c < mir.classes@.len() && 0 <= i < mir.classes@[c].methods@.len() ==> (
            #[trigger] final(infos)@[mir.classes@[c].methods@[i] as int]) is Some && class_info_ok(
                *mir,
                final(infos)@[mir.classes@[c].methods@[i] as int].unwrap(),
                c,
                i,
            ),
        forall|m: int|
            0 <= m < mir.methods@.len() && !mir.is_class_method(m) ==> final(infos)@[m] == old(
                infos,
            )@[m],
        forall|o: int|
            0 <= o < mir.methods@.len() ==> final(collided)@[o] == origin_collided(
                *mir,
                o as usize,
            ),
{
    let ghost old_infos = old(infos)@;
    let ghost old_collided0 = old(collided)@;
    let mut cc: usize = 0;
    while cc < mir.classes.len()
        invariant
            plannable(*mir),
            0 <= cc <= mir.classes@.len(),
            infos@.len() == mir.methods@.len(),
            collided@.len() == mir.methods@.len(),
            old_infos.len() == mir.methods@.len(),
            forall|o: int| 0 <= o < mir.methods@.len() ==> !(#[trigger] old_collided0[o]),
            forall|c: int, i: int|
                0 <= c < cc && 0 <= i < mir.classes@[c].methods@.len() ==> (#[trigger] infos@[
                    mir.classes@[c].methods@[i] as int
                ]) is Some && class_info_ok(
                    *mir,
                    infos@[mir.classes@[c].methods@[i] as int].unwrap(),
                    c,
                    i,
                ),
            forall|m: int|
                0 <= m < mir.methods@.len() && !class_member_before(*mir, m, cc as int)
                    ==> infos@[m] == old_infos[m],
            forall|o: int|
                0 <= o < mir.methods@.len() ==> collided@[o] == origin_collided_upto(
                    *mir,
                    o as usize,
                    cc as int,
                    0,
                ),
        decreases mir.classes@.len() - cc,
    {
        let ghost pre_infos = infos@;
        let ghost pre_collided = collided@;
        assign_class(mir, cc, hasher, infos, collided);
        proof {
            // Earlier classes' records are untouched: their ids are not in
            // class `cc`.
            assert forall|c: int, i: int|
                0 <= c < cc + 1 && 0 <= i < mir.classes@[c].methods@.len() implies (
            #[trigger] infos@[mir.classes@[c].methods@[i] as int]) is Some && class_info_ok(
                *mir,
                infos@[mir.classes@[c].methods@[i] as int].unwrap(),
                c,
                i,
            ) by {
                let m = mir.classes@[c].methods@[i] as int;
                if c < cc {
                    if exists|i2: int| class_pos_is(*mir, cc as int, i2, m) {
                        let i2 = choose|i2: int| class_pos_is(*mir, cc as int, i2, m);
                        assert(mir.classes@[cc as int].methods@[i2] == mir.classes@[c].methods@[i]);
                        assert(false);
                    }
                    assert(infos@[m] == pre_infos[m]);
                }
            }
            assert forall|m: int|
                0 <= m < mir.methods@.len() && !class_member_before(*mir, m, cc + 1) implies infos@[
                m
            ] == old_infos[m] by {
                if exists|i2: int| class_pos_is(*mir, cc as int, i2, m) {
                    let i2 = choose|i2: int| class_pos_is(*mir, cc as int, i2, m);
                    assert(class_member_before(*mir, m, cc + 1));
                    assert(false);
                }
                if class_member_before(*mir, m, cc as int) {
                    let (c, i) = choose|c: int, i: int|
                        c < cc as int && #[trigger] class_pos_is(*mir, c, i, m);
                    assert(class_member_before(*mir, m, cc + 1));
                    assert(false);
                }
                assert(infos@[m] == pre_infos[m]);
            }
            assert forall|o: int| 0 <= o < mir.methods@.len() implies collided@[o]
                == origin_collided_upto(*mir, o as usize, cc + 1, 0) by {
                lemma_collided_step(*mir, o as usize, cc as int);
            }
        }
        cc = cc + 1;
    }
    proof {
        assert forall|m: int|
            0 <= m < mir.methods@.len() && !mir.is_class_method(m) implies infos@[m] == old_infos[
            m
        ] by {
            lemma_class_member_forms(*mir, m);
        }
    }
}

/// Records the method information of every dynamic-call target: hash,
/// opaque-receiver signature, and the collision flag its trait method
/// accumulated during slot assignment.
fn record_dynamic_calls(
    mir: &Mir,
    hasher: &MethodHasher,
    collided: &Vec<bool>,
    infos: &mut Vec<Option<MethodInfo>>,
)
    requires
        plannable(*mir),
        collided@.len() == mir.methods@.len(),
        forall|o: int|
            0 <= o < mir.methods@.len() ==> #[trigger] collided@[o] == origin_collided(
                *mir,
                o as usize,
            ),
        old(infos)@.len() == mir.methods@.len(),
    ensures
        final(infos)@.len() == mir.methods@.len(),
        forall|g: int, j: int|
            0 <= g < mir.dynamic_calls@.len() && 0 <= j < mir.dynamic_calls@[g].calls@.len() ==> (
            #[trigger] final(infos)@[mir.dynamic_calls@[g].calls@[j].method as int]) is Some
                && dyn_info_ok(
                *mir,
                final(infos)@[mir.dynamic_calls@[g].calls@[j].method as int].unwrap(),
                g,
                j,
            ),
        forall|m: int|
            0 <= m < mir.methods@.len() && !mir.is_dynamic_target(m) ==> final(infos)@[m] == old(
                infos,
            )@[m],
{
    let ghost old_infos = old(infos)@;
    let mut gg: usize = 0;
    while gg < mir.dynamic_calls.len()
        invariant
            plannable(*mir),
            0 <= gg <= mir.dynamic_calls@.len(),
            infos@.len() == mir.methods@.len(),
            old_infos.len() == mir.methods@.len(),
            collided@.len() == mir.methods@.len(),
            forall|o: int|
                0 <= o < mir.methods@.len() ==> #[trigger] collided@[o] == origin_collided(
                    *mir,
                    o as usize,
                ),
            forall|g: int, j: int|
                0 <= g < gg && 0 <= j < mir.dynamic_calls@[g].calls@.len() ==> (#[trigger] infos@[
                    mir.dynamic_calls@[g].calls@[j].method as int
                ]) is Some && dyn_info_ok(
                    *mir,
                    infos@[mir.dynamic_calls@[g].calls@[j].method as int].unwrap(),
                    g,
                    j,
                ),
            forall|m: int|
                0 <= m < mir.methods@.len() && !dyn_target_before(*mir, m, gg as int, 0)
                    ==> infos@[m] == old_infos[m],
        decreases mir.dynamic_calls@.len() - gg,
    {
        let group = &mir.dynamic_calls[gg];
        let mut jj: usize = 0;
        while jj < group.calls.len()
            invariant
                plannable(*mir),
                0 <= gg < mir.dynamic_calls@.len(),
                group == mir.dynamic_calls@[gg as int],
                0 <= jj <= group.calls@.len(),
                infos@.len() == mir.methods@.len(),
                old_infos.len() == mir.methods@.len(),
                collided@.len() == mir.methods@.len(),
                forall|o: int|
                    0 <= o < mir.methods@.len() ==> #[trigger] collided@[o] == origin_collided(
                        *mir,
                        o as usize,
                    ),
                forall|g: int, j: int|
                    0 <= g < mir.dynamic_calls@.len() && 0 <= j < mir.dynamic_calls@[
                        g
                    ].calls@.len() && (g < gg || (g == gg && j < jj)) ==> (#[trigger] infos@[
                        mir.dynamic_calls@[g].calls@[j].method as int
                    ]) is Some && dyn_info_ok(
                        *mir,
                        infos@[mir.dynamic_calls@[g].calls@[j].method as int].unwrap(),
                        g,
                        j,
                    ),
                forall|m: int|
                    0 <= m < mir.methods@.len() && !dyn_target_before(*mir, m, gg as int, jj as int)
                        ==> infos@[m] == old_infos[m],
            decreases group.calls@.len() - jj,
        {
            let call = &group.calls[jj];
            let m = call.method;
            proof {
                assert(mir.dynamic_calls@[gg as int].calls@[jj as int].method
                    < mir.methods@.len());
                assert(mir.dynamic_calls@[gg as int].origin < mir.methods@.len());
            }
            let method = &mir.methods[m];
            let key_string = hash_key(&method.name, &call.shapes);
            let hash = hasher.hash(key_string);
            let signature = dynamic_signature(method);
            let orig = group.origin;
            let coll = collided[orig];
            infos.set(
                m,
                Option::Some(
                    MethodInfo {
                        index: 0,
                        hash,
                        collision: coll,
                        signature,
                        struct_return: Option::None,
                    },
                ),
            );
            proof {
                assert(dyn_pos_is(*mir, gg as int, jj as int, m as int));
                assert(infos@[m as int].unwrap().hash == dyn_call_hash(*mir, gg as int, jj as int));
                assert(dyn_info_ok(*mir, infos@[m as int].unwrap(), gg as int, jj as int));
                assert forall|g: int, j: int|
                    0 <= g < mir.dynamic_calls@.len() && 0 <= j < mir.dynamic_calls@[
                        g
                    ].calls@.len() && (g < gg || (g == gg && j < jj + 1)) implies (
                #[trigger] infos@[mir.dynamic_calls@[g].calls@[j].method as int]) is Some
                    && dyn_info_ok(
                    *mir,
                    infos@[mir.dynamic_calls@[g].calls@[j].method as int].unwrap(),
                    g,
                    j,
                ) by {
                    if !(g == gg && j == jj) {
                        assert(mir.dynamic_calls@[g].calls@[j].method != mir.dynamic_calls@[
                            gg as int
                        ].calls@[jj as int].method);
                    }
                }
                assert forall|m2: int|
                    0 <= m2 < mir.methods@.len() && !dyn_target_before(
                        *mir,
                        m2,
                        gg as int,
                        jj + 1,
                    ) implies infos@[m2] == old_infos[m2] by {
                    assert(!dyn_pos_is(*mir, gg as int, jj as int, m2));
                    assert(m2 != m as int);
                    if dyn_target_before(*mir, m2, gg as int, jj as int) {
                        let (g, j) = choose|g: int, j: int|
                            (g < gg as int || (g == gg as int && j < jj as int))
                                && #[trigger] dyn_pos_is(*mir, g, j, m2);
                        assert(dyn_target_before(*mir, m2, gg as int, jj + 1));
                        assert(false);
                    }
                }
            }
            jj = jj + 1;
        }
        proof {
            assert forall|m2: int|
                0 <= m2 < mir.methods@.len() && !dyn_target_before(*mir, m2, gg + 1, 0) implies infos@[
                m2
            ] == old_infos[m2] by {
                if dyn_target_before(*mir, m2, gg as int, group.calls@.len() as int) {
                    let (g, j) = choose|g: int, j: int|
                        (g < gg as int || (g == gg as int && j < group.calls@.len() as int))
                            && #[trigger] dyn_pos_is(*mir, g, j, m2);
                    assert(dyn_target_before(*mir, m2, gg + 1, 0));
                    assert(false);
                }
            }
        }
        gg = gg + 1;
    }
    proof {
        assert forall|m: int|
            0 <= m < mir.methods@.len() && !mir.is_dynamic_target(m) implies infos@[m] == old_infos[
            m
        ] by {
            lemma_dyn_target_forms(*mir, m);
        }
    }
}

/// Records the method information of every static method: no slot, no hash,
/// the state-and-process signature.
fn record_statics(mir: &Mir, infos: &mut Vec<Option<MethodInfo>>)
    requires
        old(infos)@.len() == mir.methods@.len(),
    ensures
        final(infos)@.len() == mir.methods@.len(),
        forall|m: int|
            0 <= m < mir.methods@.len() && mir.methods@[m].is_static ==> (#[trigger] final(infos)@[
                m
            ]) is Some && static_info_ok(*mir, final(infos)@[m].unwrap(), m),
        forall|m: int|
            0 <= m < mir.methods@.len() && !mir.methods@[m].is_static ==> final(infos)@[m] == old(
                infos,
            )@[m],
{
    let ghost old_infos = old(infos)@;
    let mut m: usize = 0;
    while m < mir.methods.len()
        invariant
            0 <= m <= mir.methods@.len(),
            infos@.len() == mir.methods@.len(),
            old_infos.len() == mir.methods@.len(),
            forall|m2: int|
                0 <= m2 < m && mir.methods@[m2].is_static ==> (#[trigger] infos@[m2]) is Some
                    && static_info_ok(*mir, infos@[m2].unwrap(), m2),
            forall|m2: int|
                0 <= m2 < mir.methods@.len() && (m2 >= m || !mir.methods@[m2].is_static)
                    ==> infos@[m2] == old_infos[m2],
        decreases mir.methods@.len() - m,
    {
        let method = &mir.methods[m];
        if method.is_static {
            let signature = static_signature(method);
            infos.set(
                m,
                Option::Some(
                    MethodInfo {
                        index: 0,
                        hash: 0,
                        collision: false,
                        signature,
                        struct_return: Option::None,
                    },
                ),
            );
        }
        m = m + 1;
    }
}

/// The machine signature of an extern method under the C ABI, and the
/// aggregate it returns on the stack, if any.
fn extern_signature(method: &Method, target: &Target) -> (r: (Signature, Option<MachineType>))
    ensures
        method.returns is None ==> sig_is(
            r.0,
            method.arguments@,
            Option::None,
            method.is_variadic,
        ) && r.1 is None,
        method.returns is Some && needs_sret(*target, method.returns.unwrap()) ==> sig_is(
            r.0,
            seq![MachineType::Pointer] + method.arguments@,
            Option::None,
            method.is_variadic,
        ) && r.1 == method.returns,
        method.returns is Some && !needs_sret(*target, method.returns.unwrap()) ==> sig_is(
            r.0,
            method.arguments@,
            method.returns,
            method.is_variadic,
        ) && r.1 is None,
{
    match method.returns {
        Option::Some(ret) => {
            let big = match ret {
                MachineType::Aggregate(bits) => bits > target.pass_struct_size,
                _ => false,
            };
            if big {
                let mut lead_params: Vec<MachineType> = Vec::new();
                lead_params.push(MachineType::Pointer);
                let ghost lead = lead_params@;
                let params = push_arguments(lead_params, &method.arguments);
                proof {
                    assert(lead =~= seq![MachineType::Pointer]);
                }
                (
                    Signature { params, returns: Option::None, variadic: method.is_variadic },
                    Option::Some(ret),
                )
            } else {
                let params = push_arguments(Vec::new(), &method.arguments);
                proof {
                    assert(Seq::<MachineType>::empty() + method.arguments@ =~= method.arguments@);
                }
                (
                    Signature { params, returns: Option::Some(ret), variadic: method.is_variadic },
                    Option::None,
                )
            }
        },
        Option::None => {
            let params = push_arguments(Vec::new(), &method.arguments);
            proof {
                assert(Seq::<MachineType>::empty() + method.arguments@ =~= method.arguments@);
            }
            (
                Signature { params, returns: Option::None, variadic: method.is_variadic },
                Option::None,
            )
        },
    }
}

/// Records the method information of every extern method, applying the
/// C-ABI struct-return rewrite.
fn record_externs(mir: &Mir, target: &Target, infos: &mut Vec<Option<MethodInfo>>)
    requires
        plannable(*mir),
        old(infos)@.len() == mir.methods@.len(),
    ensures
        final(infos)@.len() == mir.methods@.len(),
        forall|k: int|
            0 <= k < mir.extern_methods@.len() ==> (#[trigger] final(infos)@[mir.extern_methods@[
                k
            ] as int]) is Some && extern_info_ok(
                *mir,
                *target,
                final(infos)@[mir.extern_methods@[k] as int].unwrap(),
                mir.extern_methods@[k] as int,
            ),
        forall|m: int|
            0 <= m < mir.methods@.len() && !mir.is_extern_method(m) ==> final(infos)@[m] == old(
                infos,
            )@[m],
{
    let ghost old_infos = old(infos)@;
    let mut k: usize = 0;
    while k < mir.extern_methods.len()
        invariant
            plannable(*mir),
            0 <= k <= mir.extern_methods@.len(),
            infos@.len() == mir.methods@.len(),
            old_infos.len() == mir.methods@.len(),
            forall|k2: int|
                0 <= k2 < k ==> (#[trigger] infos@[mir.extern_methods@[k2] as int]) is Some
                    && extern_info_ok(
                    *mir,
                    *target,
                    infos@[mir.extern_methods@[k2] as int].unwrap(),
                    mir.extern_methods@[k2] as int,
                ),
            forall|m: int|
                0 <= m < mir.methods@.len() && !(exists|k2: int|
                    0 <= k2 < k && #[trigger] mir.extern_methods@[k2] == m) ==> infos@[m]
                    == old_infos[m],
        decreases mir.extern_methods@.len() - k,
    {
        let m = mir.extern_methods[k];
        proof {
            assert(mir.extern_methods@[k as int] < mir.methods@.len());
        }
        let method = &mir.methods[m];
        let (signature, struct_return) = extern_signature(method, target);
        infos.set(
            m,
            Option::Some(
                MethodInfo { index: 0, hash: 0, collision: false, signature, struct_return },
            ),
        );
        proof {
            assert(extern_info_ok(*mir, *target, infos@[m as int].unwrap(), m as int));
            assert forall|m2: int|
                0 <= m2 < mir.methods@.len() && !(exists|k2: int|
                    0 <= k2 < k + 1 && #[trigger] mir.extern_methods@[k2] == m2) implies infos@[m2]
                == old_infos[m2] by {
                assert(mir.extern_methods@[k as int] != m2);
                if exists|k2: int| 0 <= k2 < k && #[trigger] mir.extern_methods@[k2] == m2 {
                    let k2 = choose|k2: int|
                        0 <= k2 < k && #[trigger] mir.extern_methods@[k2] == m2;
                    assert(0 <= k2 < k + 1 && mir.extern_methods@[k2] == m2);
                    assert(false);
                }
            }
        }
        k = k + 1;
    }
    proof {
        assert forall|m: int|
            0 <= m < mir.methods@.len() && !mir.is_extern_method(m) implies infos@[m] == old_infos[
            m
        ] by {
            if exists|k2: int|
                0 <= k2 < mir.extern_methods@.len() && #[trigger] mir.extern_methods@[k2] == m {
                let k2 = choose|k2: int|
                    0 <= k2 < mir.extern_methods@.len() && #[trigger] mir.extern_methods@[k2] == m;
                assert(mir.is_extern_method(m));
                assert(false);
            }
        }
    }
}

impl Layouts {
    /// Plans every layout and every method record for the given MIR on the
    /// given target: opaque per-class work first (capacities and instance
    /// bodies), then per-class slot assignment, then the dynamic-call,
    /// static and extern records.
    pub fn new(mir: &Mir, target: &Target) -> (layouts: Layouts)
        requires
            plannable(*mir),
        ensures
            planned(*mir, *target, layouts),
    {
        let hasher = MethodHasher::new();
        let mut header: Vec<MachineType> = Vec::new();
        header.push(MachineType::Pointer);
        header.push(MachineType::Int32);
        let mut method: Vec<MachineType> = Vec::new();
        method.push(MachineType::Int64);
        method.push(MachineType::Pointer);
        let mut state: Vec<MachineType> = Vec::new();
        state.push(MachineType::Pointer);
        state.push(MachineType::Pointer);
        state.push(MachineType::Pointer);
        state.push(MachineType::Pointer);
        let mut context: Vec<MachineType> = Vec::new();
        context.push(MachineType::Pointer);
        context.push(MachineType::Pointer);
        context.push(MachineType::Pointer);
        let mut method_counts: Vec<MachineType> = Vec::new();
        method_counts.push(MachineType::Int16);
        method_counts.push(MachineType::Int16);
        let mut message: Vec<MachineType> = Vec::new();
        message.push(MachineType::Pointer);
        message.push(MachineType::Int8);
        message.push(MachineType::PointerArray(0));
        proof {
            assert(header@ =~= seq![MachineType::Pointer, MachineType::Int32]);
            assert(method@ =~= seq![MachineType::Int64, MachineType::Pointer]);
            assert(state@ =~= seq![
                MachineType::Pointer,
                MachineType::Pointer,
                MachineType::Pointer,
                MachineType::Pointer,
            ]);
            assert(context@ =~= seq![
                MachineType::Pointer,
                MachineType::Pointer,
                MachineType::Pointer,
            ]);
            assert(method_counts@ =~= seq![MachineType::Int16, MachineType::Int16]);
            assert(message@ =~= seq![
                MachineType::Pointer,
                MachineType::Int8,
                MachineType::PointerArray(0),
            ]);
        }
        let empty_class = ClassLayout { name: String::new(), capacity: 0 };
        let process_size: u32 = match target.os {
            OperatingSystem::Linux => 112,
            OperatingSystem::Freebsd => 112,
            _ => 128,
        };
        proof {
            assert(process_size as nat == process_size_spec(target.os));
        }
        let mut classes: Vec<ClassLayout> = Vec::new();
        let mut instances: Vec<InstanceLayout> = Vec::new();
        let mut cc: usize = 0;
        while cc < mir.classes.len()
            invariant
                plannable(*mir),
                0 <= cc <= mir.classes@.len(),
                process_size as nat == process_size_spec(target.os),
                classes@.len() == cc,
                instances@.len() == cc,
                forall|c: int|
                    0 <= c < cc ==> (#[trigger] classes@[c].capacity) as nat == class_capacity(
                        *mir,
                        c,
                    ) && classes@[c].name@ == mir.classes@[c].name@ + ".class"@ && instances@[
                        c
                    ].name@ == mir.classes@[c].name@ && instances@[c].fields@
                        == instance_fields_spec(*mir, *target, c),
            decreases mir.classes@.len() - cc,
        {
            let cls = &mir.classes[cc];
            let count = instance_methods_count(&mir.methods, &cls.methods);
            let cap = table_capacity(count);
            let mut class_name = cls.name.clone();
            class_name.append(".class");
            classes.push(ClassLayout { name: class_name, capacity: cap as u32 });
            let mut fields: Vec<MachineType> = Vec::new();
            match cls.builtin {
                Builtin::Int => {
                    fields.push(MachineType::Header);
                    fields.push(MachineType::Int64);
                },
                Builtin::Float => {
                    fields.push(MachineType::Header);
                    fields.push(MachineType::Float64);
                },
                Builtin::Bool => {
                    fields.push(MachineType::Header);
                },
                Builtin::Nil => {
                    fields.push(MachineType::Header);
                },
                Builtin::ByteArray => {
                    fields.push(MachineType::Header);
                    fields.push(MachineType::VectorTriple);
                },
                _ => {
                    match cls.kind {
                        ClassKind::Extern => {
                            fields = push_arguments(fields, &cls.fields);
                        },
                        ClassKind::Async => {
                            fields.push(MachineType::Header);
                            fields.push(MachineType::ByteFiller(process_size - HEADER_SIZE));
                            let ghost lead = fields@;
                            fields = push_arguments(fields, &cls.fields);
                            proof {
                                assert(lead =~= seq![
                                    MachineType::Header,
                                    MachineType::ByteFiller(
                                        (process_size_spec(target.os) - HEADER_SIZE as nat) as u32,
                                    ),
                                ]);
                            }
                        },
                        _ => {
                            fields.push(MachineType::Header);
                            let ghost lead = fields@;
                            fields = push_arguments(fields, &cls.fields);
                            proof {
                                assert(lead =~= seq![MachineType::Header]);
                            }
                        },
                    }
                },
            }
            proof {
                assert(Seq::<MachineType>::empty() + mir.classes@[cc as int].fields@
                    =~= mir.classes@[cc as int].fields@);
                assert(fields@ =~= instance_fields_spec(*mir, *target, cc as int));
            }
            instances.push(InstanceLayout { name: cls.name.clone(), fields });
            cc = cc + 1;
        }
        let mut infos: Vec<Option<MethodInfo>> = Vec::new();
        let mut collided: Vec<bool> = Vec::new();
        let mut k: usize = 0;
        while k < mir.methods.len()
            invariant
                0 <= k <= mir.methods@.len(),
                infos@.len() == k,
                collided@.len() == k,
                forall|m: int| 0 <= m < k ==> (#[trigger] infos@[m]) is None,
                forall|o: int| 0 <= o < k ==> !(#[trigger] collided@[o]),
            decreases mir.methods@.len() - k,
        {
            infos.push(Option::None);
            collided.push(false);
            k = k + 1;
        }
        let ghost blank_infos = infos@;
        assign_classes(mir, &hasher, &mut infos, &mut collided);
        record_dynamic_calls(mir, &hasher, &collided, &mut infos);
        record_statics(mir, &mut infos);
        record_externs(mir, target, &mut infos);
        let layouts = Layouts {
            empty_class,
            method,
            classes,
            instances,
            state,
            header,
            context,
            method_counts,
            methods: infos,
            message,
        };
        proof {
            assert forall|c: int| 0 <= c < mir.classes@.len() implies #[trigger] class_layout_ok(
                *mir,
                *target,
                layouts,
                c,
            ) by {
                assert((layouts.classes@[c].capacity) as nat == class_capacity(*mir, c));
                assert(layouts.classes@[c].name@ == mir.classes@[c].name@ + ".class"@);
                assert(layouts.instances@[c].name@ == mir.classes@[c].name@);
                assert(layouts.instances@[c].fields@ == instance_fields_spec(*mir, *target, c));
            }
            assert forall|m: int| 0 <= m < mir.methods@.len() implies #[trigger] method_info_ok(
                *mir,
                *target,
                layouts,
                m,
            ) by {
                let infos_v = layouts.methods@;
                if mir.is_extern_method(m) {
                    let k2 = choose|k2: int|
                        0 <= k2 < mir.extern_methods@.len() && #[trigger] mir.extern_methods@[k2]
                            == m;
                    assert(infos_v[m] is Some && extern_info_ok(
                        *mir,
                        *target,
                        infos_v[m].unwrap(),
                        m,
                    ));
                } else if mir.methods@[m].is_static {
                    assert(infos_v[m] is Some && static_info_ok(*mir, infos_v[m].unwrap(), m));
                } else {
                    if mir.is_class_method(m) {
                        assert(!mir.is_dynamic_target(m));
                    }
                    assert forall|c: int, i: int|
                        0 <= c < mir.classes@.len() && 0 <= i < mir.classes@[c].methods@.len()
                            && #[trigger] mir.classes@[c].methods@[i] == m implies infos_v[m]
                        is Some && class_info_ok(*mir, infos_v[m].unwrap(), c, i) by {
                        assert(mir.is_class_method(m));
                        assert(!mir.is_dynamic_target(m));
                    }
                    assert forall|g: int, j: int|
                        0 <= g < mir.dynamic_calls@.len() && 0 <= j < mir.dynamic_calls@[
                            g
                        ].calls@.len() && #[trigger] mir.dynamic_calls@[g].calls@[j].method
                            == m implies infos_v[m] is Some && dyn_info_ok(
                        *mir,
                        infos_v[m].unwrap(),
                        g,
                        j,
                    ) by {
                        assert(mir.is_dynamic_target(m));
                        assert(!mir.is_class_method(m));
                        assert(!mir.methods@[m].is_static);
                    }
                    if !mir.is_class_method(m) && !mir.is_dynamic_target(m) {
                        assert(infos_v[m] == blank_infos[m]);
                        assert(infos_v[m] is None);
                    }
                }
            }
        }
        layouts
    }

    /// Every planned method table's capacity is a power of two — so that
    /// `hash & (capacity - 1)` indexes it — and is at least the minimum
    /// table size.
    pub proof fn lemma_capacity_power_of_two(mir: Mir, target: Target, l: Layouts, c: int)
        requires
            planned(mir, target, l),
            0 <= c < mir.classes@.len(),
        ensures
            l.classes@[c].capacity >= METHOD_TABLE_MIN_SIZE,
            l.classes@[c].capacity & ((l.classes@[c].capacity - 1) as u32) == 0,
    {
        assert(class_layout_ok(mir, target, l, c));
        lemma_table_capacity_pow2(instance_count(mir, c));
        lemma_pow2_bit_form(l.classes@[c].capacity);
    }

    /// Within one class, two distinct non-static methods never share a
    /// method-table slot.
    pub proof fn lemma_unique_slots(
        mir: Mir,
        target: Target,
        l: Layouts,
        c: int,
        i: int,
        j: int,
    )
        requires
            plannable(mir),
            planned(mir, target, l),
            0 <= c < mir.classes@.len(),
            0 <= i < j < mir.classes@[c].methods@.len(),
            !mir.methods@[mir.classes@[c].methods@[i] as int].is_static,
            !mir.methods@[mir.classes@[c].methods@[j] as int].is_static,
        ensures
            l.methods@[mir.classes@[c].methods@[i] as int].unwrap().index != l.methods@[
                mir.classes@[c].methods@[j] as int
            ].unwrap().index,
    {
        let mi = mir.classes@[c].methods@[i] as int;
        let mj = mir.classes@[c].methods@[j] as int;
        assert(mir.is_class_method(mi));
        assert(mir.is_class_method(mj));
        assert(!mir.is_extern_method(mi) && !mir.is_extern_method(mj));
        assert(method_info_ok(mir, target, l, mi));
        assert(method_info_ok(mir, target, l, mj));
        assert(class_info_ok(mir, l.methods@[mi].unwrap(), c, i));
        assert(class_info_ok(mir, l.methods@[mj].unwrap(), c, j));
        lemma_class_placeable(mir, c);
        lemma_slots_unique(
            class_is_closure(mir, c),
            init_buckets(class_capacity(mir, c)),
            class_keys(mir, c),
        );
    }

    /// A non-static dropper method always has slot 0.
    pub proof fn lemma_dropper_slot(mir: Mir, target: Target, l: Layouts, c: int, i: int)
        requires
            plannable(mir),
            planned(mir, target, l),
            0 <= c < mir.classes@.len(),
            0 <= i < mir.classes@[c].methods@.len(),
            mir.methods@[mir.classes@[c].methods@[i] as int].name@ == dropper_name(),
            !mir.methods@[mir.classes@[c].methods@[i] as int].is_static,
        ensures
            l.methods@[mir.classes@[c].methods@[i] as int].unwrap().index == 0,
    {
        let m = mir.classes@[c].methods@[i] as int;
        assert(mir.is_class_method(m));
        assert(!mir.is_extern_method(m));
        assert(method_info_ok(mir, target, l, m));
        assert(class_info_ok(mir, l.methods@[m].unwrap(), c, i));
        assert(class_key(mir, c, i).dropper);
    }

    /// A closure class assigns its dropper slot 0 and its `call` method slot
    /// 1; by `plannable` it holds no other methods.
    pub proof fn lemma_closure_layout(mir: Mir, target: Target, l: Layouts, c: int, i: int)
        requires
            plannable(mir),
            planned(mir, target, l),
            0 <= c < mir.classes@.len(),
            class_is_closure(mir, c),
            0 <= i < mir.classes@[c].methods@.len(),
            !mir.methods@[mir.classes@[c].methods@[i] as int].is_static,
        ensures
            l.methods@[mir.classes@[c].methods@[i] as int].unwrap().index == if mir.methods@[
                mir.classes@[c].methods@[i] as int
            ].name@ == dropper_name() {
                0u16
            } else {
                1u16
            },
    {
        let m = mir.classes@[c].methods@[i] as int;
        assert(mir.is_class_method(m));
        assert(!mir.is_extern_method(m));
        assert(method_info_ok(mir, target, l, m));
        assert(class_info_ok(mir, l.methods@[m].unwrap(), c, i));
    }

    /// Method hashes are deterministic: equal names with equal shape
    /// identifier sequences hash equally, across invocations and across
    /// compilations, because the hash is a pure function of the key.
    pub proof fn lemma_hash_deterministic(
        name1: Seq<char>,
        idents1: Seq<Seq<char>>,
        name2: Seq<char>,
        idents2: Seq<Seq<char>>,
    )
        requires
            name1 == name2,
            idents1 == idents2,
        ensures
            hash_chars(hash_key_spec(name1, idents1)) == hash_chars(hash_key_spec(name2, idents2)),
    {
    }

    /// Every non-extern instance starts with the header at field index 0,
    /// and an async instance's first user field sits behind padding that
    /// brings the offset to the process size.
    pub proof fn lemma_header_precedence(mir: Mir, target: Target, l: Layouts, c: int)
        requires
            planned(mir, target, l),
            0 <= c < mir.classes@.len(),
            mir.classes@[c].kind != ClassKind::Extern,
        ensures
            l.instances@[c].fields@.len() >= 1,
            l.instances@[c].fields@[0] == MachineType::Header,
            (mir.classes@[c].kind == ClassKind::Async && (mir.classes@[c].builtin
                == Builtin::NotBuiltin || mir.classes@[c].builtin == Builtin::Str))
                ==> l.instances@[c].fields@[1] == MachineType::ByteFiller(
                (process_size_spec(target.os) - HEADER_SIZE as nat) as u32,
            ),
    {
        assert(class_layout_ok(mir, target, l, c));
    }

    /// The C-ABI extern return rewrite: an extern method returning an
    /// aggregate wider than the target's threshold gets a void signature
    /// with a leading pointer parameter and its aggregate in
    /// `struct_return`; a smaller aggregate is returned in place with no
    /// `struct_return`.
    pub proof fn lemma_extern_abi(mir: Mir, target: Target, l: Layouts, k: int)
        requires
            planned(mir, target, l),
            0 <= k < mir.extern_methods@.len(),
            mir.extern_methods@[k] < mir.methods@.len(),
        ensures
            l.methods@[mir.extern_methods@[k] as int] is Some,
            extern_info_ok(
                mir,
                target,
                l.methods@[mir.extern_methods@[k] as int].unwrap(),
                mir.extern_methods@[k] as int,
            ),
    {
        let m = mir.extern_methods@[k] as int;
        assert(mir.is_extern_method(m));
        assert(method_info_ok(mir, target, l, m));
    }

    /// Collision propagation: if a class method was placed with a collision
    /// and implements trait method `o`, every dynamic-call record keyed by
    /// `o` carries the collision flag.
    pub proof fn lemma_collision_propagates(
        mir: Mir,
        target: Target,
        l: Layouts,
        c: int,
        i: int,
        g: int,
        j: int,
    )
        requires
            plannable(mir),
            planned(mir, target, l),
            0 <= c < mir.classes@.len(),
            0 <= i < mir.classes@[c].methods@.len(),
            class_collision(mir, c, i),
            0 <= g < mir.dynamic_calls@.len(),
            0 <= j < mir.dynamic_calls@[g].calls@.len(),
            mir.methods@[mir.classes@[c].methods@[i] as int].source == MethodSource::Implementation(
                mir.dynamic_calls@[g].origin,
            ),
        ensures
            l.methods@[mir.dynamic_calls@[g].calls@[j].method as int].unwrap().collision,
    {
        let m = mir.dynamic_calls@[g].calls@[j].method as int;
        assert(mir.is_dynamic_target(m));
        assert(!mir.is_class_method(m) && !mir.is_extern_method(m) && !mir.methods@[m].is_static);
        assert(method_info_ok(mir, target, l, m));
        assert(dyn_info_ok(mir, l.methods@[m].unwrap(), g, j));
        let o = mir.dynamic_calls@[g].origin;
        assert(class_method_collides_for(mir, c, i, o));
        assert(origin_collided(mir, o));
    }

    /// The method-table capacity of the given class; 0 for a class id the
    /// plan does not know.
    pub fn methods(&self, class: usize) -> (capacity: u32)
        ensures
            capacity == if class < self.classes@.len() {
                self.classes@[class as int].capacity
            } else {
                0u32
            },
    {
        if class < self.classes.len() {
            self.classes[class].capacity
        } else {
            0
        }
    }
}

} // verus!

