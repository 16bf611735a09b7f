use layout_planner::hasher::MethodHasher;
use layout_planner::layouts::{hash_key, Layouts};
use layout_planner::mir::{
    Builtin, ClassKind, DynCall, DynamicCalls, MachineType, Method, MethodSource, Mir, MirClass,
    OperatingSystem, Shape, Target,
};
use layout_planner::sizer::{round_methods, table_capacity};

fn method(name: &str) -> Method {
    Method {
        name: String::from(name),
        shapes: Vec::new(),
        receiver: MachineType::Pointer,
        arguments: Vec::new(),
        returns: None,
        is_async: false,
        is_instance: true,
        is_static: false,
        is_variadic: false,
        source: MethodSource::Direct,
    }
}

fn class(name: &str, kind: ClassKind, fields: Vec<MachineType>, methods: Vec<usize>) -> MirClass {
    MirClass { name: String::from(name), kind, builtin: Builtin::NotBuiltin, fields, methods }
}

fn linux_target() -> Target {
    Target { os: OperatingSystem::Linux, pass_struct_size: 128 }
}

#[test]
fn test_next_pow2_values() {
    assert_eq!(round_methods(0), 0);
    assert_eq!(round_methods(1), 1);
    assert_eq!(round_methods(2), 2);
    assert_eq!(round_methods(3), 4);
    assert_eq!(round_methods(65), 128);
}

#[test]
fn test_table_capacity_values() {
    assert_eq!(table_capacity(0), 64);
    assert_eq!(table_capacity(3), 64);
    assert_eq!(table_capacity(16), 64);
    assert_eq!(table_capacity(17), 128);
}

#[test]
fn test_hash_is_deterministic() {
    let hasher1 = MethodHasher::new();
    let hasher2 = MethodHasher::new();
    let shapes = vec![Shape { identifier: String::from("i64") }];
    let k1 = hash_key(&String::from("to_string"), &shapes);
    let k2 = hash_key(&String::from("to_string"), &shapes);
    assert_eq!(k1, String::from("to_stringi64"));
    assert_eq!(hasher1.hash(k1), hasher2.hash(k2));
}

#[test]
fn test_three_method_class() {
    // A class with three methods, one of them the dropper: capacity 64, the
    // dropper in slot 0, the others in two distinct other slots.
    let mir = Mir {
        classes: vec![class(
            "main.Example",
            ClassKind::Regular,
            vec![],
            vec![0, 1, 2],
        )],
        methods: vec![method("$dropper"), method("alpha"), method("beta")],
        dynamic_calls: vec![],
        extern_methods: vec![],
    };
    let layouts = Layouts::new(&mir, &linux_target());
    assert_eq!(layouts.methods(0), 64);
    assert_eq!(layouts.classes[0].name, "main.Example.class");
    let dropper = layouts.methods[0].as_ref().unwrap();
    let alpha = layouts.methods[1].as_ref().unwrap();
    let beta = layouts.methods[2].as_ref().unwrap();
    assert_eq!(dropper.index, 0);
    assert_ne!(alpha.index, 0);
    assert_ne!(beta.index, 0);
    assert_ne!(alpha.index, beta.index);
    assert!(alpha.index < 64 && beta.index < 64);
    // Instance methods carry state, process and receiver parameters.
    assert_eq!(
        alpha.signature.params,
        vec![MachineType::Pointer, MachineType::Pointer, MachineType::Pointer]
    );
    // The same input plans identically when run again.
    let again = Layouts::new(&mir, &linux_target());
    assert_eq!(again.methods[1].as_ref().unwrap().index, alpha.index);
    assert_eq!(again.methods[1].as_ref().unwrap().hash, alpha.hash);
}

#[test]
fn test_closure_fixed_layout() {
    let mut closure = class("main.Closure", ClassKind::Closure, vec![], vec![0, 1]);
    closure.builtin = Builtin::NotBuiltin;
    let mir = Mir {
        classes: vec![closure],
        methods: vec![method("$dropper"), method("call")],
        dynamic_calls: vec![],
        extern_methods: vec![],
    };
    let layouts = Layouts::new(&mir, &linux_target());
    assert_eq!(layouts.methods(0), 64);
    assert_eq!(layouts.methods[0].as_ref().unwrap().index, 0);
    assert_eq!(layouts.methods[1].as_ref().unwrap().index, 1);
    assert!(!layouts.methods[0].as_ref().unwrap().collision);
    assert!(!layouts.methods[1].as_ref().unwrap().collision);
}

#[test]
fn test_async_instance_layout_on_linux() {
    let mir = Mir {
        classes: vec![class(
            "main.Process",
            ClassKind::Async,
            vec![MachineType::Int64, MachineType::Pointer],
            vec![],
        )],
        methods: vec![],
        dynamic_calls: vec![],
        extern_methods: vec![],
    };
    let layouts = Layouts::new(&mir, &linux_target());
    assert_eq!(
        layouts.instances[0].fields,
        vec![
            MachineType::Header,
            MachineType::ByteFiller(112 - 16),
            MachineType::Int64,
            MachineType::Pointer,
        ]
    );
}

#[test]
fn test_extern_struct_layout() {
    let mir = Mir {
        classes: vec![class(
            "main.CStruct",
            ClassKind::Extern,
            vec![MachineType::Int32, MachineType::Int32],
            vec![],
        )],
        methods: vec![],
        dynamic_calls: vec![],
        extern_methods: vec![],
    };
    let layouts = Layouts::new(&mir, &linux_target());
    assert_eq!(
        layouts.instances[0].fields,
        vec![MachineType::Int32, MachineType::Int32]
    );
}

#[test]
fn test_builtin_instance_layouts() {
    let mut int_class = class("std.Int", ClassKind::Regular, vec![], vec![]);
    int_class.builtin = Builtin::Int;
    let mut bool_class = class("std.Bool", ClassKind::Regular, vec![], vec![]);
    bool_class.builtin = Builtin::Bool;
    let mut bytes_class = class("std.ByteArray", ClassKind::Regular, vec![], vec![]);
    bytes_class.builtin = Builtin::ByteArray;
    let mut string_class =
        class("std.String", ClassKind::Regular, vec![MachineType::Pointer], vec![]);
    string_class.builtin = Builtin::Str;
    let mir = Mir {
        classes: vec![int_class, bool_class, bytes_class, string_class],
        methods: vec![],
        dynamic_calls: vec![],
        extern_methods: vec![],
    };
    let layouts = Layouts::new(&mir, &linux_target());
    assert_eq!(
        layouts.instances[0].fields,
        vec![MachineType::Header, MachineType::Int64]
    );
    assert_eq!(layouts.instances[1].fields, vec![MachineType::Header]);
    assert_eq!(
        layouts.instances[2].fields,
        vec![MachineType::Header, MachineType::VectorTriple]
    );
    // Built-in or not, a string is laid out like a regular class.
    assert_eq!(
        layouts.instances[3].fields,
        vec![MachineType::Header, MachineType::Pointer]
    );
}

#[test]
fn test_extern_large_aggregate_returns_through_pointer() {
    let mut ext = method("make_thing");
    ext.is_instance = false;
    ext.returns = Some(MachineType::Aggregate(192));
    ext.arguments = vec![MachineType::Int64];
    let mir = Mir {
        classes: vec![],
        methods: vec![ext],
        dynamic_calls: vec![],
        extern_methods: vec![0],
    };
    let layouts = Layouts::new(&mir, &linux_target());
    let info = layouts.methods[0].as_ref().unwrap();
    assert_eq!(info.signature.returns, None);
    assert_eq!(
        info.signature.params,
        vec![MachineType::Pointer, MachineType::Int64]
    );
    assert_eq!(info.struct_return, Some(MachineType::Aggregate(192)));
}

#[test]
fn test_extern_small_aggregate_returns_in_registers() {
    let mut ext = method("make_pair");
    ext.is_instance = false;
    ext.returns = Some(MachineType::Aggregate(64));
    let mir = Mir {
        classes: vec![],
        methods: vec![ext],
        dynamic_calls: vec![],
        extern_methods: vec![0],
    };
    let layouts = Layouts::new(&mir, &linux_target());
    let info = layouts.methods[0].as_ref().unwrap();
    assert_eq!(info.signature.returns, Some(MachineType::Aggregate(64)));
    assert_eq!(info.signature.params, vec![]);
    assert_eq!(info.struct_return, None);
}

#[test]
fn test_static_method_record() {
    let mut stat = method("create");
    stat.is_instance = false;
    stat.is_static = true;
    stat.arguments = vec![MachineType::Int64];
    stat.returns = Some(MachineType::Pointer);
    let mir = Mir {
        classes: vec![class("main.Example", ClassKind::Regular, vec![], vec![0])],
        methods: vec![stat],
        dynamic_calls: vec![],
        extern_methods: vec![],
    };
    let layouts = Layouts::new(&mir, &linux_target());
    let info = layouts.methods[0].as_ref().unwrap();
    assert_eq!(info.index, 0);
    assert_eq!(info.hash, 0);
    assert!(!info.collision);
    assert_eq!(
        info.signature.params,
        vec![MachineType::Pointer, MachineType::Pointer, MachineType::Int64]
    );
}

#[test]
fn test_collision_propagates_to_dynamic_calls() {
    // Methods 2 and 3 share a name and therefore a hash; placing method 3
    // displaces it, and since it implements trait method 0, the dynamic-call
    // record keyed by that trait method must carry the collision flag.
    let mut implementation = method("equals");
    implementation.source = MethodSource::Implementation(0);
    let mir = Mir {
        classes: vec![class(
            "main.Example",
            ClassKind::Regular,
            vec![],
            vec![2, 3],
        )],
        methods: vec![
            method("equals"),
            method("equals"),
            method("equals"),
            implementation,
        ],
        dynamic_calls: vec![DynamicCalls {
            origin: 0,
            calls: vec![DynCall { method: 1, shapes: Vec::new() }],
        }],
        extern_methods: vec![],
    };
    let layouts = Layouts::new(&mir, &linux_target());
    let first = layouts.methods[2].as_ref().unwrap();
    let second = layouts.methods[3].as_ref().unwrap();
    assert_eq!(first.hash, second.hash);
    assert!(!first.collision);
    assert!(second.collision);
    assert_ne!(first.index, second.index);
    let dynamic = layouts.methods[1].as_ref().unwrap();
    assert!(dynamic.collision);
    assert_eq!(dynamic.hash, first.hash);
    assert_eq!(dynamic.index, 0);
    // The opaque dynamic-dispatch signature: state, process, receiver.
    assert_eq!(
        dynamic.signature.params,
        vec![MachineType::Pointer, MachineType::Pointer, MachineType::Pointer]
    );
}

#[test]
fn test_async_method_signature() {
    let mut async_method = method("run");
    async_method.is_async = true;
    async_method.returns = Some(MachineType::Pointer);
    let mir = Mir {
        classes: vec![class("main.Process", ClassKind::Async, vec![], vec![0])],
        methods: vec![async_method],
        dynamic_calls: vec![],
        extern_methods: vec![],
    };
    let layouts = Layouts::new(&mir, &linux_target());
    let info = layouts.methods[0].as_ref().unwrap();
    // Async methods take only the context pointer and return nothing.
    assert_eq!(info.signature.params, vec![MachineType::Pointer]);
    assert_eq!(info.signature.returns, None);
}

#[test]
fn test_templates_match_runtime_contract() {
    let mir = Mir { classes: vec![], methods: vec![], dynamic_calls: vec![], extern_methods: vec![] };
    let layouts = Layouts::new(&mir, &linux_target());
    assert_eq!(layouts.header, vec![MachineType::Pointer, MachineType::Int32]);
    assert_eq!(layouts.method, vec![MachineType::Int64, MachineType::Pointer]);
    assert_eq!(
        layouts.state,
        vec![
            MachineType::Pointer,
            MachineType::Pointer,
            MachineType::Pointer,
            MachineType::Pointer,
        ]
    );
    assert_eq!(
        layouts.context,
        vec![MachineType::Pointer, MachineType::Pointer, MachineType::Pointer]
    );
    assert_eq!(layouts.method_counts, vec![MachineType::Int16, MachineType::Int16]);
    assert_eq!(
        layouts.message,
        vec![MachineType::Pointer, MachineType::Int8, MachineType::PointerArray(0)]
    );
    assert_eq!(layouts.empty_class.capacity, 0);
    assert_eq!(layouts.methods(5), 0);
}

#[test]
fn test_process_size_outside_linux() {
    let mir = Mir {
        classes: vec![class(
            "main.Process",
            ClassKind::Async,
            vec![MachineType::Int64],
            vec![],
        )],
        methods: vec![],
        dynamic_calls: vec![],
        extern_methods: vec![],
    };
    let target = Target { os: OperatingSystem::Mac, pass_struct_size: 128 };
    let layouts = Layouts::new(&mir, &target);
    assert_eq!(
        layouts.instances[0].fields,
        vec![
            MachineType::Header,
            MachineType::ByteFiller(128 - 16),
            MachineType::Int64,
        ]
    );
}
