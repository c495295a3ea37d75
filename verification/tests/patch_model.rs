use mase::domain::patch::model::{
    Connection, Module, ModuleKind, ParamValue, Patch, PatchBuilder, PatchError, PortId,
};
use mase::ipc::protocol;

fn bits(x: f64) -> u64 {
    x.to_bits()
}

fn value(p: &ParamValue) -> f64 {
    f64::from_bits(p.value)
}

#[test]
fn test_patch_builder_simple() {
    let patch = PatchBuilder::new()
        .add_module(Module::new("osc1", ModuleKind::Oscillator))
        .add_module(Module::new("out1", ModuleKind::Output))
        .add_connection(Connection::new(
            PortId::new("osc1", "output"),
            PortId::new("out1", "input"),
        ))
        .build()
        .unwrap();

    assert_eq!(patch.modules().len(), 2);
    assert_eq!(patch.connections().len(), 1);
}

#[test]
fn test_find_module() {
    let patch = PatchBuilder::new()
        .add_module(Module::new("osc1", ModuleKind::Oscillator))
        .build()
        .unwrap();

    assert!(patch.find_module("osc1").is_some());
    assert!(patch.find_module("nonexistent").is_none());
}

#[test]
fn test_set_param_success() {
    let mut patch = PatchBuilder::new()
        .add_module(Module::new("osc1", ModuleKind::Oscillator))
        .build()
        .unwrap();

    assert!(patch.set_param("osc1.frequency", bits(880.0)).is_ok());
    let freq = patch.find_module("osc1").unwrap().get_param("frequency").unwrap();
    assert!((value(freq) - 880.0).abs() < f64::EPSILON);
}

#[test]
fn test_set_param_module_not_found() {
    let mut patch = PatchBuilder::new()
        .add_module(Module::new("osc1", ModuleKind::Oscillator))
        .build()
        .unwrap();

    assert!(matches!(
        patch.set_param("unknown.frequency", bits(440.0)),
        Err(PatchError::ModuleNotFound(_))
    ));
}

#[test]
fn test_set_param_not_found() {
    let mut patch = PatchBuilder::new()
        .add_module(Module::new("osc1", ModuleKind::Oscillator))
        .build()
        .unwrap();

    assert!(matches!(
        patch.set_param("osc1.unknown_param", bits(1.0)),
        Err(PatchError::ParamNotFound { .. })
    ));
}

#[test]
fn test_set_param_out_of_range() {
    let mut patch = PatchBuilder::new()
        .add_module(Module::new("osc1", ModuleKind::Oscillator))
        .build()
        .unwrap();

    assert!(matches!(
        patch.set_param("osc1.gain", bits(5.0)),
        Err(PatchError::ParamOutOfRange { .. })
    ));
}

#[test]
fn test_module_kind_from_str() {
    assert_eq!(ModuleKind::from_str("oscillator").unwrap(), ModuleKind::Oscillator);
    assert_eq!(ModuleKind::from_str("Filter").unwrap(), ModuleKind::Filter);
    assert!(ModuleKind::from_str("invalid").is_err());
}

#[test]
fn test_port_id_parse() {
    let port = PortId::parse("osc1.output").unwrap();
    assert_eq!(port.module_id, "osc1");
    assert_eq!(port.port_name, "output");
    assert!(PortId::parse("invalid").is_err());
}

#[test]
fn port_id_parse_splits_at_first_dot() {
    let port = PortId::parse("a.b.c").unwrap();
    assert_eq!(port.module_id, "a");
    assert_eq!(port.port_name, "b.c");
    let port = PortId::parse(".x").unwrap();
    assert_eq!(port.module_id, "");
    assert_eq!(port.port_name, "x");
    match PortId::parse("nodot") {
        Err(PatchError::InvalidPortId(s)) => assert_eq!(s, "nodot"),
        _ => panic!("expected InvalidPortId"),
    }
}

#[test]
fn module_kind_from_lowercase_and_error_text() {
    assert_eq!(ModuleKind::from_lowercase("mixer"), Some(ModuleKind::Mixer));
    assert_eq!(ModuleKind::from_lowercase("Mixer"), None);
    assert_eq!(ModuleKind::from_str("OUTPUT").unwrap(), ModuleKind::Output);
    assert_eq!(ModuleKind::from_str("EnVeLoPe").unwrap(), ModuleKind::Envelope);
    match ModuleKind::from_str("Bogus") {
        Err(PatchError::UnknownModuleKind(s)) => assert_eq!(s, "Bogus"),
        _ => panic!("expected UnknownModuleKind"),
    }
}

#[test]
fn default_params_of_each_kind() {
    let osc = ModuleKind::Oscillator.default_params();
    assert_eq!(osc.len(), 2);
    assert_eq!(osc[0].name, "frequency");
    assert_eq!(value(&osc[0]), 440.0);
    assert_eq!(f64::from_bits(osc[0].min), 20.0);
    assert_eq!(f64::from_bits(osc[0].max), 20000.0);
    assert_eq!(osc[1].name, "gain");
    assert_eq!(value(&osc[1]), 0.8);

    let env = ModuleKind::Envelope.default_params();
    let names: Vec<&str> = env.iter().map(|p| p.name.as_str()).collect();
    assert_eq!(names, vec!["attack", "decay", "sustain", "release"]);
    assert_eq!(value(&env[0]), 0.01);
    assert_eq!(f64::from_bits(env[0].min), 0.001);
    assert_eq!(value(&env[1]), 0.1);
    assert_eq!(value(&env[2]), 0.7);
    assert_eq!(value(&env[3]), 0.3);
    assert_eq!(f64::from_bits(env[3].max), 10.0);

    let flt = ModuleKind::Filter.default_params();
    assert_eq!(flt[0].name, "cutoff");
    assert_eq!(value(&flt[0]), 1000.0);
    assert_eq!(flt[1].name, "resonance");
    assert_eq!(value(&flt[1]), 0.5);

    assert_eq!(value(&ModuleKind::Output.default_params()[0]), 0.8);
    assert_eq!(value(&ModuleKind::Mixer.default_params()[0]), 0.5);
    assert_eq!(f64::from_bits(ModuleKind::Mixer.default_params()[0].max), 1.0);
}

#[test]
fn param_value_new_clamps() {
    let p = ParamValue::new("g", bits(5.0), bits(0.0), bits(1.0));
    assert_eq!(value(&p), 1.0);
    let p = ParamValue::new("g", bits(-3.0), bits(0.0), bits(1.0));
    assert_eq!(value(&p), 0.0);
    let p = ParamValue::new("g", bits(0.25), bits(0.0), bits(1.0));
    assert_eq!(value(&p), 0.25);
    assert_eq!(p.name, "g");
}

#[test]
fn param_value_set_bounds_are_inclusive() {
    let mut p = ParamValue::new("g", bits(0.5), bits(0.0), bits(1.0));
    assert!(p.set(bits(1.0)).is_ok());
    assert_eq!(value(&p), 1.0);
    assert!(p.set(bits(0.0)).is_ok());
    assert_eq!(value(&p), 0.0);
    match p.set(bits(1.5)) {
        Err(PatchError::ParamOutOfRange { name, min, max, got }) => {
            assert_eq!(name, "g");
            assert_eq!(f64::from_bits(min), 0.0);
            assert_eq!(f64::from_bits(max), 1.0);
            assert_eq!(f64::from_bits(got), 1.5);
        }
        _ => panic!("expected ParamOutOfRange"),
    }
    assert_eq!(value(&p), 0.0);
}

#[test]
fn refused_set_param_leaves_patch_unchanged() {
    let mut patch = PatchBuilder::new()
        .add_module(Module::new("osc1", ModuleKind::Oscillator))
        .build()
        .unwrap();
    assert!(matches!(
        patch.set_param("osc1frequency", bits(500.0)),
        Err(PatchError::InvalidPortId(_))
    ));
    let freq = patch.find_module("osc1").unwrap().get_param("frequency").unwrap();
    assert_eq!(value(freq), 440.0);
    match patch.set_param("osc1.gain", bits(-0.5)) {
        Err(PatchError::ParamOutOfRange { name, .. }) => assert_eq!(name, "gain"),
        _ => panic!("expected ParamOutOfRange"),
    }
    let gain = patch.find_module("osc1").unwrap().get_param("gain").unwrap();
    assert_eq!(value(gain), 0.8);
}

#[test]
fn set_param_reaches_first_module_with_id() {
    let mut patch = PatchBuilder::new()
        .add_module(Module::new("m", ModuleKind::Mixer))
        .add_module(Module::new("m", ModuleKind::Output))
        .build()
        .unwrap();
    assert!(patch.set_param("m.gain", bits(0.25)).is_ok());
    assert_eq!(value(&patch.modules()[0].params[0]), 0.25);
    assert_eq!(value(&patch.modules()[1].params[0]), 0.8);
    match patch.set_param("m.cutoff", bits(100.0)) {
        Err(PatchError::ParamNotFound { module_id, param_name }) => {
            assert_eq!(module_id, "m");
            assert_eq!(param_name, "cutoff");
        }
        _ => panic!("expected ParamNotFound"),
    }
}

#[test]
fn find_module_mut_changes_in_place() {
    let mut patch = PatchBuilder::new()
        .add_module(Module::new("osc1", ModuleKind::Oscillator))
        .build()
        .unwrap();
    {
        let m = patch.find_module_mut("osc1").unwrap();
        m.set_param("gain", bits(0.1)).unwrap();
    }
    assert_eq!(value(patch.find_module("osc1").unwrap().get_param("gain").unwrap()), 0.1);
    assert!(patch.find_module_mut("none").is_none());
}

#[test]
fn module_ids_in_order() {
    let patch = PatchBuilder::new()
        .add_module(Module::new("b", ModuleKind::Filter))
        .add_module(Module::new("a", ModuleKind::Output))
        .build()
        .unwrap();
    assert_eq!(patch.module_ids(), vec!["b", "a"]);
}

#[test]
fn adjacency_lists_each_node_once() {
    let patch = PatchBuilder::new()
        .add_module(Module::new("a", ModuleKind::Oscillator))
        .add_module(Module::new("a", ModuleKind::Filter))
        .add_module(Module::new("b", ModuleKind::Output))
        .add_connection(Connection::new(PortId::new("a", "o"), PortId::new("b", "i")))
        .add_connection(Connection::new(PortId::new("c", "o"), PortId::new("a", "i")))
        .add_connection(Connection::new(PortId::new("a", "o"), PortId::new("x", "i")))
        .build()
        .unwrap();
    let adj = patch.adjacency();
    let keys: Vec<&str> = adj.iter().map(|(k, _)| k.as_str()).collect();
    assert_eq!(keys.len(), 3);
    let get = |k: &str| adj.iter().find(|(key, _)| key == k).map(|(_, v)| v.clone()).unwrap();
    assert_eq!(get("a"), vec!["b".to_string(), "x".to_string()]);
    assert_eq!(get("b"), Vec::<String>::new());
    assert_eq!(get("c"), vec!["a".to_string()]);
}

#[test]
fn module_with_params_and_get_param() {
    let m = Module::with_params(
        "m",
        ModuleKind::Mixer,
        vec![
            ParamValue::new("x", bits(1.0), bits(0.0), bits(2.0)),
            ParamValue::new("x", bits(2.0), bits(0.0), bits(2.0)),
        ],
    );
    assert_eq!(value(m.get_param("x").unwrap()), 1.0);
    assert!(m.get_param("y").is_none());
}

fn ipc_module(id: &str, kind: &str, params: Vec<Vec<(&str, Option<f64>)>>) -> protocol::Module {
    protocol::Module {
        id: id.to_string(),
        kind: kind.to_string(),
        params: params
            .into_iter()
            .map(|m| m.into_iter().map(|(k, v)| (k.to_string(), v.map(f64::to_bits))).collect())
            .collect(),
    }
}

#[test]
fn from_ipc_builds_modules_and_connections() {
    let ipc = protocol::Patch {
        modules: vec![
            ipc_module(
                "osc1",
                "Oscillator",
                vec![vec![("wave", None), ("gain", Some(0.5)), ("frequency", Some(5.0))]],
            ),
            ipc_module("out1", "output", vec![]),
        ],
        connections: vec![protocol::Connection { from: "osc1.out".into(), to: "out1.in".into() }],
    };
    let patch = Patch::from_ipc(&ipc).unwrap();
    assert_eq!(patch.modules().len(), 2);
    let osc = patch.find_module("osc1").unwrap();
    assert_eq!(osc.kind, ModuleKind::Oscillator);
    assert_eq!(value(osc.get_param("gain").unwrap()), 0.5);
    // 5 Hz is below the frequency range: the setting is skipped.
    assert_eq!(value(osc.get_param("frequency").unwrap()), 440.0);
    assert_eq!(patch.connections()[0].from.module_id, "osc1");
    assert_eq!(patch.connections()[0].to.port_name, "in");
}

#[test]
fn from_ipc_reports_first_error() {
    let ipc = protocol::Patch {
        modules: vec![ipc_module("m", "wobbler", vec![])],
        connections: vec![protocol::Connection { from: "bad".into(), to: "x.y".into() }],
    };
    match Patch::from_ipc(&ipc) {
        Err(PatchError::UnknownModuleKind(k)) => assert_eq!(k, "wobbler"),
        _ => panic!("expected UnknownModuleKind"),
    }
    let ipc = protocol::Patch {
        modules: vec![ipc_module("m", "mixer", vec![])],
        connections: vec![protocol::Connection { from: "m.o".into(), to: "y".into() }],
    };
    match Patch::from_ipc(&ipc) {
        Err(PatchError::InvalidPortId(p)) => assert_eq!(p, "y"),
        _ => panic!("expected InvalidPortId"),
    }
    let ipc = protocol::Patch {
        modules: vec![
            ipc_module("a", "Filter", vec![]),
            ipc_module("b", "kazoo", vec![]),
            ipc_module("c", "theremin", vec![]),
        ],
        connections: vec![protocol::Connection { from: "a".into(), to: "b.i".into() }],
    };
    match Patch::from_ipc(&ipc) {
        Err(PatchError::UnknownModuleKind(k)) => assert_eq!(k, "kazoo"),
        _ => panic!("expected UnknownModuleKind"),
    }
    let ipc = protocol::Patch {
        modules: vec![ipc_module("a", "FILTER", vec![])],
        connections: vec![
            protocol::Connection { from: "a.o".into(), to: "a.i".into() },
            protocol::Connection { from: "p".into(), to: "q".into() },
            protocol::Connection { from: "r".into(), to: "s.t".into() },
        ],
    };
    match Patch::from_ipc(&ipc) {
        Err(PatchError::InvalidPortId(p)) => assert_eq!(p, "p"),
        _ => panic!("expected InvalidPortId"),
    }
}
