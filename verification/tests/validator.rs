use mase::domain::patch::model::{Connection, Module, ModuleKind, Patch, PatchBuilder, PortId};
use mase::domain::patch::validator::{PatchValidator, ValidationError};

fn osc_out_patch() -> Patch {
    PatchBuilder::new()
        .add_module(Module::new("osc1", ModuleKind::Oscillator))
        .add_module(Module::new("out1", ModuleKind::Output))
        .add_connection(Connection::new(
            PortId::new("osc1", "output"),
            PortId::new("out1", "input"),
        ))
        .build()
        .unwrap()
}

#[test]
fn valid_patch_passes() {
    assert!(PatchValidator::validate(&osc_out_patch()).is_ok());
}

#[test]
fn no_output_module_fails() {
    let patch = PatchBuilder::new()
        .add_module(Module::new("osc1", ModuleKind::Oscillator))
        .build()
        .unwrap();
    assert!(matches!(
        PatchValidator::validate(&patch),
        Err(ValidationError::NoOutputModule)
    ));
}

#[test]
fn multiple_output_modules_fail() {
    let patch = PatchBuilder::new()
        .add_module(Module::new("out1", ModuleKind::Output))
        .add_module(Module::new("out2", ModuleKind::Output))
        .build()
        .unwrap();
    assert!(matches!(
        PatchValidator::validate(&patch),
        Err(ValidationError::MultipleOutputModules)
    ));
}

#[test]
fn unknown_module_in_connection_fails() {
    let patch = PatchBuilder::new()
        .add_module(Module::new("out1", ModuleKind::Output))
        .add_connection(Connection::new(
            PortId::new("ghost", "output"),
            PortId::new("out1", "input"),
        ))
        .build()
        .unwrap();
    assert!(matches!(
        PatchValidator::validate(&patch),
        Err(ValidationError::UnknownModule(_))
    ));
}

#[test]
fn cycle_detection_fails() {
    let patch = PatchBuilder::new()
        .add_module(Module::new("a", ModuleKind::Filter))
        .add_module(Module::new("b", ModuleKind::Filter))
        .add_module(Module::new("out1", ModuleKind::Output))
        .add_connection(Connection::new(PortId::new("a", "out"), PortId::new("b", "in")))
        .add_connection(Connection::new(PortId::new("b", "out"), PortId::new("a", "in")))
        .add_connection(Connection::new(PortId::new("b", "out"), PortId::new("out1", "in")))
        .build()
        .unwrap();
    assert!(matches!(
        PatchValidator::validate(&patch),
        Err(ValidationError::CycleDetected)
    ));
}

fn connect(b: PatchBuilder, from: &str, to: &str) -> PatchBuilder {
    b.add_connection(Connection::new(PortId::new(from, "o"), PortId::new(to, "i")))
}

#[test]
fn self_loop_is_a_cycle() {
    let b = PatchBuilder::new()
        .add_module(Module::new("f", ModuleKind::Filter))
        .add_module(Module::new("out", ModuleKind::Output));
    let patch = connect(b, "f", "f").build().unwrap();
    assert!(matches!(PatchValidator::validate(&patch), Err(ValidationError::CycleDetected)));
}

#[test]
fn diamond_without_cycle_passes() {
    let b = PatchBuilder::new()
        .add_module(Module::new("osc", ModuleKind::Oscillator))
        .add_module(Module::new("f1", ModuleKind::Filter))
        .add_module(Module::new("f2", ModuleKind::Filter))
        .add_module(Module::new("mix", ModuleKind::Mixer))
        .add_module(Module::new("out", ModuleKind::Output));
    let b = connect(b, "osc", "f1");
    let b = connect(b, "osc", "f2");
    let b = connect(b, "f1", "mix");
    let b = connect(b, "f2", "mix");
    let b = connect(b, "mix", "out");
    let patch = connect(b, "osc", "mix").build().unwrap();
    assert!(PatchValidator::validate(&patch).is_ok());
}

#[test]
fn long_cycle_far_from_start_is_found() {
    let b = PatchBuilder::new()
        .add_module(Module::new("out", ModuleKind::Output))
        .add_module(Module::new("a", ModuleKind::Filter))
        .add_module(Module::new("b", ModuleKind::Filter))
        .add_module(Module::new("c", ModuleKind::Filter))
        .add_module(Module::new("d", ModuleKind::Filter));
    let b = connect(b, "a", "b");
    let b = connect(b, "b", "c");
    let b = connect(b, "c", "d");
    let b = connect(b, "d", "b");
    let patch = connect(b, "a", "out").build().unwrap();
    assert!(matches!(PatchValidator::validate(&patch), Err(ValidationError::CycleDetected)));
}

#[test]
fn rules_are_checked_in_order() {
    // No output and a cycle: the output rule is reported.
    let b = PatchBuilder::new().add_module(Module::new("f", ModuleKind::Filter));
    let patch = connect(b, "f", "f").build().unwrap();
    assert!(matches!(PatchValidator::validate(&patch), Err(ValidationError::NoOutputModule)));
    // Unknown target and a cycle: the unknown module is reported, the source
    // of a connection before its target.
    let b = PatchBuilder::new()
        .add_module(Module::new("f", ModuleKind::Filter))
        .add_module(Module::new("out", ModuleKind::Output));
    let b = connect(b, "f", "f");
    let b = connect(b, "f", "ghost1");
    let patch = connect(b, "ghost2", "ghost3").build().unwrap();
    match PatchValidator::validate(&patch) {
        Err(ValidationError::UnknownModule(id)) => assert_eq!(id, "ghost1"),
        _ => panic!("expected UnknownModule"),
    }
}

#[test]
fn patch_without_oscillator_fails() {
    let patch = PatchBuilder::new()
        .add_module(Module::new("out1", ModuleKind::Output))
        .build()
        .unwrap();
    assert!(matches!(PatchValidator::validate(&patch), Err(ValidationError::NoSoundSource)));
    let b = PatchBuilder::new()
        .add_module(Module::new("f", ModuleKind::Filter))
        .add_module(Module::new("env", ModuleKind::Envelope))
        .add_module(Module::new("out", ModuleKind::Output));
    let b = connect(b, "f", "env");
    let patch = connect(b, "env", "out").build().unwrap();
    assert!(matches!(PatchValidator::validate(&patch), Err(ValidationError::NoSoundSource)));
}

#[test]
fn sound_source_rule_comes_after_cycles() {
    // A cycle and no oscillator: the cycle is reported.
    let b = PatchBuilder::new()
        .add_module(Module::new("f", ModuleKind::Filter))
        .add_module(Module::new("out", ModuleKind::Output));
    let patch = connect(b, "f", "f").build().unwrap();
    assert!(matches!(PatchValidator::validate(&patch), Err(ValidationError::CycleDetected)));
    // An oscillator anywhere in the module list is enough.
    let patch = PatchBuilder::new()
        .add_module(Module::new("out", ModuleKind::Output))
        .add_module(Module::new("mix", ModuleKind::Mixer))
        .add_module(Module::new("osc", ModuleKind::Oscillator))
        .build()
        .unwrap();
    assert!(PatchValidator::validate(&patch).is_ok());
}

#[test]
fn validation_messages() {
    assert_eq!(
        ValidationError::NoOutputModule.message(),
        "Patch must have exactly one output module"
    );
    assert_eq!(
        ValidationError::MultipleOutputModules.message(),
        "Patch cannot have multiple output modules"
    );
    assert_eq!(ValidationError::CycleDetected.message(), "Patch cannot contain cycles");
    assert_eq!(
        ValidationError::UnknownModule("zz".into()).message(),
        "Connection references unknown module 'zz'"
    );
    assert_eq!(
        ValidationError::NoSoundSource.message(),
        "Patch must contain at least one oscillator"
    );
}
