use fmusim_gui::{Fmi2Type, Fmi3Type, FmiVersion, InterfaceKind, VariableKind};

#[test]
fn fmi_version_labels() {
    assert_eq!(FmiVersion::V2.label(), "FMI 2.0");
    assert_eq!(FmiVersion::V3.label(), "FMI 3.0");
    assert_ne!(FmiVersion::V2.label(), FmiVersion::V3.label());
}

#[test]
fn interface_labels() {
    assert_eq!(InterfaceKind::CoSimulation.label(), "Co-Simulation");
    assert_eq!(
        InterfaceKind::ModelExchange.label(),
        "Model Exchange (not yet supported)"
    );
}

#[test]
fn plottable_kinds() {
    assert!(VariableKind::Float.plottable());
    assert!(VariableKind::Integer.plottable());
    assert!(VariableKind::Boolean.plottable());
    assert!(VariableKind::Enumeration.plottable());
    assert!(!VariableKind::String.plottable());
    assert!(!VariableKind::Binary.plottable());
}

#[test]
fn fmi3_types_map_to_kinds() {
    assert_eq!(VariableKind::from_fmi3(Fmi3Type::Float32), VariableKind::Float);
    assert_eq!(VariableKind::from_fmi3(Fmi3Type::Float64), VariableKind::Float);
    for t in [
        Fmi3Type::Int8,
        Fmi3Type::UInt8,
        Fmi3Type::Int16,
        Fmi3Type::UInt16,
        Fmi3Type::Int32,
        Fmi3Type::UInt32,
        Fmi3Type::Int64,
        Fmi3Type::UInt64,
    ] {
        assert_eq!(VariableKind::from_fmi3(t), VariableKind::Integer);
    }
    assert_eq!(VariableKind::from_fmi3(Fmi3Type::Boolean), VariableKind::Boolean);
    assert_eq!(VariableKind::from_fmi3(Fmi3Type::Enumeration), VariableKind::Enumeration);
    assert_eq!(VariableKind::from_fmi3(Fmi3Type::String), VariableKind::String);
    assert_eq!(VariableKind::from_fmi3(Fmi3Type::Binary), VariableKind::Binary);
    assert_eq!(VariableKind::from_fmi3(Fmi3Type::Clock), VariableKind::Float);
}

#[test]
fn fmi2_types_map_to_kinds() {
    assert_eq!(VariableKind::from_fmi2(Fmi2Type::Real), VariableKind::Float);
    assert_eq!(VariableKind::from_fmi2(Fmi2Type::Integer), VariableKind::Integer);
    assert_eq!(VariableKind::from_fmi2(Fmi2Type::Boolean), VariableKind::Boolean);
    assert_eq!(VariableKind::from_fmi2(Fmi2Type::Enumeration), VariableKind::Enumeration);
    assert_eq!(VariableKind::from_fmi2(Fmi2Type::String), VariableKind::String);
}
