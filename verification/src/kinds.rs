use vstd::prelude::*;

verus! {

/// Major version of the FMI standard that an FMU implements.
#[derive(Clone, Copy, Debug, PartialEq, Eq, Structural)]
pub enum FmiVersion {
    V2,
    V3,
}

impl FmiVersion {
    /// The text shown for this version.
    pub open spec fn spec_label(self) -> Seq<char> {
        match self {
            FmiVersion::V2 => "FMI 2.0"@,
            FmiVersion::V3 => "FMI 3.0"@,
        }
    }

    pub fn label(self) -> (r: &'static str)
        ensures
            r@ == self.spec_label(),
    {
        match self {
            FmiVersion::V2 => "FMI 2.0",
            FmiVersion::V3 => "FMI 3.0",
        }
    }
}

/// The kind of value that a model variable carries.
#[derive(Clone, Copy, Debug, PartialEq, Eq, Structural)]
pub enum VariableKind {
    Float,
    Integer,
    Boolean,
    Enumeration,
    String,
    Binary,
}

impl VariableKind {
    /// Whether values of this kind can be drawn as a numeric series.
    pub open spec fn spec_plottable(self) -> bool {
        !(self is String || self is Binary)
    }

    pub fn plottable(&self) -> (r: bool)
        ensures
            r == self.spec_plottable(),
    {
        match self {
            VariableKind::String | VariableKind::Binary => false,
            _ => true,
        }
    }

    /// The kind of an FMI 3 variable, given the type it is declared with.
    pub open spec fn spec_from_fmi3(t: Fmi3Type) -> VariableKind {
        match t {
            Fmi3Type::Float32 | Fmi3Type::Float64 => VariableKind::Float,
            Fmi3Type::Int8 | Fmi3Type::UInt8 | Fmi3Type::Int16 | Fmi3Type::UInt16
            | Fmi3Type::Int32 | Fmi3Type::UInt32 | Fmi3Type::Int64
            | Fmi3Type::UInt64 => VariableKind::Integer,
            Fmi3Type::Boolean => VariableKind::Boolean,
            Fmi3Type::Enumeration => VariableKind::Enumeration,
            Fmi3Type::String => VariableKind::String,
            Fmi3Type::Binary => VariableKind::Binary,
            Fmi3Type::Clock => VariableKind::Float,
        }
    }

    pub fn from_fmi3(t: Fmi3Type) -> (r: VariableKind)
        ensures
            r == Self::spec_from_fmi3(t),
    {
        match t {
            Fmi3Type::Float32 | Fmi3Type::Float64 => VariableKind::Float,
            Fmi3Type::Int8 | Fmi3Type::UInt8 | Fmi3Type::Int16 | Fmi3Type::UInt16
            | Fmi3Type::Int32 | Fmi3Type::UInt32 | Fmi3Type::Int64
            | Fmi3Type::UInt64 => VariableKind::Integer,
            Fmi3Type::Boolean => VariableKind::Boolean,
            Fmi3Type::Enumeration => VariableKind::Enumeration,
            Fmi3Type::String => VariableKind::String,
            Fmi3Type::Binary => VariableKind::Binary,
            Fmi3Type::Clock => VariableKind::Float,
        }
    }

    /// The kind of an FMI 2 variable, given the type it is declared with.
    pub open spec fn spec_from_fmi2(t: Fmi2Type) -> VariableKind {
        match t {
            Fmi2Type::Real => VariableKind::Float,
            Fmi2Type::Integer => VariableKind::Integer,
            Fmi2Type::Boolean => VariableKind::Boolean,
            Fmi2Type::Enumeration => VariableKind::Enumeration,
            Fmi2Type::String => VariableKind::String,
        }
    }

    pub fn from_fmi2(t: Fmi2Type) -> (r: VariableKind)
        ensures
            r == Self::spec_from_fmi2(t),
    {
        match t {
            Fmi2Type::Real => VariableKind::Float,
            Fmi2Type::Integer => VariableKind::Integer,
            Fmi2Type::Boolean => VariableKind::Boolean,
            Fmi2Type::Enumeration => VariableKind::Enumeration,
            Fmi2Type::String => VariableKind::String,
        }
    }
}

/// The type a variable is declared with in an FMI 3 model description.
#[derive(Clone, Copy, Debug, PartialEq, Eq, Structural)]
pub enum Fmi3Type {
    Float32,
    Float64,
    Int8,
    UInt8,
    Int16,
    UInt16,
    Int32,
    UInt32,
    Int64,
    UInt64,
    Boolean,
    String,
    Binary,
    Enumeration,
    Clock,
}

/// The type a variable is declared with in an FMI 2 model description.
#[derive(Clone, Copy, Debug, PartialEq, Eq, Structural)]
pub enum Fmi2Type {
    Real,
    Integer,
    Boolean,
    Enumeration,
    String,
}

/// The FMI interface through which a model is simulated.
#[derive(Clone, Copy, Debug, PartialEq, Eq, Structural)]
pub enum InterfaceKind {
    CoSimulation,
    ModelExchange,
}

impl InterfaceKind {
    /// The text shown for this interface.
    pub open spec fn spec_label(self) -> Seq<char> {
        match self {
            InterfaceKind::CoSimulation => "Co-Simulation"@,
            InterfaceKind::ModelExchange => "Model Exchange (not yet supported)"@,
        }
    }

    pub fn label(self) -> (r: &'static str)
        ensures
            r@ == self.spec_label(),
    {
        match self {
            InterfaceKind::CoSimulation => "Co-Simulation",
            InterfaceKind::ModelExchange => "Model Exchange (not yet supported)",
        }
    }
}

/// Two different versions are never shown with the same text.
pub proof fn lemma_fmi_version_labels_distinct(a: FmiVersion, b: FmiVersion)
    requires
        a != b,
    ensures
        a.spec_label() != b.spec_label(),
{
    reveal_strlit("FMI 2.0");
    reveal_strlit("FMI 3.0");
    assert(a.spec_label()[4] != b.spec_label()[4]);
}

/// Two different interfaces are never shown with the same text.
pub proof fn lemma_interface_labels_distinct(a: InterfaceKind, b: InterfaceKind)
    requires
        a != b,
    ensures
        a.spec_label() != b.spec_label(),
{
    reveal_strlit("Co-Simulation");
    reveal_strlit("Model Exchange (not yet supported)");
    assert(a.spec_label()[0] != b.spec_label()[0]);
}

} // verus!
