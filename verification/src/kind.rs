//! Element types and devices of tensors.
use vstd::prelude::*;

verus! {

/// The type of a tensor's elements.
#[derive(Debug, Clone, Copy, PartialEq, Eq, Structural)]
pub enum Kind {
    Uint8,
    Int8,
    Int16,
    Int,
    Int64,
    Half,
    Float,
    Double,
    ComplexHalf,
    ComplexFloat,
    ComplexDouble,
    Bool,
    QInt8,
    QUInt8,
    QInt32,
    BFloat16,
    Float8e5m2,
    Float8e4m3fn,
    Float8e5m2fnuz,
    Float8e4m3fnuz,
}

impl Kind {
    /// The name of the element type.
    pub open spec fn form(self) -> Seq<char> {
        match self {
            Kind::Uint8 => "Uint8"@,
            Kind::Int8 => "Int8"@,
            Kind::Int16 => "Int16"@,
            Kind::Int => "Int"@,
            Kind::Int64 => "Int64"@,
            Kind::Half => "Half"@,
            Kind::Float => "Float"@,
            Kind::Double => "Double"@,
            Kind::ComplexHalf => "ComplexHalf"@,
            Kind::ComplexFloat => "ComplexFloat"@,
            Kind::ComplexDouble => "ComplexDouble"@,
            Kind::Bool => "Bool"@,
            Kind::QInt8 => "QInt8"@,
            Kind::QUInt8 => "QUInt8"@,
            Kind::QInt32 => "QInt32"@,
            Kind::BFloat16 => "BFloat16"@,
            Kind::Float8e5m2 => "Float8e5m2"@,
            Kind::Float8e4m3fn => "Float8e4m3fn"@,
            Kind::Float8e5m2fnuz => "Float8e5m2fnuz"@,
            Kind::Float8e4m3fnuz => "Float8e4m3fnuz"@,
        }
    }

    /// The name of the element type.
    pub fn text(self) -> (r: &'static str)
        ensures
            r@ == self.form(),
    {
        match self {
            Kind::Uint8 => "Uint8",
            Kind::Int8 => "Int8",
            Kind::Int16 => "Int16",
            Kind::Int => "Int",
            Kind::Int64 => "Int64",
            Kind::Half => "Half",
            Kind::Float => "Float",
            Kind::Double => "Double",
            Kind::ComplexHalf => "ComplexHalf",
            Kind::ComplexFloat => "ComplexFloat",
            Kind::ComplexDouble => "ComplexDouble",
            Kind::Bool => "Bool",
            Kind::QInt8 => "QInt8",
            Kind::QUInt8 => "QUInt8",
            Kind::QInt32 => "QInt32",
            Kind::BFloat16 => "BFloat16",
            Kind::Float8e5m2 => "Float8e5m2",
            Kind::Float8e4m3fn => "Float8e4m3fn",
            Kind::Float8e5m2fnuz => "Float8e5m2fnuz",
            Kind::Float8e4m3fnuz => "Float8e4m3fnuz",
        }
    }

    /// The number of bytes of an element.
    pub open spec fn width(self) -> int {
        match self {
            Kind::Uint8 | Kind::Int8 | Kind::Bool | Kind::QInt8 | Kind::QUInt8 => 1,
            Kind::Float8e5m2 | Kind::Float8e4m3fn | Kind::Float8e5m2fnuz | Kind::Float8e4m3fnuz => 1,
            Kind::Int16 | Kind::Half | Kind::BFloat16 => 2,
            Kind::Int | Kind::Float | Kind::ComplexHalf | Kind::QInt32 => 4,
            Kind::Int64 | Kind::Double | Kind::ComplexFloat => 8,
            Kind::ComplexDouble => 16,
        }
    }

    /// The number of bytes of an element.
    pub fn bytes(self) -> (r: usize)
        ensures
            r == self.width(),
            1 <= r <= 16,
    {
        match self {
            Kind::Uint8 | Kind::Int8 | Kind::Bool | Kind::QInt8 | Kind::QUInt8 => 1,
            Kind::Float8e5m2 | Kind::Float8e4m3fn | Kind::Float8e5m2fnuz | Kind::Float8e4m3fnuz => 1,
            Kind::Int16 | Kind::Half | Kind::BFloat16 => 2,
            Kind::Int | Kind::Float | Kind::ComplexHalf | Kind::QInt32 => 4,
            Kind::Int64 | Kind::Double | Kind::ComplexFloat => 8,
            Kind::ComplexDouble => 16,
        }
    }

    /// Real floating-point element types that computations accept.
    pub open spec fn real_valued(self) -> bool {
        self is Float || self is Double || self is Half || self is BFloat16
    }

    /// Whether elements are real floating-point numbers of a supported width.
    pub fn is_real(self) -> (r: bool)
        ensures
            r == self.real_valued(),
    {
        matches!(self, Kind::Float | Kind::Double | Kind::Half | Kind::BFloat16)
    }
}

/// Where a tensor is stored.
#[derive(Debug, Clone, Copy, PartialEq, Eq, Structural)]
pub enum Device {
    Cpu,
    Cuda(usize),
    Mps,
    Vulkan,
}

/// A request for a device, resolved when a model is built.
#[derive(Debug, Clone, Copy, PartialEq, Eq, Structural)]
pub enum DeviceSpec {
    /// An available accelerator, else the processor.
    Auto,
    Cpu,
    Cuda(usize),
    Mps,
}

impl DeviceSpec {
    /// The debug form of the request.
    pub open spec fn form(self) -> Seq<char> {
        match self {
            DeviceSpec::Auto => "Auto"@,
            DeviceSpec::Cpu => "Cpu"@,
            DeviceSpec::Cuda(index) => "Cuda("@ + crate::text::decimal(index as int) + ")"@,
            DeviceSpec::Mps => "Mps"@,
        }
    }

    /// The debug form of the request.
    pub fn text(self) -> (r: String)
        ensures
            r@ == self.form(),
    {
        match self {
            DeviceSpec::Auto => crate::text::owned("Auto"),
            DeviceSpec::Cpu => crate::text::owned("Cpu"),
            DeviceSpec::Cuda(index) => {
                let number = crate::text::natural_text(index as u64);
                crate::text::join3("Cuda(", number.as_str(), ")")
            },
            DeviceSpec::Mps => crate::text::owned("Mps"),
        }
    }
}

} // verus!
