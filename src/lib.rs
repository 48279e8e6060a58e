//! Construction of typed values from a parsed YAML node tree, with the core
//! schema's implicit typing of plain scalars.
use vstd::prelude::*;

pub mod constructor;
pub mod data;
pub mod node;
pub mod scalar;

pub use constructor::{YamlConstructor, YamlStandardConstructor};
pub use data::{YamlError, YamlFloatValue, YamlStandardData};
pub use node::{YamlMappingData, YamlNode, YamlScalarData, YamlScalarStyle, YamlSequenceData};
pub use scalar::resolve_scalar;

verus! {

} // verus!
