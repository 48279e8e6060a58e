//! The parsed document tree handed to the constructors: scalars carry their
//! text and presentation style, sequences and mappings carry their children
//! in document order.
use vstd::prelude::*;

verus! {

/// How a scalar was written in the document.
#[derive(Clone, Copy, Debug, PartialEq, Eq, Structural)]
pub enum YamlScalarStyle {
    YamlAnyScalarStyle,
    YamlPlainScalarStyle,
    YamlSingleQuotedScalarStyle,
    YamlDoubleQuotedScalarStyle,
    YamlLiteralScalarStyle,
    YamlFoldedScalarStyle,
}

/// A scalar: its text exactly as the parser delivered it, and its style.
#[derive(Clone, Debug)]
pub struct YamlScalarData {
    pub value: String,
    pub style: YamlScalarStyle,
}

/// A sequence: its items in document order.
#[derive(Debug)]
pub struct YamlSequenceData {
    pub values: Vec<YamlNode>,
}

/// A mapping: its (key, value) pairs in document order.
#[derive(Debug)]
pub struct YamlMappingData {
    pub pairs: Vec<(YamlNode, YamlNode)>,
}

/// One element of a parsed document.
#[derive(Debug)]
pub enum YamlNode {
    YamlScalarNode(YamlScalarData),
    YamlSequenceNode(YamlSequenceData),
    YamlMappingNode(YamlMappingData),
}

impl YamlScalarData {
    pub fn new(value: String, style: YamlScalarStyle) -> (r: YamlScalarData)
        ensures
            r.value@ == value@,
            r.style == style,
    {
        YamlScalarData { value, style }
    }
}

impl YamlSequenceData {
    pub fn new(values: Vec<YamlNode>) -> (r: YamlSequenceData)
        ensures
            r.values@ == values@,
    {
        YamlSequenceData { values }
    }
}

impl YamlMappingData {
    pub fn new(pairs: Vec<(YamlNode, YamlNode)>) -> (r: YamlMappingData)
        ensures
            r.pairs@ == pairs@,
    {
        YamlMappingData { pairs }
    }
}

} // verus!
