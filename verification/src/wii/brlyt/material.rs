//! The materials of a layout.

use vstd::prelude::*;

verus! {

/// When a pixel passes the comparison of its alpha value.
#[derive(Debug, Clone, Copy, PartialEq, Eq, Structural)]
pub enum AlphaComparisonCondition {
    NeverPass,
    LessThan,
    LessThanOrEqual,
    Equal,
    NotEqual,
    GratherThanOrEqual,
    GratherThan,
    AlwaysPass,
}

/// How the two comparisons of an alpha value are joined.
#[derive(Debug, Clone, Copy, PartialEq, Eq, Structural)]
pub enum AlphaComparisonOperation {
    AND,
    OR,
    XOR,
    NOR,
}

/// The number that stands for a condition.
pub open spec fn condition_number(c: AlphaComparisonCondition) -> u8 {
    match c {
        AlphaComparisonCondition::NeverPass => 0,
        AlphaComparisonCondition::LessThan => 1,
        AlphaComparisonCondition::LessThanOrEqual => 2,
        AlphaComparisonCondition::Equal => 3,
        AlphaComparisonCondition::NotEqual => 4,
        AlphaComparisonCondition::GratherThanOrEqual => 5,
        AlphaComparisonCondition::GratherThan => 6,
        AlphaComparisonCondition::AlwaysPass => 7,
    }
}

/// The number that stands for an operation.
pub open spec fn operation_number(o: AlphaComparisonOperation) -> u8 {
    match o {
        AlphaComparisonOperation::AND => 0,
        AlphaComparisonOperation::OR => 1,
        AlphaComparisonOperation::XOR => 2,
        AlphaComparisonOperation::NOR => 3,
    }
}

impl AlphaComparisonCondition {
    /// The number that stands for the condition.
    pub fn number(self) -> (r: u8)
        ensures
            r == condition_number(self),
    {
        match self {
            AlphaComparisonCondition::NeverPass => 0,
            AlphaComparisonCondition::LessThan => 1,
            AlphaComparisonCondition::LessThanOrEqual => 2,
            AlphaComparisonCondition::Equal => 3,
            AlphaComparisonCondition::NotEqual => 4,
            AlphaComparisonCondition::GratherThanOrEqual => 5,
            AlphaComparisonCondition::GratherThan => 6,
            AlphaComparisonCondition::AlwaysPass => 7,
        }
    }
}

impl AlphaComparisonOperation {
    /// The number that stands for the operation.
    pub fn number(self) -> (r: u8)
        ensures
            r == operation_number(self),
    {
        match self {
            AlphaComparisonOperation::AND => 0,
            AlphaComparisonOperation::OR => 1,
            AlphaComparisonOperation::XOR => 2,
            AlphaComparisonOperation::NOR => 3,
        }
    }
}

/// The comparison that decides whether a pixel is drawn.
#[derive(Debug, Clone, Copy, PartialEq, Eq, Structural)]
pub struct AlphaComparison {
    pub condition: u8,
    pub operation: AlphaComparisonOperation,
    pub value_0: u8,
    pub value_1: u8,
}

/// Where colour and alpha come from.
#[derive(Debug, Clone, Copy, PartialEq, Eq, Structural)]
pub struct ChannelControl {
    pub color_source: u8,
    pub alpha_source: u8,
}

/// One material.
pub struct Material {
    pub name: String,
    pub fore_color: [u16; 4],
    pub back_color: [u16; 4],
    pub color_register_3: [u16; 4],
    pub tev_color_1: [u8; 4],
    pub tev_color_2: [u8; 4],
    pub tev_color_3: [u8; 4],
    pub tev_color_4: [u8; 4],
    pub material_color: Option<[u16; 4]>,
    pub channel_control: Option<ChannelControl>,
    pub alpha_comparision: Option<AlphaComparison>,
}

/// The materials of a layout.
pub struct MaterialSection(pub Vec<Material>);

} // verus!
