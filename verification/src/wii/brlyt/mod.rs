//! The sections of a screen layout.

pub mod font;
pub mod layout;
pub mod material;
pub mod user_data;
pub mod user_data_round_trip;

pub use font::FontSection;
pub use layout::LayoutSection;
pub use user_data::{UserDataEntry, UserDataSection};
pub use material::{AlphaComparison, AlphaComparisonCondition, AlphaComparisonOperation, ChannelControl, Material, MaterialSection};
