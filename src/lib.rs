//! Reader, writer and processing toolkit for SP3 precise orbit files.
//!
//! Values are kept as fixed-point integers with the resolution of the text
//! format: positions in millimetres, velocities in 10⁻⁷ m/s, clocks in
//! picoseconds and clock drifts in 10⁻¹⁶ s/s. Reading and writing are exact.
pub mod algebra;
pub mod dynamics;
pub mod entry;
pub mod errors;
pub mod formatting;
pub mod header;
pub mod interpolation;
pub mod numeric;
pub mod parsing;
pub mod prediction;
pub mod production;
pub mod record;
pub mod timeshift;
pub mod types;

pub use entry::SP3Entry;
pub use errors::{FormattingError, MergeError, ParsingError, PredictionError, TimeCorrectionError};
pub use header::Header;
pub use production::{Availability, Campaign, ProductionAttributes, ReleaseDate, ReleasePeriod};
pub use record::{SP3Key, SP3};
pub use types::{Constellation, DataType, Epoch, OrbitType, TimeScale, Version, SV};
