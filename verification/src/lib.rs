//! A lazy bar-chart series: aggregates (category, stacked items) data and
//! emits one axis-aligned rectangle per pull, with per-orientation margins.

pub mod laws;
pub mod rect;
pub mod series;
pub mod style;

pub use rect::Rectangle;
pub use series::BarSeries;
pub use series::BarSeriesType;
pub use series::Horizontal;
pub use series::Vertical;
pub use style::ShapeStyle;
