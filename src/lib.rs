//! Keyed, date-indexed daily counter series and the pipelines built on
//! them: series algebra, lazy views, the publication-diff builder and a
//! line-protocol encoder.

pub mod calendar;
pub mod decimal;
pub mod context;
pub mod records;
pub mod series;
pub mod series_laws;
pub mod views;
pub mod counters;
pub mod diffbuild;
pub mod diff_laws;
pub mod lineproto;
pub mod stream;
pub mod influx;
pub mod progress;
pub mod districts;
pub mod raw;
