//! Daily cloud-cost report: decimal amounts, cost ranking, dual-currency
//! formatting, billing windows and the report text, all with verified contracts.

pub mod amount;
pub mod ranking;
pub mod text;
pub mod format;
pub mod billing;
pub mod report;
pub mod calendar;
