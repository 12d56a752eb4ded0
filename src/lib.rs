//! A live process-table viewer's data pipeline: snapshot normalisation,
//! text filtering, stable multi-key sorting, pagination, and the refresh
//! controller that arbitrates timer ticks and manual refreshes.
pub mod paging;
pub mod record;
pub mod text;
pub mod filter;
pub mod sort;
pub mod controller;
