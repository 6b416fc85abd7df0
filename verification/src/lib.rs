//! Registration-data lookup core: query classification, endpoint
//! construction, a TTL-keyed cache model, fetch retry policy, and bulk
//! fan-out bookkeeping, all with verified contracts.

pub mod classify;
pub mod endpoint;
pub mod cache;
pub mod fetch;
pub mod bulk;
pub mod present;
