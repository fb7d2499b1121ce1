//! A verified transaction mempool: the memory buffer that holds the transactions of a
//! blockchain node that wait to be executed.

pub mod block;
pub mod block_laws;
pub mod cache_lemmas;
pub mod caches;
pub mod clock;
pub mod config;
pub mod laws;
pub mod mempool;
pub mod metrics;
pub mod model;
pub mod plain_block_laws;
pub mod plain_cache_laws;
pub mod plain_laws;
pub mod plain_store_laws;
pub mod plain_text_laws;
pub mod pool;
pub mod pool_lemmas;
pub mod queue_laws;
pub mod status;
pub mod store;
pub mod types;
