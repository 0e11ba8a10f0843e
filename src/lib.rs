pub mod accounts_store;
pub mod codec;
pub mod ingest_laws;
pub mod ledger;
pub mod periodic_tasks;
pub mod state;
