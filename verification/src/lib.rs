//! Reconciliation engine that keeps a datastore's view of projects in sync
//! with the manifest files that foundations publish. The library computes
//! content digests for change detection, diffs a fetched manifest against the
//! registered state, plans the minimal set of register/unregister calls, and
//! folds per-foundation outcomes into one aggregate result. The HTTP fetch,
//! YAML parsing and datastore calls themselves are outside collaborators.

pub mod digest;
pub mod encoding;
pub mod model;
pub mod reconcile;
pub mod run;
pub mod sensitivity;

pub use model::Foundation;
pub use model::Project;
pub use model::Repository;
