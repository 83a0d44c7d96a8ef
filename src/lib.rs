//! A durable local store for RPKI publication points.
//!
//! The store keeps the last copy of each publication point that was found
//! to be correctly published: the manifest, its CRL and every object listed
//! on it, in one file per point. The modules here hold the verified core of
//! that store: the binary record format, the read cursor and staged update
//! of a point, the derivation of paths from URIs, and the retention rules of
//! the cleanup and export sweeps. Performing the actual file operations is
//! left to the caller.

mod cleanup;
mod digest;
mod dump;
mod error;
mod point;
mod record;
mod store;
mod sweep;
mod uri;

pub use cleanup::{
    retain_rrdp_point, retain_rsync_point, retain_ta, retain_ta_expiry, CleanupAction, CleanupEvent,
    CleanupPhase, CleanupRun,
};
pub use dump::{mirror_path_of, plan_point_dump, DumpRegistry, DumpWrite};
pub use error::{Failed, UpdateError};
pub use point::{Staging, StoredPoint, UpdateStep};
pub use record::{DecodeError, ManifestHash, StoredManifest, StoredObject, ValidationError};
pub use store::{
    tmp_next, CaCert, Config, CreateOutcome, Metrics, Repository, Run, Store, TalUri, TmpAction,
    TMP_FILE_ATTEMPTS,
};
pub use sweep::{DirEntry, EntryKind, Sweep, SweepAction, SweepEvent};
pub use uri::{HttpsUri, RsyncUri};
