//! The runtime core of an agent kernel: run specifications, the kernel that
//! executes them step by step under a shell, capability leases and child runs,
//! the event journal and its integrity checks, checkpoints, writer leases,
//! snapshots and schema migration.

pub mod text;
pub mod naming;
pub mod digest;
pub mod runspec;
pub mod capability;
pub mod transport;
pub mod shell;
pub mod scheduler;
pub mod eventbus;
pub mod eventlog;
pub mod runstore;
pub mod subrun;
pub mod kernel;
pub mod lease;
pub mod snapshot;
pub mod migration;
pub mod facade;
pub mod drivers;

pub use capability::{CapabilityContext, CapabilityDriver, CapabilityRegistry, StaticCapability};
pub use eventbus::{EventBus, InMemoryEventBus};
pub use eventlog::{
    EventJournal, JournalCompactionReport, JournalIntegrityReport, JournalRepairReport, JsonlEventLog,
    ReplaySummary, ValidationSummary,
};
pub use facade::{AllowWrap, WrapError, WrapHarness, WrapPolicy, WrapReport};
pub use kernel::{Kernel, KernelError, RunReport};
pub use lease::{FileRunLeaseStore, MemoryRunLeaseStore, RunLeaseStore, WriterLease};
pub use migration::{
    CheckpointMigrationContext, EventMigrationContext, MigrationOutcome, MigrationReport, MigrationStatus,
    validate_run_spec_version,
};
pub use runspec::{
    BudgetGroup, CapabilityLease, ChildRunResult, ChildRunSpec, Effect, EffectProposal, Event, EventKind,
    MergeMode, Message, RunNamespace, RunSpec, RunState, RunStatus, RunUsage, Step, StepAction,
};
pub use runstore::{CHECKPOINT_SCHEMA_VERSION, FileRunStore, MemoryRunStore, RunStore, RunStoreRecord};
pub use scheduler::{MockModelDriver, ModelDecision, ModelDriver, QueueScheduler, ReActScheduler, Scheduler};
pub use shell::{
    AuditShell, CompositeShell, MinimalPolicyEngine, PolicyEngine, PolicyMiddleware, Shell, ShellDecision,
    ShellMiddleware, TitlePolicyMiddleware,
};
pub use snapshot::{FileSnapshotArchive, SnapshotArchive, SnapshotMetadata, SnapshotRetentionReport};
pub use subrun::{LocalSubRunTransport, RemoteSubRunTransportMock, SubRunTransport};
pub use transport::{CapabilityTransport, LocalTransport, RemoteTransportMock};
