pub mod common;
pub mod flatten;
pub mod globs;
pub mod marker;
pub mod materialize;
pub mod reporter;
pub mod resolver;
pub mod strutil;
pub mod uri;

pub use common::Author;
pub use common::Change;
pub use common::Commit;
pub use common::CommitStatusResponce;
pub use common::MergeRequest;
pub use common::MergeRequestChanges;
pub use common::Metadata;
pub use common::Project;
pub use common::Source;
pub use common::Version;
