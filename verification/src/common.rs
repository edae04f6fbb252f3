use vstd::prelude::*;

verus! {

/// One free-form descriptive pair emitted alongside a version for the build
/// log. The emission order of a metadata list is significant.
pub struct Metadata {
    pub name: String,
    pub value: String,
}

/// The host's answer to a posted commit status.
pub struct CommitStatusResponce {
    pub status: String,
}

/// A commit record fetched from the host; carries the authoritative commit
/// time used to order versions.
pub struct Commit {
    pub committed_date: String,
}

/// A project record fetched from the host; carries the clone URLs.
pub struct Project {
    pub http_url_to_repo: String,
    pub ssh_url_to_repo: String,
}

/// The author of a change request.
pub struct Author {
    pub name: String,
}

/// One changed file path within a change request's change-set.
pub struct Change {
    pub new_path: String,
}

/// The change-set of a change request: the ordered list of its changed
/// file paths.
pub struct MergeRequestChanges {
    pub changes: Vec<Change>,
}

/// An open change request as the host reports it.
pub struct MergeRequest {
    pub iid: u64,
    pub title: String,
    pub labels: Vec<String>,
    pub sha: String,
    pub author: Author,
    pub updated_at: String,
    pub source_project_id: u64,
    pub source_branch: String,
    pub web_url: String,
}

/// One change request's head commit: the unit of change tracked between
/// invocations. A version is a value type: two versions with equal fields
/// are equal.
#[derive(Debug)]
pub struct Version {
    pub iid: String,
    pub committed_date: String,
    pub sha: String,
}

impl Version {
    /// Field-for-field equality, the value semantics of a version.
    pub open spec fn same(self, other: Version) -> bool {
        self.iid@ == other.iid@
            && self.committed_date@ == other.committed_date@
            && self.sha@ == other.sha@
    }

    /// An explicit copy; a version has no identity beyond its fields.
    pub fn duplicate(&self) -> (r: Version)
        ensures
            r.same(*self),
    {
        Version {
            iid: self.iid.clone(),
            committed_date: self.committed_date.clone(),
            sha: self.sha.clone(),
        }
    }
}

impl PartialEq for Version {
    fn eq(&self, other: &Version) -> (r: bool) {
        self.iid == other.iid
            && self.committed_date == other.committed_date
            && self.sha == other.sha
    }
}

impl vstd::std_specs::cmp::PartialEqSpecImpl for Version {
    open spec fn obeys_eq_spec() -> bool {
        true
    }

    open spec fn eq_spec(&self, other: &Version) -> bool {
        self.same(*other)
    }
}

impl Eq for Version {}

/// The source configuration, supplied once per invocation.
pub struct Source {
    pub uri: String,
    pub private_token: String,
    pub labels: Option<Vec<String>>,
    pub paths: Option<Vec<String>>,
    pub skip_draft: Option<bool>,
}

} // verus!
