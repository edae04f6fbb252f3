use crate::common::MergeRequest;
use crate::common::Metadata;
use crate::common::Source;
use crate::common::Version;
use vstd::prelude::*;
use vstd::string::StringExecFns;

verus! {

/// Optional parameters of one materializer invocation.
pub struct Params {
    pub skip_clone: Option<bool>,
}

impl Params {
    /// The clone step is skipped only when the flag is present and true.
    pub fn is_clone_skippable(&self) -> (r: bool)
        ensures
            r == (self.skip_clone == Option::Some(true)),
    {
        match self.skip_clone {
            Option::Some(b) => b,
            Option::None => false,
        }
    }
}

/// One invocation's input document: the source configuration, the version
/// under work, and the optional parameters.
pub struct ResourceInput {
    pub version: Option<Version>,
    pub source: Source,
    pub params: Option<Params>,
}

/// Whether an input asks to skip the clone step: only an explicit true does.
pub open spec fn clone_skippable(input: ResourceInput) -> bool {
    match input.params {
        Option::Some(p) => p.skip_clone == Option::Some(true),
        Option::None => false,
    }
}

impl ResourceInput {
    /// The clone step is skipped only when a parameter object is present
    /// and its flag is present and true; an absent parameter object, an
    /// absent flag, and an explicit false all keep the clone.
    pub fn is_clone_skippable(&self) -> (r: bool)
        ensures
            r == clone_skippable(*self),
    {
        match &self.params {
            Option::Some(p) => p.is_clone_skippable(),
            Option::None => false,
        }
    }
}

/// What one materializer invocation must do: whether to clone and hard-reset
/// to the version's revision, and what to persist and emit. The marker
/// carries the version whether or not the clone is skipped.
pub struct MaterializePlan {
    pub do_clone: bool,
    pub marker: Version,
    pub metadata: Vec<Metadata>,
}

/// The descriptive metadata the materializer emits, in its fixed order: the
/// change request's URL, author and title.
pub fn materialize_metadata(mr: &MergeRequest) -> (r: Vec<Metadata>)
    ensures
        r@.len() == 3,
        r@[0].name@ == "url"@ && r@[0].value@ == mr.web_url@,
        r@[1].name@ == "author"@ && r@[1].value@ == mr.author.name@,
        r@[2].name@ == "title"@ && r@[2].value@ == mr.title@,
{
    let mut r: Vec<Metadata> = Vec::new();
    r.push(Metadata { name: String::from_str("url"), value: mr.web_url.clone() });
    r.push(Metadata { name: String::from_str("author"), value: mr.author.name.clone() });
    r.push(Metadata { name: String::from_str("title"), value: mr.title.clone() });
    r
}

/// Law and plan in one: the clone and checkout happen exactly when the
/// input does not ask to skip them, and the marker carries the given
/// version either way, alongside the fixed url, author, title metadata.
pub fn plan_materialization(input: &ResourceInput, version: &Version, mr: &MergeRequest) -> (p:
    MaterializePlan)
    ensures
        p.do_clone == !clone_skippable(*input),
        p.marker.same(*version),
        p.metadata@.len() == 3,
        p.metadata@[0].name@ == "url"@ && p.metadata@[0].value@ == mr.web_url@,
        p.metadata@[1].name@ == "author"@ && p.metadata@[1].value@ == mr.author.name@,
        p.metadata@[2].name@ == "title"@ && p.metadata@[2].value@ == mr.title@,
{
    MaterializePlan {
        do_clone: !input.is_clone_skippable(),
        marker: version.duplicate(),
        metadata: materialize_metadata(mr),
    }
}

} // verus!
