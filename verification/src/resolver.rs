use crate::common::Commit;
use crate::common::MergeRequest;
use crate::common::MergeRequestChanges;
use crate::common::Version;
use crate::globs::all_valid_globs;
use crate::globs::any_change_matches;
use crate::globs::changes_match_patterns;
use crate::globs::first_invalid_pattern;
use crate::globs::is_valid_glob;
use crate::strutil::dec_str;
use crate::strutil::dec_val;
use crate::strutil::u64_to_string;
use vstd::prelude::*;
use vstd::string::StringExecFns;

verus! {

/// The instant a timestamp string denotes, as whole seconds and nanoseconds
/// since the epoch; nothing for a string that does not parse. Names the
/// outcome of chrono's relaxed RFC 3339 parse, which depends on the string
/// alone.
pub uninterp spec fn parsed_instant(s: Seq<char>) -> Option<(i64, u32)>;

/// Relies on chrono's `DateTime::<Utc>::from_str` (a relaxed RFC 3339
/// parse) together with `DateTime::timestamp` and
/// `DateTime::timestamp_subsec_nanos`, all functions of the string alone.
#[verifier::external_body]
fn parse_instant(s: &str) -> (r: Option<(i64, u32)>)
    ensures
        r == parsed_instant(s@),
{
    match <chrono::DateTime<chrono::Utc> as core::str::FromStr>::from_str(s) {
        Ok(dt) => Some((dt.timestamp(), dt.timestamp_subsec_nanos())),
        Err(_) => None,
    }
}

/// Strictly-after order on instants.
pub open spec fn instant_after(a: (i64, u32), b: (i64, u32)) -> bool {
    a.0 > b.0 || (a.0 == b.0 && a.1 > b.1)
}

/// The total order on versions: commit instant ascending, change-request id
/// as the tie-break.
pub open spec fn key_le(a: (int, int, int), b: (int, int, int)) -> bool {
    a.0 < b.0 || (a.0 == b.0 && (a.1 < b.1 || (a.1 == b.1 && a.2 <= b.2)))
}

/// The ordering key of a version: its commit instant and its numeric id.
pub open spec fn version_key(v: Version) -> (int, int, int) {
    let t = parsed_instant(v.committed_date@)->Some_0;
    (t.0 as int, t.1 as int, dec_val(v.iid@) as int)
}

/// Why an invocation fails before producing versions.
#[derive(Debug)]
pub enum ResolveError {
    /// A configured path pattern is not a valid shell glob.
    InvalidPattern { index: usize },
    /// Path patterns are configured but a candidate came without its
    /// change-set.
    MissingChangeSet,
    /// The prior version's commit timestamp does not parse.
    InvalidPriorDate,
    /// A candidate commit's timestamp does not parse.
    InvalidCommitDate { index: usize },
}

/// Checks the configured path patterns, a configuration error surfaced
/// before any further work: succeeds exactly when none is configured or all
/// compile, and otherwise reports the first invalid one.
pub fn validate_patterns(paths: &Option<Vec<String>>) -> (r: Result<(), ResolveError>)
    ensures
        match r {
            Result::Ok(()) => match *paths {
                Option::None => true,
                Option::Some(ps) => all_valid_globs(ps@),
            },
            Result::Err(e) => match e {
                ResolveError::InvalidPattern { index } => paths matches Option::Some(ps)
                    && index < ps@.len() && !is_valid_glob(ps@[index as int]@),
                _ => false,
            },
        },
{
    match paths {
        Option::None => Result::Ok(()),
        Option::Some(ps) => match first_invalid_pattern(ps) {
            Option::None => Result::Ok(()),
            Option::Some(i) => Result::Err(ResolveError::InvalidPattern { index: i }),
        },
    }
}

/// Decides path filtering for one candidate change request: with no
/// configured patterns every candidate is retained; otherwise it is
/// retained exactly when one of its changed paths matches one of the
/// patterns.
pub fn retain_candidate(paths: &Option<Vec<String>>, changes: &Option<MergeRequestChanges>) -> (r:
    Result<bool, ResolveError>)
    ensures
        match *paths {
            Option::None => r == Result::<bool, ResolveError>::Ok(true),
            Option::Some(ps) => match r {
                Result::Ok(keep) => all_valid_globs(ps@) && (changes matches Option::Some(cs)
                    && keep == any_change_matches(cs.changes@, ps@)),
                Result::Err(e) => match e {
                    ResolveError::InvalidPattern { index } => index < ps@.len()
                        && !is_valid_glob(ps@[index as int]@),
                    ResolveError::MissingChangeSet => all_valid_globs(ps@) && changes is None,
                    _ => false,
                },
            },
        },
{
    match paths {
        Option::None => Result::Ok(true),
        Option::Some(ps) => match first_invalid_pattern(ps) {
            Option::Some(i) => Result::Err(ResolveError::InvalidPattern { index: i }),
            Option::None => match changes {
                Option::None => Result::Err(ResolveError::MissingChangeSet),
                Option::Some(cs) => Result::Ok(changes_match_patterns(&cs.changes, ps)),
            },
        },
    }
}

/// Whether the cursor keeps a candidate: its commit instant parses, and
/// with a prior version it lies strictly after the prior instant.
pub open spec fn keeps(pt: Option<(i64, u32)>, c: Commit) -> bool {
    match parsed_instant(c.committed_date@) {
        Option::Some(t) => match pt {
            Option::Some(p) => instant_after(t, p),
            Option::None => true,
        },
        Option::None => false,
    }
}

/// Whether version `v` is the version emitted for survivor `i`: the
/// survivor is kept by the cursor, and the version carries its id, its
/// authoritative commit time, and its head revision.
pub open spec fn made_from(
    v: Version,
    survivors: Seq<(MergeRequest, Commit)>,
    i: int,
    pt: Option<(i64, u32)>,
) -> bool {
    &&& 0 <= i < survivors.len()
    &&& keeps(pt, survivors[i].1)
    &&& v.iid@ == dec_str(survivors[i].0.iid as nat)
    &&& v.committed_date@ == survivors[i].1.committed_date@
    &&& v.sha@ == survivors[i].0.sha@
}

/// The emitted versions arise from the kept survivors through an index map
/// `src`: one version per kept survivor, no survivor twice, every kept
/// survivor present, ordered by commit instant with id as tie-break.
pub open spec fn resolved_versions_via(
    survivors: Seq<(MergeRequest, Commit)>,
    pt: Option<(i64, u32)>,
    vs: Seq<Version>,
    src: Seq<int>,
) -> bool {
    &&& src.len() == vs.len()
    &&& forall|k: int| 0 <= k < vs.len() ==> made_from(vs[k], survivors, #[trigger] src[k], pt)
    &&& forall|k1: int, k2: int|
        0 <= k1 < k2 < vs.len() ==> #[trigger] src[k1] != #[trigger] src[k2]
    &&& forall|i: int|
        0 <= i < survivors.len() && keeps(pt, #[trigger] survivors[i].1) ==> src.contains(i)
    &&& forall|k1: int, k2: int|
        0 <= k1 < k2 < vs.len() ==> key_le(version_key(#[trigger] vs[k1]), version_key(
            #[trigger] vs[k2],
        ))
}

/// The emitted versions are exactly the kept survivors' versions, in the
/// version order.
pub open spec fn resolved_versions(
    survivors: Seq<(MergeRequest, Commit)>,
    pt: Option<(i64, u32)>,
    vs: Seq<Version>,
) -> bool {
    exists|src: Seq<int>| resolved_versions_via(survivors, pt, vs, src)
}

/// The instant of the prior version's commit timestamp, where one is given
/// and parses.
pub open spec fn prior_instant(prior: Option<Version>) -> Option<(i64, u32)> {
    match prior {
        Option::None => Option::None,
        Option::Some(p) => parsed_instant(p.committed_date@),
    }
}

/// Law: the version stream respects the cursor and the version order. With
/// distinct change-request ids among the survivors: no emitted version's
/// commit instant lies at or before the prior version's; the stream is
/// ascending in the version order and its versions carry pairwise distinct
/// ids, so no version appears twice; and a survivor set with nothing kept
/// yields an empty stream, not an error.
pub proof fn lemma_version_stream(
    survivors: Seq<(MergeRequest, Commit)>,
    pt: Option<(i64, u32)>,
    vs: Seq<Version>,
)
    requires
        resolved_versions(survivors, pt, vs),
        forall|i1: int, i2: int|
            0 <= i1 < i2 < survivors.len() ==> survivors[i1].0.iid != survivors[i2].0.iid,
    ensures
        forall|k: int|
            0 <= k < vs.len() ==> (pt matches Option::Some(p) ==> instant_after(
                parsed_instant(#[trigger] vs[k].committed_date@)->Some_0,
                p,
            )),
        forall|k1: int, k2: int|
            0 <= k1 < k2 < vs.len() ==> key_le(version_key(#[trigger] vs[k1]), version_key(
                #[trigger] vs[k2],
            )) && vs[k1].iid@ != vs[k2].iid@,
        (forall|i: int|
            0 <= i < survivors.len() ==> !keeps(pt, #[trigger] survivors[i].1)) ==> vs.len() == 0,
{
    let src = choose|src: Seq<int>| resolved_versions_via(survivors, pt, vs, src);
    assert forall|k: int|
        0 <= k < vs.len() implies (pt matches Option::Some(p) ==> instant_after(
        parsed_instant(#[trigger] vs[k].committed_date@)->Some_0,
        p,
    )) by {
        assert(made_from(vs[k], survivors, src[k], pt));
    }
    assert forall|k1: int, k2: int| 0 <= k1 < k2 < vs.len() implies key_le(
        version_key(#[trigger] vs[k1]),
        version_key(#[trigger] vs[k2]),
    ) && vs[k1].iid@ != vs[k2].iid@ by {
        assert(made_from(vs[k1], survivors, src[k1], pt));
        assert(made_from(vs[k2], survivors, src[k2], pt));
        let i1 = src[k1];
        let i2 = src[k2];
        assert(i1 != i2);
        assert(survivors[i1].0.iid != survivors[i2].0.iid);
        if vs[k1].iid@ == vs[k2].iid@ {
            crate::strutil::lemma_dec_str_injective(
                survivors[i1].0.iid as nat,
                survivors[i2].0.iid as nat,
            );
        }
    }
    if forall|i: int| 0 <= i < survivors.len() ==> !keeps(pt, #[trigger] survivors[i].1) {
        if vs.len() > 0 {
            assert(made_from(vs[0], survivors, src[0], pt));
            assert(keeps(pt, survivors[src[0]].1));
            assert(false);
        }
    }
}

fn key_le_exec(a: (i64, u32, u64), b: (i64, u32, u64)) -> (r: bool)
    ensures
        r == key_le((a.0 as int, a.1 as int, a.2 as int), (b.0 as int, b.1 as int, b.2 as int)),
{
    a.0 < b.0 || (a.0 == b.0 && (a.1 < b.1 || (a.1 == b.1 && a.2 <= b.2)))
}

/// Turns the surviving change requests, each paired with the commit record
/// of its head revision, into the version stream: one version per candidate
/// whose commit instant lies strictly after the prior version's (every
/// candidate, with no prior), ordered by commit instant ascending with the
/// change-request id as tie-break. An unparsable timestamp is fatal; an
/// empty survivor list yields an empty stream.
pub fn build_versions(survivors: &Vec<(MergeRequest, Commit)>, prior: &Option<Version>) -> (r:
    Result<Vec<Version>, ResolveError>)
    ensures
        ({
            let pt = prior_instant(*prior);
            match r {
                Result::Ok(vs) => {
                    &&& (prior matches Option::Some(p) ==> parsed_instant(p.committed_date@)
                        is Some)
                    &&& resolved_versions(survivors@, pt, vs@)
                },
                Result::Err(e) => match e {
                    ResolveError::InvalidPriorDate => prior matches Option::Some(p)
                        && parsed_instant(p.committed_date@) is None,
                    ResolveError::InvalidCommitDate { index } => {
                        &&& (prior matches Option::Some(p) ==> parsed_instant(p.committed_date@)
                            is Some)
                        &&& index < survivors@.len()
                        &&& parsed_instant(survivors@[index as int].1.committed_date@) is None
                    },
                    _ => false,
                },
            }
        }),
{
    let pt: Option<(i64, u32)> = match prior {
        Option::Some(p) => match parse_instant(p.committed_date.as_str()) {
            Option::Some(t) => Option::Some(t),
            Option::None => {
                return Result::Err(ResolveError::InvalidPriorDate);
            },
        },
        Option::None => Option::None,
    };
    let ghost gpt = prior_instant(*prior);
    assert(pt == gpt);
    let mut out: Vec<Version> = Vec::new();
    let mut keys: Vec<(i64, u32, u64)> = Vec::new();
    let ghost mut src: Seq<int> = Seq::empty();
    let mut i: usize = 0;
    while i < survivors.len()
        invariant
            0 <= i <= survivors@.len(),
            pt == gpt,
            gpt == prior_instant(*prior),
            prior matches Option::Some(p) ==> parsed_instant(p.committed_date@) is Some,
            keys@.len() == out@.len(),
            src.len() == out@.len(),
            forall|k: int| 0 <= k < src.len() ==> #[trigger] src[k] < i as int,
            forall|k: int|
                0 <= k < out@.len() ==> made_from(out@[k], survivors@, #[trigger] src[k], gpt),
            forall|k: int|
                0 <= k < out@.len() ==> (
                keys@[k].0 as int,
                keys@[k].1 as int,
                keys@[k].2 as int,
            ) == version_key(#[trigger] out@[k]),
            forall|k1: int, k2: int|
                0 <= k1 < k2 < out@.len() ==> #[trigger] src[k1] != #[trigger] src[k2],
            forall|j: int|
                0 <= j < i && keeps(gpt, #[trigger] survivors@[j].1) ==> src.contains(j),
            forall|k1: int, k2: int|
                0 <= k1 < k2 < out@.len() ==> key_le(
                    version_key(#[trigger] out@[k1]),
                    version_key(#[trigger] out@[k2]),
                ),
        decreases survivors@.len() - i,
    {
        let t = match parse_instant(survivors[i].1.committed_date.as_str()) {
            Option::Some(t) => t,
            Option::None => {
                return Result::Err(ResolveError::InvalidCommitDate { index: i });
            },
        };
        let keep = match pt {
            Option::Some(p) => t.0 > p.0 || (t.0 == p.0 && t.1 > p.1),
            Option::None => true,
        };
        assert(keep == keeps(gpt, survivors@[i as int].1));
        if keep {
            let iid = survivors[i].0.iid;
            let v = Version {
                iid: u64_to_string(iid),
                committed_date: survivors[i].1.committed_date.clone(),
                sha: survivors[i].0.sha.clone(),
            };
            let key = (t.0, t.1, iid);
            proof {
                crate::strutil::lemma_dec_str_val(iid as nat);
                assert(made_from(v, survivors@, i as int, gpt));
                assert((key.0 as int, key.1 as int, key.2 as int) == version_key(v));
            }
            let mut pos: usize = 0;
            loop
                invariant
                    0 <= pos <= keys@.len(),
                    keys@.len() == out@.len(),
                    (key.0 as int, key.1 as int, key.2 as int) == version_key(v),
                    forall|k: int|
                        0 <= k < out@.len() ==> (
                        keys@[k].0 as int,
                        keys@[k].1 as int,
                        keys@[k].2 as int,
                    ) == version_key(#[trigger] out@[k]),
                    forall|j: int|
                        0 <= j < pos ==> key_le(version_key(#[trigger] out@[j]), version_key(v)),
                ensures
                    0 <= pos <= keys@.len(),
                    forall|j: int|
                        0 <= j < pos ==> key_le(version_key(#[trigger] out@[j]), version_key(v)),
                    pos < keys@.len() ==> key_le(version_key(v), version_key(out@[pos as int])),
                decreases keys@.len() - pos,
            {
                if pos >= keys.len() {
                    break ;
                }
                if !key_le_exec(keys[pos], key) {
                    proof {
                        assert(!key_le(version_key(out@[pos as int]), version_key(v)));
                    }
                    break ;
                }
                pos = pos + 1;
            }
            let ghost old_out = out@;
            let ghost old_keys = keys@;
            let ghost old_src = src;
            out.insert(pos, v);
            keys.insert(pos, key);
            proof {
                src = src.insert(pos as int, i as int);
                old_out.insert_ensures(pos as int, v);
                old_keys.insert_ensures(pos as int, key);
                old_src.insert_ensures(pos as int, i as int);
                // each entry still arises from its recorded survivor
                assert forall|k: int| 0 <= k < out@.len() implies made_from(
                    out@[k],
                    survivors@,
                    #[trigger] src[k],
                    gpt,
                ) && src[k] < i + 1 && (keys@[k].0 as int, keys@[k].1 as int, keys@[k].2 as int)
                    == version_key(out@[k]) by {
                    if k < pos {
                        assert(out@[k] == old_out[k]);
                        assert(keys@[k] == old_keys[k]);
                        assert(src[k] == old_src[k]);
                    } else if k > pos {
                        assert(out@[k] == old_out[k - 1]);
                        assert(keys@[k] == old_keys[k - 1]);
                        assert(src[k] == old_src[k - 1]);
                    }
                }
                // every kept candidate so far is still represented
                assert forall|j: int|
                    0 <= j < i + 1 && keeps(gpt, #[trigger] survivors@[j].1) implies src.contains(
                    j,
                ) by {
                    if j == i {
                        assert(src[pos as int] == j);
                    } else {
                        let k0 = choose|k: int| 0 <= k < old_src.len() && old_src[k] == j;
                        if k0 < pos {
                            assert(src[k0] == j);
                        } else {
                            assert(src[k0 + 1] == j);
                        }
                    }
                }
                // the new entry is in order on both sides
                assert forall|k1: int, k2: int| 0 <= k1 < k2 < out@.len() implies key_le(
                    version_key(#[trigger] out@[k1]),
                    version_key(#[trigger] out@[k2]),
                ) by {
                    if k1 < pos && k2 == pos {
                        assert(out@[k1] == old_out[k1]);
                    } else if k1 == pos && k2 > pos {
                        assert(out@[k2] == old_out[k2 - 1]);
                        if pos < old_out.len() {
                            assert(key_le(version_key(v), version_key(old_out[pos as int])));
                            assert(key_le(
                                version_key(old_out[pos as int]),
                                version_key(old_out[k2 - 1]),
                            ) || pos == k2 - 1);
                        }
                    } else if k1 < pos && k2 > pos {
                        assert(out@[k1] == old_out[k1]);
                        assert(out@[k2] == old_out[k2 - 1]);
                    } else if k2 < pos {
                        assert(out@[k1] == old_out[k1]);
                        assert(out@[k2] == old_out[k2]);
                    } else if k1 > pos {
                        assert(out@[k1] == old_out[k1 - 1]);
                        assert(out@[k2] == old_out[k2 - 1]);
                    }
                }
                // sources stay pairwise distinct: the new one is fresh
                assert forall|k1: int, k2: int|
                    0 <= k1 < k2 < out@.len() implies #[trigger] src[k1] != #[trigger] src[k2] by {
                    if k1 == pos {
                        assert(src[k1] == i as int);
                        assert(src[k2] == old_src[k2 - 1]);
                    } else if k2 == pos {
                        assert(src[k1] == old_src[k1]);
                        assert(src[k2] == i as int);
                    } else {
                        let o1: int = if k1 < pos { k1 } else { k1 - 1 };
                        let o2: int = if k2 < pos { k2 } else { k2 - 1 };
                        assert(src[k1] == old_src[o1]);
                        assert(src[k2] == old_src[o2]);
                        assert(o1 < o2);
                    }
                }
            }
        }
        i = i + 1;
    }
    proof {
        assert(resolved_versions_via(survivors@, gpt, out@, src));
    }
    Result::Ok(out)
}

} // verus!
