use crate::common::MergeRequest;
use crate::common::Metadata;
use vstd::prelude::*;
use vstd::string::StrSliceExecFns;
use vstd::string::StringExecFns;

verus! {

/// The five commit states the host accepts.
pub enum CommitState {
    Canceled,
    Running,
    Pending,
    Failed,
    Success,
}

/// Why reporting fails before any call to the host.
pub enum ReportError {
    /// The configured status string is none of the five accepted values.
    InvalidStatus,
}

/// Whether two strings hold the same characters.
pub fn str_eq(a: &str, b: &str) -> (r: bool)
    ensures
        r == (a@ == b@),
{
    let na = a.unicode_len();
    let nb = b.unicode_len();
    if na != nb {
        return false;
    }
    let mut i: usize = 0;
    while i < na
        invariant
            0 <= i <= na,
            na == a@.len(),
            na == b@.len(),
            forall|j: int| 0 <= j < i ==> a@[j] == b@[j],
        decreases na - i,
    {
        if a.get_char(i) != b.get_char(i) {
            return false;
        }
        i = i + 1;
    }
    proof {
        assert(a@ =~= b@);
    }
    true
}

/// Maps the configured status string to a commit state. Exactly the five
/// accepted values succeed; anything else is a fatal configuration error,
/// surfaced before any call to the host.
pub fn parse_status(s: &str) -> (r: Result<CommitState, ReportError>)
    ensures
        r == (if s@ == "canceled"@ {
            Result::<CommitState, ReportError>::Ok(CommitState::Canceled)
        } else if s@ == "running"@ {
            Result::<CommitState, ReportError>::Ok(CommitState::Running)
        } else if s@ == "pending"@ {
            Result::<CommitState, ReportError>::Ok(CommitState::Pending)
        } else if s@ == "failed"@ {
            Result::<CommitState, ReportError>::Ok(CommitState::Failed)
        } else if s@ == "success"@ {
            Result::<CommitState, ReportError>::Ok(CommitState::Success)
        } else {
            Result::<CommitState, ReportError>::Err(ReportError::InvalidStatus)
        }),
{
    if str_eq(s, "canceled") {
        Result::Ok(CommitState::Canceled)
    } else if str_eq(s, "running") {
        Result::Ok(CommitState::Running)
    } else if str_eq(s, "pending") {
        Result::Ok(CommitState::Pending)
    } else if str_eq(s, "failed") {
        Result::Ok(CommitState::Failed)
    } else if str_eq(s, "success") {
        Result::Ok(CommitState::Success)
    } else {
        Result::Err(ReportError::InvalidStatus)
    }
}

/// The target URL of a build: the external base URL, the build coordinates,
/// and the flattened instance-variable suffix behind `?` when there is one.
pub open spec fn target_url_text(
    base: Seq<char>,
    team: Seq<char>,
    pipeline: Seq<char>,
    job: Seq<char>,
    build: Seq<char>,
    vars: Option<Seq<char>>,
) -> Seq<char> {
    base + "/teams/"@ + team + "/pipelines/"@ + pipeline + "/jobs/"@ + job + "/builds/"@ + build
        + (match vars {
        Option::None => Seq::<char>::empty(),
        Option::Some(q) => "?"@ + q,
    })
}

/// Builds the target URL for a build from its coordinates and the flattened
/// instance variables, if any: an empty flattening yields no query suffix
/// at all.
pub fn build_target_url(
    base: &str,
    team: &str,
    pipeline: &str,
    job: &str,
    build: &str,
    vars: &Option<String>,
) -> (r: String)
    ensures
        r@ == target_url_text(
            base@,
            team@,
            pipeline@,
            job@,
            build@,
            match vars {
                Option::None => Option::None,
                Option::Some(q) => Option::Some(q@),
            },
        ),
{
    let mut r = String::new();
    r.append(base);
    r.append("/teams/");
    r.append(team);
    r.append("/pipelines/");
    r.append(pipeline);
    r.append("/jobs/");
    r.append(job);
    r.append("/builds/");
    r.append(build);
    match vars {
        Option::None => {},
        Option::Some(q) => {
            r.append("?");
            r.append(q.as_str());
        },
    }
    proof {
        assert(r@ =~= target_url_text(
            base@,
            team@,
            pipeline@,
            job@,
            build@,
            match vars {
                Option::None => Option::None,
                Option::Some(q) => Option::Some(q@),
            },
        ));
    }
    r
}

/// Every occurrence of `pat`, leftmost first, replaced by `to`; the
/// replacement itself is never rescanned.
pub open spec fn replace_all(s: Seq<char>, pat: Seq<char>, to: Seq<char>) -> Seq<char>
    decreases s.len(),
{
    if pat.len() == 0 || s.len() < pat.len() {
        s
    } else if s.take(pat.len() as int) == pat {
        to + replace_all(s.skip(pat.len() as int), pat, to)
    } else {
        seq![s[0]] + replace_all(s.drop_first(), pat, to)
    }
}

pub(crate) fn str_eq_at(s: &str, i: usize, pat: &str) -> (r: bool)
    requires
        i + pat@.len() <= s@.len(),
        s@.len() <= usize::MAX,
    ensures
        r == (s@.subrange(i as int, i + pat@.len()) == pat@),
{
    let m = pat.unicode_len();
    let mut j: usize = 0;
    while j < m
        invariant
            0 <= j <= m,
            m == pat@.len(),
            i + m <= s@.len(),
            s@.len() <= usize::MAX,
            forall|k: int| 0 <= k < j ==> s@[i + k] == pat@[k],
        decreases m - j,
    {
        if s.get_char(i + j) != pat.get_char(j) {
            proof {
                assert(s@.subrange(i as int, i + pat@.len())[j as int] != pat@[j as int]);
            }
            return false;
        }
        j = j + 1;
    }
    proof {
        assert(s@.subrange(i as int, i + pat@.len()) =~= pat@);
    }
    true
}

/// Replaces every occurrence of `pat` in `s`, leftmost first, with `to`.
pub fn replace_all_str(s: &str, pat: &str, to: &str) -> (r: String)
    requires
        pat@.len() > 0,
    ensures
        r@ == replace_all(s@, pat@, to@),
{
    let n = s.unicode_len();
    let m = pat.unicode_len();
    let mut out = String::new();
    let mut i: usize = 0;
    proof {
        assert(s@.skip(0) =~= s@);
        assert(Seq::<char>::empty() + replace_all(s@, pat@, to@) =~= replace_all(s@, pat@, to@));
    }
    while i < n
        invariant
            0 <= i <= n,
            n == s@.len(),
            m == pat@.len(),
            m > 0,
            replace_all(s@, pat@, to@) == out@ + replace_all(s@.skip(i as int), pat@, to@),
        decreases n - i,
    {
        let ghost pre = out@;
        if m <= n - i && str_eq_at(s, i, pat) {
            out.append(to);
            proof {
                let rest = s@.skip(i as int);
                assert(rest.take(m as int) =~= s@.subrange(i as int, i + m));
                assert(rest.skip(m as int) =~= s@.skip(i + m));
                assert(replace_all(rest, pat@, to@) == to@ + replace_all(
                    s@.skip(i + m),
                    pat@,
                    to@,
                ));
                assert(pre + (to@ + replace_all(s@.skip(i + m), pat@, to@)) =~= out@
                    + replace_all(s@.skip(i + m), pat@, to@));
            }
            i = i + m;
        } else {
            let c = s.get_char(i);
            out.push(c);
            proof {
                let rest = s@.skip(i as int);
                assert(rest.len() == n - i);
                if m <= n - i {
                    assert(rest.take(m as int) =~= s@.subrange(i as int, i + m));
                    assert(rest.take(m as int) != pat@);
                }
                assert(rest.drop_first() =~= s@.skip(i + 1));
                assert(rest[0] == s@[i as int]);
                if rest.len() < m {
                    assert(replace_all(rest, pat@, to@) == rest);
                    assert(rest =~= seq![s@[i as int]] + s@.skip(i + 1));
                    assert(replace_all(s@.skip(i + 1), pat@, to@) == s@.skip(i + 1));
                } else {
                    assert(replace_all(rest, pat@, to@) == seq![s@[i as int]] + replace_all(
                        s@.skip(i + 1),
                        pat@,
                        to@,
                    ));
                }
                assert(pre + (seq![s@[i as int]] + replace_all(s@.skip(i + 1), pat@, to@)) =~= out@
                    + replace_all(s@.skip(i + 1), pat@, to@));
            }
            i = i + 1;
        }
    }
    proof {
        assert(s@.skip(n as int) =~= Seq::<char>::empty());
        assert(replace_all(Seq::<char>::empty(), pat@, to@) == Seq::<char>::empty());
        assert(out@ + Seq::<char>::empty() =~= out@);
    }
    out
}

/// The rendered status name of a configured template: the four placeholders
/// substituted, in this order, by the pipeline, job and team names and the
/// instance-variable suffix.
pub open spec fn rendered_name(
    t: Seq<char>,
    pipeline: Seq<char>,
    job: Seq<char>,
    team: Seq<char>,
    vars: Seq<char>,
) -> Seq<char> {
    replace_all(
        replace_all(
            replace_all(replace_all(t, "%BUILD_PIPELINE_NAME%"@, pipeline), "%BUILD_JOB_NAME%"@, job),
            "%BUILD_TEAM_NAME%"@,
            team,
        ),
        "%BUILD_PIPELINE_INSTANCE_VARS%"@,
        vars,
    )
}

/// Resolves the status display name: a configured template with its four
/// placeholders substituted, or `team::pipeline` when none is configured.
pub fn render_status_name(
    template: &Option<String>,
    team: &str,
    pipeline: &str,
    job: &str,
    vars_suffix: &str,
) -> (r: String)
    ensures
        match template {
            Option::None => r@ == team@ + "::"@ + pipeline@,
            Option::Some(t) => r@ == rendered_name(t@, pipeline@, job@, team@, vars_suffix@),
        },
{
    match template {
        Option::None => {
            let mut r = String::new();
            r.append(team);
            r.append("::");
            r.append(pipeline);
            proof {
                assert(r@ =~= team@ + "::"@ + pipeline@);
            }
            r
        },
        Option::Some(t) => {
            proof {
                reveal_strlit("%BUILD_PIPELINE_NAME%");
                reveal_strlit("%BUILD_JOB_NAME%");
                reveal_strlit("%BUILD_TEAM_NAME%");
                reveal_strlit("%BUILD_PIPELINE_INSTANCE_VARS%");
            }
            let s1 = replace_all_str(t.as_str(), "%BUILD_PIPELINE_NAME%", pipeline);
            let s2 = replace_all_str(s1.as_str(), "%BUILD_JOB_NAME%", job);
            let s3 = replace_all_str(s2.as_str(), "%BUILD_TEAM_NAME%", team);
            replace_all_str(s3.as_str(), "%BUILD_PIPELINE_INSTANCE_VARS%", vars_suffix)
        },
    }
}

/// The descriptive metadata the reporter emits, in its fixed order: the
/// change request's URL, author and title, then the status the host
/// answered with.
pub fn report_metadata(mr: &MergeRequest, status: &String) -> (r: Vec<Metadata>)
    ensures
        r@.len() == 4,
        r@[0].name@ == "url"@ && r@[0].value@ == mr.web_url@,
        r@[1].name@ == "author"@ && r@[1].value@ == mr.author.name@,
        r@[2].name@ == "title"@ && r@[2].value@ == mr.title@,
        r@[3].name@ == "status"@ && r@[3].value@ == status@,
{
    let mut r: Vec<Metadata> = Vec::new();
    r.push(Metadata { name: String::from_str("url"), value: mr.web_url.clone() });
    r.push(Metadata { name: String::from_str("author"), value: mr.author.name.clone() });
    r.push(Metadata { name: String::from_str("title"), value: mr.title.clone() });
    r.push(Metadata { name: String::from_str("status"), value: status.clone() });
    r
}

/// Whether a string is free of the placeholder delimiter.
pub open spec fn no_pct(s: Seq<char>) -> bool {
    forall|i: int| 0 <= i < s.len() ==> s[i] != ('%')
}

/// A delimiter-free string holds no placeholder: replacing leaves it
/// unchanged.
pub proof fn lemma_replace_all_absent(s: Seq<char>, pat: Seq<char>, to: Seq<char>)
    requires
        pat.len() > 0,
        pat[0] == '%',
        no_pct(s),
    ensures
        replace_all(s, pat, to) == s,
    decreases s.len(),
{
    if s.len() >= pat.len() {
        if s.take(pat.len() as int) == pat {
            assert(s[0] == pat[0]);
            assert(false);
        }
        lemma_replace_all_absent(s.drop_first(), pat, to);
        assert(seq![s[0]] + s.drop_first() =~= s);
    }
}

/// Replacement walks over a delimiter-free prefix untouched.
pub proof fn lemma_replace_all_prefix(a: Seq<char>, b: Seq<char>, pat: Seq<char>, to: Seq<char>)
    requires
        pat.len() > 0,
        pat[0] == '%',
        no_pct(a),
    ensures
        replace_all(a + b, pat, to) == a + replace_all(b, pat, to),
    decreases a.len(),
{
    let s = a + b;
    if a.len() == 0 {
        assert(s =~= b);
        assert(a + replace_all(b, pat, to) =~= replace_all(b, pat, to));
    } else if s.len() < pat.len() {
        assert(b.len() < pat.len());
        assert(replace_all(b, pat, to) == b);
        assert(a + replace_all(b, pat, to) =~= s);
    } else {
        if s.take(pat.len() as int) == pat {
            assert(s[0] == pat[0]);
            assert(false);
        }
        assert(s.drop_first() =~= a.drop_first() + b);
        lemma_replace_all_prefix(a.drop_first(), b, pat, to);
        assert(seq![s[0]] + (a.drop_first() + replace_all(b, pat, to)) =~= a + replace_all(
            b,
            pat,
            to,
        ));
    }
}

/// Replacement fires exactly at an occurrence of the placeholder.
pub proof fn lemma_replace_all_at(b: Seq<char>, pat: Seq<char>, to: Seq<char>)
    requires
        pat.len() > 0,
    ensures
        replace_all(pat + b, pat, to) == to + replace_all(b, pat, to),
{
    let s = pat + b;
    assert(s.take(pat.len() as int) =~= pat);
    assert(s.skip(pat.len() as int) =~= b);
}

/// Law: a template holding one placeholder amid delimiter-free text renders
/// with the placeholder replaced by its coordinate value and, when the
/// coordinate values are delimiter-free, with no delimiter left anywhere:
/// no `%...%` token remains.
pub proof fn lemma_render_one_placeholder(
    a: Seq<char>,
    b: Seq<char>,
    pipeline: Seq<char>,
    job: Seq<char>,
    team: Seq<char>,
    vars: Seq<char>,
)
    requires
        no_pct(a),
        no_pct(b),
        no_pct(pipeline),
        no_pct(job),
        no_pct(team),
        no_pct(vars),
    ensures
        rendered_name(a + "%BUILD_PIPELINE_NAME%"@ + b, pipeline, job, team, vars) == a + pipeline
            + b,
        no_pct(a + pipeline + b),
{
    reveal_strlit("%BUILD_PIPELINE_NAME%");
    reveal_strlit("%BUILD_JOB_NAME%");
    reveal_strlit("%BUILD_TEAM_NAME%");
    reveal_strlit("%BUILD_PIPELINE_INSTANCE_VARS%");
    let p1 = "%BUILD_PIPELINE_NAME%"@;
    let t = a + p1 + b;
    assert(t =~= a + (p1 + b));
    lemma_replace_all_prefix(a, p1 + b, p1, pipeline);
    lemma_replace_all_at(b, p1, pipeline);
    lemma_replace_all_absent(b, p1, pipeline);
    let r1 = replace_all(t, p1, pipeline);
    assert(r1 == a + (pipeline + (b)));
    let w = a + pipeline + b;
    assert(r1 =~= w);
    assert(no_pct(w));
    lemma_replace_all_absent(w, "%BUILD_JOB_NAME%"@, job);
    lemma_replace_all_absent(w, "%BUILD_TEAM_NAME%"@, team);
    lemma_replace_all_absent(w, "%BUILD_PIPELINE_INSTANCE_VARS%"@, vars);
}



} // verus!
