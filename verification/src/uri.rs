use vstd::prelude::*;
use vstd::string::StrSliceExecFns;

verus! {

/// The host and path of an absolute URL; nothing for a string that does not
/// parse as one or names no host. Names the outcome of `url::Url::parse`,
/// which depends on the URL string alone.
pub uninterp spec fn uri_parts(s: Seq<char>) -> Option<(Seq<char>, Seq<char>)>;

/// Relies on `url::Url::parse` together with `Url::host_str` and
/// `Url::path`, all functions of the URL string alone.
#[verifier::external_body]
fn split_uri(uri: &str) -> (r: Option<(String, String)>)
    ensures
        match r {
            Option::Some(hp) => uri_parts(uri@) == Option::Some((hp.0@, hp.1@)),
            Option::None => uri_parts(uri@) is None,
        },
{
    match url::Url::parse(uri) {
        Ok(u) => match u.host_str() {
            Some(h) => Some((h.to_owned(), u.path().to_owned())),
            None => None,
        },
        Err(_) => None,
    }
}

/// The string with every leading slash removed.
pub open spec fn trim_leading_slashes(s: Seq<char>) -> Seq<char>
    decreases s.len(),
{
    if s.len() > 0 && s[0] == '/' {
        trim_leading_slashes(s.drop_first())
    } else {
        s
    }
}

/// The string with every trailing `.git` removed.
pub open spec fn trim_git_suffixes(s: Seq<char>) -> Seq<char>
    decreases s.len(),
{
    if s.len() >= 4 && s.skip(s.len() - 4) == ".git"@ {
        trim_git_suffixes(s.take(s.len() - 4))
    } else {
        s
    }
}

/// The project identifier within a URL path: the path with its leading
/// slashes and any `.git` suffixes removed.
pub open spec fn project_path_text(path: Seq<char>) -> Seq<char> {
    trim_git_suffixes(trim_leading_slashes(path))
}

/// Strips leading slashes and trailing `.git` suffixes from a URL path.
pub fn project_path(path: &str) -> (r: String)
    ensures
        r@ == project_path_text(path@),
{
    let n = path.unicode_len();
    let mut start: usize = 0;
    proof {
        assert(path@.skip(0) =~= path@);
    }
    loop
        invariant
            0 <= start <= n,
            n == path@.len(),
            trim_leading_slashes(path@) == trim_leading_slashes(path@.skip(start as int)),
        ensures
            0 <= start <= n,
            trim_leading_slashes(path@) == path@.skip(start as int),
        decreases n - start,
    {
        if start >= n {
            proof {
                assert(path@.skip(start as int).len() == 0);
            }
            break ;
        }
        if path.get_char(start) != '/' {
            proof {
                assert(path@.skip(start as int)[0] == path@[start as int]);
            }
            break ;
        }
        proof {
            assert(path@.skip(start as int)[0] == path@[start as int]);
            assert(path@.skip(start as int).drop_first() =~= path@.skip(start + 1));
        }
        start = start + 1;
    }
    let mut end: usize = n;
    loop
        invariant
            start <= end <= n,
            n == path@.len(),
            trim_git_suffixes(path@.skip(start as int)) == trim_git_suffixes(
                path@.subrange(start as int, end as int),
            ),
        ensures
            start <= end <= n,
            trim_git_suffixes(path@.skip(start as int)) == path@.subrange(
                start as int,
                end as int,
            ),
        decreases end,
    {
        let ghost cur = path@.subrange(start as int, end as int);
        if end - start < 4 {
            proof {
                assert(trim_git_suffixes(cur) == cur);
            }
            break ;
        }
        let tail_is_git = path.get_char(end - 4) == '.' && path.get_char(end - 3) == 'g'
            && path.get_char(end - 2) == 'i' && path.get_char(end - 1) == 't';
        if tail_is_git {
            proof {
                reveal_strlit(".git");
                assert(cur.skip(cur.len() - 4) =~= ".git"@);
                assert(cur.take(cur.len() - 4) =~= path@.subrange(start as int, end - 4));
            }
            end = end - 4;
        } else {
            proof {
                reveal_strlit(".git");
                let t = cur.skip(cur.len() - 4);
                assert(t.len() == 4);
                assert(t[0] == path@[end - 4] && t[1] == path@[end - 3] && t[2] == path@[end - 2]
                    && t[3] == path@[end - 1]);
                assert(t != ".git"@);
                assert(trim_git_suffixes(cur) == cur);
            }
            break ;
        }
    }
    let piece = path.substring_char(start, end);
    piece.to_owned()
}

/// The host endpoint and project identifier of a source URI: the URL's
/// host, and its path with leading slashes and `.git` suffixes removed.
/// Nothing for a URI that does not parse or names no host, a fatal
/// configuration error.
pub fn gitlab_endpoint(uri: &str) -> (r: Option<(String, String)>)
    ensures
        match r {
            Option::Some(hp) => uri_parts(uri@) matches Option::Some(parts) && hp.0@ == parts.0
                && hp.1@ == project_path_text(parts.1),
            Option::None => uri_parts(uri@) is None,
        },
{
    match split_uri(uri) {
        Option::Some((host, path)) => {
            let project = project_path(path.as_str());
            Option::Some((host, project))
        },
        Option::None => Option::None,
    }
}

} // verus!
