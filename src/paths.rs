use crate::worker::{answer_of, ErrorKind, HostError};
use vstd::prelude::*;
use vstd::string::{StrSliceExecFns, StringExecFns};

verus! {

/// The index where the last component of `p[0..k]` starts.
pub open spec fn name_start(p: Seq<char>, k: int) -> int
    decreases k,
{
    if k <= 0 || p[k - 1] == '/' {
        k
    } else {
        name_start(p, k - 1)
    }
}

/// The last component of a path: what follows its last `/`.
pub open spec fn file_name(p: Seq<char>) -> Seq<char> {
    p.subrange(name_start(p, p.len() as int), p.len() as int)
}

/// The directory where commands are expected when the search path has none.
pub open spec fn fallback_dir() -> Seq<char> {
    seq!['/', 'u', 's', 'r', '/', 'b', 'i', 'n', '/']
}

/// The existing path to redirect for a command name: where the search path
/// resolves it, or else the same name in the conventional binary directory.
pub open spec fn resolved_path(name: Seq<char>, found: Option<Seq<char>>) -> Seq<char> {
    match found {
        Some(p) => p,
        None => fallback_dir() + name,
    }
}

/// Where a command found by a lookup with `answer` is redirected: the path
/// found, or on a resolution failure the fallback; `None` when the lookup
/// failed in any other way, which ends the run.
pub open spec fn lookup_path(name: Seq<char>, answer: Result<Seq<char>, ErrorKind>) -> Option<
    Seq<char>,
> {
    match answer {
        Ok(p) => Some(p),
        Err(k) => if k == ErrorKind::Resolution {
            Some(resolved_path(name, None))
        } else {
            None
        },
    }
}

proof fn lemma_name_start_bounds(p: Seq<char>, k: int)
    requires
        0 <= k <= p.len(),
    ensures
        0 <= name_start(p, k) <= k,
    decreases k,
{
    if k > 0 && p[k - 1] != '/' {
        lemma_name_start_bounds(p, k - 1);
    }
}

/// The last component of `path`.
pub fn base_name(path: &str) -> (r: String)
    ensures
        r@ == file_name(path@),
{
    let n = path.unicode_len();
    let mut k: usize = n;
    while k > 0 && path.get_char(k - 1) != '/'
        invariant
            n == path@.len(),
            k <= n,
            name_start(path@, k as int) == name_start(path@, n as int),
        decreases k,
    {
        k = k - 1;
    }
    proof {
        lemma_name_start_bounds(path@, n as int);
    }
    String::from_str(path.substring_char(k, n))
}

/// Applies the resolution rule to the outcome of a search-path lookup of
/// `name`: a found path is kept, a resolution failure falls back to the
/// conventional binary directory, and any other failure is passed on.
pub fn existing_path(name: &str, lookup: Result<String, HostError>) -> (r: Result<
    String,
    HostError,
>)
    ensures
        match lookup_path(name@, answer_of(lookup)) {
            Some(p) => r matches Ok(q) && q@ == p,
            None => r is Err,
        },
        match lookup {
            Ok(p) => r matches Ok(q) && q@ == p@,
            Err(e) => if e.kind == ErrorKind::Resolution {
                r matches Ok(q) && q@ == resolved_path(name@, None)
            } else {
                r matches Err(f) && f.kind == e.kind && f.detail@ == e.detail@
            },
        },
{
    match lookup {
        Ok(p) => Ok(p),
        Err(e) => {
            if e.kind == ErrorKind::Resolution {
                let mut q = String::from_str("/usr/bin/");
                proof {
                    reveal_strlit("/usr/bin/");
                }
                q.append(name);
                Ok(q)
            } else {
                Err(e)
            }
        },
    }
}

} // verus!
