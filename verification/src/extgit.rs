use crate::text::{chars_of, extend, extend_str, string_of, subvec};
use crate::util::filesystem::starts_with;
use vstd::prelude::*;

verus! {

/// The git commands that are run through the program `git` itself.
#[derive(Debug, PartialEq)]
pub struct ExtGit {
    pub command: String,
    pub root: String,
}

/// Why a run of git failed.
#[derive(Debug, PartialEq)]
pub enum ExtGitError {
    /// Git ended with a code other than zero: the code and what it wrote
    /// to its error stream.
    NonZeroCode(i32, Vec<u8>),
    /// Git was ended by a signal.
    SigTermination,
}

/// The index of the first `c` in `s[i..]`, or the length of the text.
pub open spec fn first_index(s: Seq<char>, c: char, i: int) -> int
    decreases s.len() - i,
{
    if i < 0 || i >= s.len() {
        s.len() as int
    } else if s[i] == c {
        i
    } else {
        first_index(s, c, i + 1)
    }
}

/// The address `url` for a fetch over HTTPS.
///
/// An address `ssh://<user>@<host>/<path>` becomes `https://<host>/<path>`;
/// an address `<user>@<host>:<path>` becomes `https://<host>/<path>`; any
/// other address stays as it is.
pub open spec fn spec_as_https(url: Seq<char>) -> Seq<char> {
    let ssh = seq!['s', 's', 'h', ':', '/', '/'];
    let https = seq!['h', 't', 't', 'p', 's', ':', '/', '/'];
    if starts_with(url, ssh) {
        let rest = url.subrange(6, url.len() as int);
        let at = first_index(rest, '@', 0);
        let slash = first_index(rest, '/', 0);
        if at < slash {
            https + rest.subrange(at + 1, rest.len() as int)
        } else {
            https + rest
        }
    } else {
        let at = first_index(url, '@', 0);
        let colon = first_index(url, ':', 0);
        let slash = first_index(url, '/', 0);
        if at < colon && colon < url.len() && colon < slash {
            https + url.subrange(at + 1, colon) + seq!['/'] + url.subrange(colon + 1, url.len() as int)
        } else {
            url
        }
    }
}

/// Finds the first `c` in `v[from..]`.
pub fn find_first(v: &Vec<char>, c: char) -> (r: usize)
    ensures
        r == first_index(v@, c, 0),
        r <= v@.len(),
        r < v@.len() ==> v@[r as int] == c,
{
    let mut i: usize = 0;
    while i < v.len() && v[i] != c
        invariant
            i <= v.len(),
            first_index(v@, c, i as int) == first_index(v@, c, 0),
        decreases v.len() - i,
    {
        i += 1;
    }
    i
}

/// Rewrites an address for a fetch over SSH into one for a fetch over HTTPS.
pub fn as_https(url: &str) -> (r: String)
    ensures
        r@ == spec_as_https(url@),
{
    let v = chars_of(url);
    let mut out: Vec<char> = Vec::new();
    let is_ssh = v.len() >= 6 && v[0] == 's' && v[1] == 's' && v[2] == 'h' && v[3] == ':' && v[4]
        == '/' && v[5] == '/';
    proof {
        let ssh = seq!['s', 's', 'h', ':', '/', '/'];
        if is_ssh {
            assert(v@.subrange(0, 6) =~= ssh);
        }
        if starts_with(v@, ssh) {
            let h = v@.subrange(0, 6);
            assert(h[0] == v@[0] && h[1] == v@[1] && h[2] == v@[2] && h[3] == v@[3] && h[4]
                == v@[4] && h[5] == v@[5]);
            assert(ssh[0] == 's' && ssh[1] == 's' && ssh[2] == 'h' && ssh[3] == ':' && ssh[4]
                == '/' && ssh[5] == '/');
        }
    }
    if is_ssh {
        let rest = subvec(&v, 6, v.len());
        let at = find_first(&rest, '@');
        let slash = find_first(&rest, '/');
        push_https(&mut out);
        if at < slash {
            extend(&mut out, &subvec(&rest, at + 1, rest.len()));
        } else {
            extend(&mut out, &rest);
        }
    } else {
        let at = find_first(&v, '@');
        let colon = find_first(&v, ':');
        let slash = find_first(&v, '/');
        if at < colon && colon < v.len() && colon < slash {
            push_https(&mut out);
            extend(&mut out, &subvec(&v, at + 1, colon));
            out.push('/');
            extend(&mut out, &subvec(&v, colon + 1, v.len()));
        } else {
            extend(&mut out, &v);
        }
    }
    assert(out@ =~= spec_as_https(url@));
    string_of(&out)
}

/// Appends `https://`.
fn push_https(out: &mut Vec<char>)
    ensures
        final(out)@ == old(out)@ + seq!['h', 't', 't', 'p', 's', ':', '/', '/'],
{
    out.push('h');
    out.push('t');
    out.push('t');
    out.push('p');
    out.push('s');
    out.push(':');
    out.push('/');
    out.push('/');
    assert(out@ =~= old(out)@ + seq!['h', 't', 't', 'p', 's', ':', '/', '/']);
}

impl ExtGit {
    /// The commands of the program `cmd`, or of `git` if none is named.
    pub fn new(cmd: Option<&str>) -> (r: ExtGit)
        ensures
            r.command@ == match cmd {
                Some(c) => c@,
                None => "git"@,
            },
            r.root@.len() == 0,
    {
        let command = match cmd {
            Some(c) => string_of(&chars_of(c)),
            None => string_of(&chars_of("git")),
        };
        ExtGit { command, root: String::new() }
    }

    /// The commands run in the directory `p`.
    pub fn path(self, p: String) -> (r: ExtGit)
        ensures
            r.command == self.command,
            r.root == p,
    {
        ExtGit { command: self.command, root: p }
    }

    /// The address that a clone of `url` fetches from: the address itself,
    /// or the one over HTTPS if SSH is not to be used.
    pub fn clone_url(url: &str, disable_ssh: bool) -> (r: String)
        ensures
            r@ == if disable_ssh {
                spec_as_https(url@)
            } else {
                url@
            },
    {
        if disable_ssh {
            as_https(url)
        } else {
            string_of(&chars_of(url))
        }
    }

    /// Judges how a run of git ended: well if its code is zero.
    pub fn check_status(code: Option<i32>, stderr: Vec<u8>) -> (r: Result<(), ExtGitError>)
        ensures
            r == match code {
                Some(n) => if n == 0 {
                    Ok(())
                } else {
                    Err(ExtGitError::NonZeroCode(n, stderr))
                },
                None => Err(ExtGitError::SigTermination),
            },
    {
        match code {
            Some(n) => if n != 0 {
                Err(ExtGitError::NonZeroCode(n, stderr))
            } else {
                Ok(())
            },
            None => Err(ExtGitError::SigTermination),
        }
    }
}

} // verus!
