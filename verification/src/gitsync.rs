//! The decisions of the backup automation, on plain text: which
//! authentication a remote uses, when a commit or a push is called for, and
//! what help a failed authentication gets. The terminal layer runs the
//! actual version-control commands and hands their output back here.
use vstd::prelude::*;

verus! {

/// The backup target: where the data lives and which repository it goes to.
pub struct GitHubSync {
    pub config_dir: String,
    pub repo_name: String,
    pub git_username: String,
}

/// How the remote authenticates.
#[derive(Clone, Copy, Debug, PartialEq, Eq, Structural)]
pub enum AuthMethod {
    SSH,
    HTTPS,
    Unknown,
}

/// Whether a text begins with a prefix.
pub open spec fn starts_with(s: Seq<char>, prefix: Seq<char>) -> bool {
    prefix.len() <= s.len() && s.take(prefix.len() as int) == prefix
}

/// Whether a text contains another as a contiguous run.
pub open spec fn contains_text(h: Seq<char>, n: Seq<char>) -> bool {
    exists|i: int| 0 <= i && i + n.len() <= h.len() && #[trigger] h.subrange(i, i + n.len()) == n
}

/// The authentication a remote URL implies.
pub open spec fn auth_of_url(url: Seq<char>) -> AuthMethod {
    if starts_with(url, "git@github.com"@) {
        AuthMethod::SSH
    } else if starts_with(url, "https://github.com"@) {
        AuthMethod::HTTPS
    } else {
        AuthMethod::Unknown
    }
}

/// Whether a text begins with a prefix.
fn starts_with_exec(s: &String, prefix: &str) -> (r: bool)
    ensures
        r == starts_with(s@, prefix@),
{
    let sc = crate::models::string_to_chars(s.as_str());
    let pc = crate::models::string_to_chars(prefix);
    if pc.len() > sc.len() {
        return false;
    }
    let mut i: usize = 0;
    while i < pc.len()
        invariant
            i <= pc.len() <= sc.len(),
            sc@ == s@,
            pc@ == prefix@,
            forall|j: int| 0 <= j < i ==> s@[j] == prefix@[j],
        decreases pc.len() - i,
    {
        if sc[i] != pc[i] {
            proof {
                assert(s@.take(prefix@.len() as int)[i as int] != prefix@[i as int]);
            }
            return false;
        }
        i = i + 1;
    }
    proof {
        assert(s@.take(prefix@.len() as int) =~= prefix@);
    }
    true
}

/// Whether a text contains another as a contiguous run.
pub fn contains_exec(h: &String, n: &str) -> (r: bool)
    ensures
        r == contains_text(h@, n@),
{
    let hc = crate::models::string_to_chars(h.as_str());
    let nc = crate::models::string_to_chars(n);
    if nc.len() > hc.len() {
        proof {
            assert(!contains_text(h@, n@));
        }
        return false;
    }
    if nc.len() == 0 {
        proof {
            assert(h@.subrange(0, 0 + n@.len() as int) =~= n@);
        }
        return true;
    }
    let mut i: usize = 0;
    while i <= hc.len() - nc.len()
        invariant
            nc.len() <= hc.len(),
            nc.len() >= 1,
            i <= hc.len() - nc.len() + 1,
            hc@ == h@,
            nc@ == n@,
            forall|j: int| 0 <= j < i ==> #[trigger] h@.subrange(j, j + n@.len()) != n@,
        decreases hc.len() - nc.len() - i + 1,
    {
        let mut k: usize = 0;
        let mut matched: bool = true;
        while k < nc.len()
            invariant
                k <= nc.len(),
                i + nc.len() <= hc.len(),
                hc@ == h@,
                nc@ == n@,
                matched ==> forall|j: int| 0 <= j < k
                    ==> h@[i as int + j] == n@[j],
                !matched ==> h@.subrange(i as int, i as int + n@.len()) != n@,
            decreases nc.len() - k,
        {
            if hc[i + k] != nc[k] {
                proof {
                    assert(h@.subrange(i as int, i as int + n@.len())[k as int]
                        != n@[k as int]);
                }
                matched = false;
            }
            k = k + 1;
        }
        if matched {
            proof {
                assert(h@.subrange(i as int, i as int + n@.len()) =~= n@);
            }
            return true;
        }
        i = i + 1;
    }
    proof {
        assert forall|j: int| !(0 <= j && j + n@.len() <= h@.len()
            && #[trigger] h@.subrange(j, j + n@.len()) == n@) by {
            if 0 <= j && j + n@.len() <= h@.len() {
                assert(h@.subrange(j, j + n@.len()) != n@);
            }
        }
    }
    false
}

impl GitHubSync {
    /// A backup target over a configuration directory, repository name and
    /// account name (the terminal layer reads those from the environment).
    pub fn new(config_dir: String, repo_name: String, git_username: String) -> (r: GitHubSync)
        ensures
            r.config_dir@ == config_dir@,
            r.repo_name@ == repo_name@,
            r.git_username@ == git_username@,
    {
        GitHubSync { config_dir, repo_name, git_username }
    }

    /// Which authentication a remote URL uses: an SSH remote, an HTTPS
    /// remote, or something unknown.
    pub fn detect_auth_method(url: &String) -> (r: AuthMethod)
        ensures
            r == auth_of_url(url@),
    {
        if starts_with_exec(url, "git@github.com") {
            AuthMethod::SSH
        } else if starts_with_exec(url, "https://github.com") {
            AuthMethod::HTTPS
        } else {
            AuthMethod::Unknown
        }
    }

    /// Help text for a failed authentication, by method.
    pub fn get_auth_help_message(method: &AuthMethod) -> (r: String)
        ensures
            method is SSH ==> r@ == "Ensure your SSH key is added to your account"@,
            method is HTTPS ==> r@ == "Use a personal access token as the password"@,
            method is Unknown ==> r@ == "Please check your git remote configuration"@,
    {
        match method {
            AuthMethod::SSH => "Ensure your SSH key is added to your account".to_owned(),
            AuthMethod::HTTPS => "Use a personal access token as the password".to_owned(),
            AuthMethod::Unknown => "Please check your git remote configuration".to_owned(),
        }
    }

    /// Whether a porcelain status output calls for a commit: any output at
    /// all means there are changes.
    pub fn commit_needed(status_output: &String) -> (r: bool)
        ensures
            r == (status_output@.len() != 0),
    {
        !status_output.as_str().is_empty()
    }

    /// Whether a branch status calls for a push: the branch reports being
    /// ahead, or this is the initial commit.
    pub fn push_needed(status: &String) -> (r: bool)
        ensures
            r == (contains_text(status@, "ahead"@) || contains_text(
                status@, "Initial commit"@,
            )),
    {
        contains_exec(status, "ahead") || contains_exec(status, "Initial commit")
    }
}

} // verus!
