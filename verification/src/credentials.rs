//! Credentials: which one a remote gets, and what the user is asked for.

use vstd::prelude::*;
use vstd::string::StringExecFns;

use crate::strings::{opt_view, str_eq};
use crate::types::GitError;

verus! {

// ---------------------------------------------------------------------------
// Types
// ---------------------------------------------------------------------------
/// Which remotes a stored credential is for.
#[derive(Clone, Copy, Debug, PartialEq, Eq, Structural)]
pub enum CredentialScope {
    /// One remote address.
    RemoteUrl,
    /// Every address on one host.
    Host,
}

#[derive(Clone, Copy, Debug, PartialEq, Eq, Structural)]
pub enum CredentialFormMode {
    Https,
    Ssh,
}

/// The kinds of credential that a remote takes.
#[derive(Clone, Copy, Debug, PartialEq, Eq, Structural)]
pub struct AllowedTypes {
    pub user_pass_plaintext: bool,
    pub ssh_key: bool,
    pub default: bool,
}

/// What a remote asks for.
#[derive(Clone, Debug, PartialEq, Eq)]
pub struct CredentialRequest {
    pub url: String,
    pub username_from_url: Option<String>,
    pub allowed_types: AllowedTypes,
    /// The key of the repository that asks.
    pub repo_key: Option<String>,
    pub remote_name: Option<String>,
}

#[derive(Clone, Debug, PartialEq, Eq)]
pub enum GitCredential {
    UserPass { username: String, secret: String, save_to_keyring: bool, scope: CredentialScope },
    SshPassphrase {
        username: String,
        private_key_path: Option<String>,
        passphrase: Option<String>,
        save_to_keyring: bool,
        scope: CredentialScope,
    },
}

/// What a [`GitCredential`] holds.
pub enum CredentialView {
    UserPass {
        username: Seq<char>,
        secret: Seq<char>,
        save_to_keyring: bool,
        scope: CredentialScope,
    },
    SshPassphrase {
        username: Seq<char>,
        private_key_path: Option<Seq<char>>,
        passphrase: Option<Seq<char>>,
        save_to_keyring: bool,
        scope: CredentialScope,
    },
}

impl View for GitCredential {
    type V = CredentialView;

    open spec fn view(&self) -> CredentialView {
        match *self {
            GitCredential::UserPass { username, secret, save_to_keyring, scope } => {
                CredentialView::UserPass {
                    username: username@,
                    secret: secret@,
                    save_to_keyring,
                    scope,
                }
            },
            GitCredential::SshPassphrase {
                username,
                private_key_path,
                passphrase,
                save_to_keyring,
                scope,
            } => {
                CredentialView::SshPassphrase {
                    username: username@,
                    private_key_path: opt_view(private_key_path),
                    passphrase: opt_view(passphrase),
                    save_to_keyring,
                    scope,
                }
            },
        }
    }
}

impl GitCredential {
    pub open spec fn wants_saving(self) -> bool {
        match self {
            GitCredential::UserPass { save_to_keyring, .. } => save_to_keyring,
            GitCredential::SshPassphrase { save_to_keyring, .. } => save_to_keyring,
        }
    }

    /// Whether the user wants the credential kept.
    pub fn should_save(&self) -> (r: bool)
        ensures
            r == self.wants_saving(),
    {
        match self {
            GitCredential::UserPass { save_to_keyring, .. } => *save_to_keyring,
            GitCredential::SshPassphrase { save_to_keyring, .. } => *save_to_keyring,
        }
    }

    pub open spec fn user(self) -> Seq<char> {
        match self {
            GitCredential::UserPass { username, .. } => username@,
            GitCredential::SshPassphrase { username, .. } => username@,
        }
    }

    pub fn username(&self) -> (r: &str)
        ensures
            r@ == self.user(),
    {
        match self {
            GitCredential::UserPass { username, .. } => username.as_str(),
            GitCredential::SshPassphrase { username, .. } => username.as_str(),
        }
    }
}

/// What a remote is given when it asks.
#[derive(Debug, PartialEq, Eq)]
pub enum RemoteCredentialPolicy {
    /// The stored credential that fits best.
    AutoMatch,
    /// Nothing.
    NoCredential,
    /// The stored credential with this id.
    Record(String),
}

pub enum PolicyView {
    AutoMatch,
    NoCredential,
    Record(Seq<char>),
}

impl View for RemoteCredentialPolicy {
    type V = PolicyView;

    open spec fn view(&self) -> PolicyView {
        match self {
            RemoteCredentialPolicy::AutoMatch => PolicyView::AutoMatch,
            RemoteCredentialPolicy::NoCredential => PolicyView::NoCredential,
            RemoteCredentialPolicy::Record(id) => PolicyView::Record(id@),
        }
    }
}

impl Clone for RemoteCredentialPolicy {
    fn clone(&self) -> (r: Self)
        ensures
            r@ == self@,
    {
        match self {
            RemoteCredentialPolicy::AutoMatch => RemoteCredentialPolicy::AutoMatch,
            RemoteCredentialPolicy::NoCredential => RemoteCredentialPolicy::NoCredential,
            RemoteCredentialPolicy::Record(id) => RemoteCredentialPolicy::Record(id.clone()),
        }
    }
}

/// What is known of a stored credential without opening it.
#[derive(Clone, Debug, PartialEq, Eq)]
pub struct CredentialRecord {
    pub id: String,
    pub scope: CredentialScope,
    pub username: String,
    pub last_used: Option<i64>,
    pub updated_at: i64,
}

/// Where a service gets credentials from.
pub trait CredentialProvider: Send + Sync {
    fn credential_for(&self, request: CredentialRequest) -> (r: Result<
        Option<GitCredential>,
        GitError,
    >);
}

// ---------------------------------------------------------------------------
// Bindings of remotes to credentials
// ---------------------------------------------------------------------------
#[derive(Debug, PartialEq, Eq)]
pub struct RemoteCredentialBinding {
    pub repo_path: String,
    pub remote_name: String,
    pub remote_url: String,
    pub policy: RemoteCredentialPolicy,
}

pub struct BindingView {
    pub repo_path: Seq<char>,
    pub remote_name: Seq<char>,
    pub remote_url: Seq<char>,
    pub policy: PolicyView,
}

impl View for RemoteCredentialBinding {
    type V = BindingView;

    open spec fn view(&self) -> BindingView {
        BindingView {
            repo_path: self.repo_path@,
            remote_name: self.remote_name@,
            remote_url: self.remote_url@,
            policy: self.policy@,
        }
    }
}

#[derive(Debug, PartialEq, Eq)]
pub struct RemoteCredentialBindings {
    pub remotes: Vec<RemoteCredentialBinding>,
}

impl View for RemoteCredentialBindings {
    type V = Seq<BindingView>;

    open spec fn view(&self) -> Seq<BindingView> {
        self.remotes@.map_values(|b: RemoteCredentialBinding| b@)
    }
}

impl Default for RemoteCredentialBindings {
    fn default() -> (r: Self)
        ensures
            r@ == Seq::<BindingView>::empty(),
    {
        let r = RemoteCredentialBindings { remotes: Vec::new() };
        assert(r@ =~= Seq::<BindingView>::empty());
        r
    }
}

/// The first binding from `k` on of the remote, or the number of bindings.
pub open spec fn binding_of(
    bindings: Seq<BindingView>,
    repo: Seq<char>,
    remote: Seq<char>,
    k: int,
) -> int
    decreases bindings.len() - k,
{
    if k < 0 || k >= bindings.len() {
        bindings.len() as int
    } else if bindings[k].repo_path == repo && bindings[k].remote_name == remote {
        k
    } else {
        binding_of(bindings, repo, remote, k + 1)
    }
}

/// The policy for a remote at an address: that of the first binding of the remote to exactly
/// this address, else to pick a stored credential that fits.
pub open spec fn policy_for(
    bindings: Seq<BindingView>,
    repo: Seq<char>,
    remote: Seq<char>,
    url: Seq<char>,
) -> PolicyView
    decreases bindings.len(),
{
    if bindings.len() == 0 {
        PolicyView::AutoMatch
    } else {
        let b = bindings[0];
        if b.repo_path == repo && b.remote_name == remote && b.remote_url == url {
            b.policy
        } else {
            policy_for(bindings.drop_first(), repo, remote, url)
        }
    }
}

/// The policy for a request: a request that names no repository or no remote has no binding.
pub open spec fn policy_for_request(
    bindings: Seq<BindingView>,
    request: CredentialRequest,
) -> PolicyView {
    match (request.repo_key, request.remote_name) {
        (Some(repo), Some(remote)) => policy_for(bindings, repo@, remote@, request.url@),
        _ => PolicyView::AutoMatch,
    }
}

/// The bindings after `policy` is set for a remote: its first binding is changed, or a new one
/// added at the end.
pub open spec fn with_policy(
    bindings: Seq<BindingView>,
    repo: Seq<char>,
    remote: Seq<char>,
    url: Seq<char>,
    policy: PolicyView,
) -> Seq<BindingView> {
    let at = binding_of(bindings, repo, remote, 0);
    let new = BindingView { repo_path: repo, remote_name: remote, remote_url: url, policy };
    if at < bindings.len() {
        bindings.update(at, new)
    } else {
        bindings.push(new)
    }
}

impl RemoteCredentialBindings {
    pub fn policy_for_remote(&self, repo_key: &str, remote_name: &str, url: &str) -> (r:
        RemoteCredentialPolicy)
        ensures
            r@ == policy_for(self@, repo_key@, remote_name@, url@),
    {
        let mut i: usize = 0;
        assert(self@.skip(0) =~= self@);
        while i < self.remotes.len()
            invariant
                i <= self.remotes@.len(),
                self@.len() == self.remotes@.len(),
                policy_for(self@, repo_key@, remote_name@, url@) == policy_for(
                    self@.skip(i as int),
                    repo_key@,
                    remote_name@,
                    url@,
                ),
            decreases self.remotes@.len() - i,
        {
            let b = &self.remotes[i];
            assert(self@.skip(i as int)[0] == b@);
            assert(self@.skip(i as int).drop_first() =~= self@.skip(i as int + 1));
            if str_eq(b.repo_path.as_str(), repo_key) && str_eq(
                b.remote_name.as_str(),
                remote_name,
            ) && str_eq(b.remote_url.as_str(), url) {
                return b.policy.clone();
            }
            i = i + 1;
        }
        RemoteCredentialPolicy::AutoMatch
    }

    pub fn set_policy(
        &mut self,
        repo_key: &str,
        remote_name: &str,
        url: &str,
        policy: RemoteCredentialPolicy,
    )
        ensures
            final(self)@ == with_policy(old(self)@, repo_key@, remote_name@, url@, policy@),
    {
        let ghost before = self@;
        let mut i: usize = 0;
        while i < self.remotes.len() && !(str_eq(self.remotes[i].repo_path.as_str(), repo_key)
            && str_eq(self.remotes[i].remote_name.as_str(), remote_name))
            invariant
                i <= self.remotes@.len(),
                self@ == before,
                before.len() == self.remotes@.len(),
                forall|j: int| 0 <= j < before.len() ==> before[j] == (#[trigger] self.remotes@[j])@,
                binding_of(before, repo_key@, remote_name@, 0) == binding_of(
                    before,
                    repo_key@,
                    remote_name@,
                    i as int,
                ),
            decreases self.remotes@.len() - i,
        {
            i = i + 1;
        }
        let ghost new = BindingView {
            repo_path: repo_key@,
            remote_name: remote_name@,
            remote_url: url@,
            policy: policy@,
        };
        if i < self.remotes.len() {
            assert(before[i as int] == self.remotes@[i as int]@);
            let b = &mut self.remotes[i];
            b.remote_url = String::from_str(url);
            b.policy = policy;
            assert(self@ =~= before.update(i as int, new));
        } else {
            self.remotes.push(
                RemoteCredentialBinding {
                    repo_path: String::from_str(repo_key),
                    remote_name: String::from_str(remote_name),
                    remote_url: String::from_str(url),
                    policy,
                },
            );
            assert(self@ =~= before.push(new));
        }
    }
}

pub fn remote_binding_for_request(
    bindings: &RemoteCredentialBindings,
    request: &CredentialRequest,
) -> (r: RemoteCredentialPolicy)
    ensures
        r@ == policy_for_request(bindings@, *request),
{
    match (&request.repo_key, &request.remote_name) {
        (Some(repo), Some(remote)) => bindings.policy_for_remote(
            repo.as_str(),
            remote.as_str(),
            request.url.as_str(),
        ),
        _ => RemoteCredentialPolicy::AutoMatch,
    }
}

pub fn set_remote_binding_for_request(
    bindings: &mut RemoteCredentialBindings,
    request: &CredentialRequest,
    policy: RemoteCredentialPolicy,
)
    ensures
        match (request.repo_key, request.remote_name) {
            (Some(repo), Some(remote)) => final(bindings)@ == with_policy(
                old(bindings)@,
                repo@,
                remote@,
                request.url@,
                policy@,
            ),
            _ => *final(bindings) == *old(bindings),
        },
{
    match (&request.repo_key, &request.remote_name) {
        (Some(repo), Some(remote)) => {
            bindings.set_policy(repo.as_str(), remote.as_str(), request.url.as_str(), policy);
        },
        _ => {},
    }
}

// ---------------------------------------------------------------------------
// Laws of the bindings
// ---------------------------------------------------------------------------
/// No remote has two bindings.
pub open spec fn one_binding_each(bindings: Seq<BindingView>) -> bool {
    forall|i: int, j: int|
        0 <= i < j < bindings.len() ==> !((#[trigger] bindings[i]).repo_path == (
        #[trigger] bindings[j]).repo_path && bindings[i].remote_name == bindings[j].remote_name)
}

proof fn lemma_binding_of(bindings: Seq<BindingView>, repo: Seq<char>, remote: Seq<char>, k: int)
    requires
        0 <= k <= bindings.len(),
    ensures
        k <= binding_of(bindings, repo, remote, k) <= bindings.len(),
        binding_of(bindings, repo, remote, k) < bindings.len() ==> {
            let b = bindings[binding_of(bindings, repo, remote, k)];
            b.repo_path == repo && b.remote_name == remote
        },
        forall|i: int|
            k <= i < binding_of(bindings, repo, remote, k) ==> !((#[trigger] bindings[i]).repo_path
                == repo && bindings[i].remote_name == remote),
    decreases bindings.len() - k,
{
    if k < bindings.len() && !(bindings[k].repo_path == repo && bindings[k].remote_name == remote) {
        lemma_binding_of(bindings, repo, remote, k + 1);
    }
}

/// The policy of a remote is that of the first binding that names its repository, its name and its
/// address.
pub proof fn lemma_policy_at(
    bindings: Seq<BindingView>,
    repo: Seq<char>,
    remote: Seq<char>,
    url: Seq<char>,
    at: int,
)
    requires
        0 <= at < bindings.len(),
        bindings[at].repo_path == repo && bindings[at].remote_name == remote
            && bindings[at].remote_url == url,
        forall|i: int|
            0 <= i < at ==> !((#[trigger] bindings[i]).repo_path == repo && bindings[i].remote_name
                == remote && bindings[i].remote_url == url),
    ensures
        policy_for(bindings, repo, remote, url) == bindings[at].policy,
    decreases at,
{
    if at > 0 {
        let rest = bindings.drop_first();
        assert(!(bindings[0].repo_path == repo && bindings[0].remote_name == remote
            && bindings[0].remote_url == url));
        assert forall|i: int| 0 <= i < at - 1 implies !((#[trigger] rest[i]).repo_path == repo
            && rest[i].remote_name == remote && rest[i].remote_url == url) by {
            assert(rest[i] == bindings[i + 1]);
        }
        lemma_policy_at(rest, repo, remote, url, at - 1);
    }
}

/// A remote that no binding names by all three gets the credential that fits best.
pub proof fn lemma_policy_none(
    bindings: Seq<BindingView>,
    repo: Seq<char>,
    remote: Seq<char>,
    url: Seq<char>,
)
    requires
        forall|i: int|
            0 <= i < bindings.len() ==> !((#[trigger] bindings[i]).repo_path == repo
                && bindings[i].remote_name == remote && bindings[i].remote_url == url),
    ensures
        policy_for(bindings, repo, remote, url) == PolicyView::AutoMatch,
    decreases bindings.len(),
{
    if bindings.len() > 0 {
        let rest = bindings.drop_first();
        assert(!(bindings[0].repo_path == repo && bindings[0].remote_name == remote
            && bindings[0].remote_url == url));
        assert forall|i: int| 0 <= i < rest.len() implies !((#[trigger] rest[i]).repo_path == repo
            && rest[i].remote_name == remote && rest[i].remote_url == url) by {
            assert(rest[i] == bindings[i + 1]);
        }
        lemma_policy_none(rest, repo, remote, url);
    }
}

/// What is set for a remote is found for it, as long as its address stays the same.
pub proof fn lemma_set_policy_is_found(
    bindings: Seq<BindingView>,
    repo: Seq<char>,
    remote: Seq<char>,
    url: Seq<char>,
    policy: PolicyView,
)
    ensures
        policy_for(with_policy(bindings, repo, remote, url, policy), repo, remote, url) == policy,
{
    lemma_binding_of(bindings, repo, remote, 0);
    let at = binding_of(bindings, repo, remote, 0);
    let after = with_policy(bindings, repo, remote, url, policy);
    assert forall|i: int| 0 <= i < at implies !((#[trigger] after[i]).repo_path == repo
        && after[i].remote_name == remote && after[i].remote_url == url) by {
        assert(after[i] == bindings[i]);
    }
    lemma_policy_at(after, repo, remote, url, at);
}

/// A remote whose address has changed since its binding was set is treated as unbound.
pub proof fn lemma_changed_address_unbinds(
    bindings: Seq<BindingView>,
    repo: Seq<char>,
    remote: Seq<char>,
    url: Seq<char>,
    policy: PolicyView,
    other: Seq<char>,
)
    requires
        one_binding_each(bindings),
        other != url,
    ensures
        policy_for(with_policy(bindings, repo, remote, url, policy), repo, remote, other)
            == PolicyView::AutoMatch,
{
    lemma_binding_of(bindings, repo, remote, 0);
    let at = binding_of(bindings, repo, remote, 0);
    let after = with_policy(bindings, repo, remote, url, policy);
    assert forall|i: int| 0 <= i < after.len() implies !((#[trigger] after[i]).repo_path == repo
        && after[i].remote_name == remote && after[i].remote_url == other) by {
        if i < bindings.len() && i != at {
            assert(after[i] == bindings[i]);
            if i > at && at < bindings.len() {
                assert(!(bindings[at].repo_path == bindings[i].repo_path
                    && bindings[at].remote_name == bindings[i].remote_name));
            }
        }
    }
    lemma_policy_none(after, repo, remote, other);
}

/// Setting a policy gives no remote a second binding and leaves other remotes alone.
pub proof fn lemma_set_policy_keeps_others(
    bindings: Seq<BindingView>,
    repo: Seq<char>,
    remote: Seq<char>,
    url: Seq<char>,
    policy: PolicyView,
    other_repo: Seq<char>,
    other_remote: Seq<char>,
    other_url: Seq<char>,
)
    ensures
        one_binding_each(bindings) ==> one_binding_each(
            with_policy(bindings, repo, remote, url, policy),
        ),
        repo != other_repo || remote != other_remote ==> policy_for(
            with_policy(bindings, repo, remote, url, policy),
            other_repo,
            other_remote,
            other_url,
        ) == policy_for(bindings, other_repo, other_remote, other_url),
{
    lemma_binding_of(bindings, repo, remote, 0);
    let at = binding_of(bindings, repo, remote, 0);
    let after = with_policy(bindings, repo, remote, url, policy);
    if one_binding_each(bindings) {
        assert forall|i: int, j: int| 0 <= i < j < after.len() implies !((
        #[trigger] after[i]).repo_path == (#[trigger] after[j]).repo_path && after[i].remote_name
            == after[j].remote_name) by {
            if j < bindings.len() {
                assert(after[i].repo_path == bindings[i].repo_path && after[i].remote_name
                    == bindings[i].remote_name);
                assert(after[j].repo_path == bindings[j].repo_path && after[j].remote_name
                    == bindings[j].remote_name);
                assert(!(bindings[i].repo_path == bindings[j].repo_path && bindings[i].remote_name
                    == bindings[j].remote_name));
            } else {
                assert(after[i] == bindings[i]);
            }
        }
    }
    if repo != other_repo || remote != other_remote {
        lemma_same_matches(bindings, after, at, other_repo, other_remote, other_url);
    }
}

proof fn lemma_same_matches(
    a: Seq<BindingView>,
    b: Seq<BindingView>,
    at: int,
    repo: Seq<char>,
    remote: Seq<char>,
    url: Seq<char>,
)
    requires
        a.len() <= b.len() <= a.len() + 1,
        0 <= at <= a.len(),
        b.len() == a.len() + 1 ==> at == a.len(),
        forall|i: int| 0 <= i < a.len() && i != at ==> #[trigger] a[i] == b[i],
        at < a.len() ==> !(a[at].repo_path == repo && a[at].remote_name == remote),
        at < b.len() ==> !(b[at].repo_path == repo && b[at].remote_name == remote),
    ensures
        policy_for(a, repo, remote, url) == policy_for(b, repo, remote, url),
    decreases a.len(),
{
    if a.len() == 0 {
        if b.len() == 1 {
            reveal_with_fuel(policy_for, 2);
            assert(b.drop_first().len() == 0);
        }
    } else {
        let a1 = a.drop_first();
        let b1 = b.drop_first();
        if at == 0 {
            assert(a1 =~= b1);
        } else {
            assert(a[0] == b[0]);
            assert forall|i: int| 0 <= i < a1.len() && i != at - 1 implies #[trigger] a1[i]
                == b1[i] by {
                assert(a[i + 1] == b[i + 1]);
            }
            lemma_same_matches(a1, b1, at - 1, repo, remote, url);
        }
    }
}

/// What one sees of a credential is all of it, and whether to keep it and whose it is are what it
/// says.
pub proof fn lemma_credential_is_what_is_seen(a: GitCredential, b: GitCredential)
    requires
        a@ == b@,
    ensures
        match a {
            GitCredential::UserPass { username, secret, save_to_keyring, scope } => {
                &&& b matches GitCredential::UserPass {
                    username: u,
                    secret: s,
                    save_to_keyring: k,
                    scope: c,
                }
                &&& u@ == username@ && s@ == secret@ && k == save_to_keyring && c == scope
                &&& a.user() == username@
                &&& a.wants_saving() == save_to_keyring
            },
            GitCredential::SshPassphrase {
                username,
                private_key_path,
                passphrase,
                save_to_keyring,
                scope,
            } => {
                &&& b matches GitCredential::SshPassphrase {
                    username: u,
                    private_key_path: p,
                    passphrase: w,
                    save_to_keyring: k,
                    scope: c,
                }
                &&& u@ == username@ && opt_view(p) == opt_view(private_key_path)
                &&& opt_view(w) == opt_view(passphrase) && k == save_to_keyring && c == scope
                &&& a.user() == username@
                &&& a.wants_saving() == save_to_keyring
            },
        },
{
}

/// What one sees of a binding is all of it.
pub proof fn lemma_binding_is_what_is_seen(
    a: RemoteCredentialBindings,
    b: RemoteCredentialBindings,
    i: int,
)
    requires
        a@ == b@,
    ensures
        a.remotes@.len() == b.remotes@.len(),
        0 <= i < a.remotes@.len() ==> {
            &&& a.remotes@[i].repo_path@ == b.remotes@[i].repo_path@
            &&& a.remotes@[i].remote_name@ == b.remotes@[i].remote_name@
            &&& a.remotes@[i].remote_url@ == b.remotes@[i].remote_url@
            &&& match a.remotes@[i].policy {
                RemoteCredentialPolicy::AutoMatch => b.remotes@[i].policy is AutoMatch,
                RemoteCredentialPolicy::NoCredential => b.remotes@[i].policy is NoCredential,
                RemoteCredentialPolicy::Record(id) => b.remotes@[i].policy matches RemoteCredentialPolicy::Record(other)
                    && other@ == id@,
            }
        },
{
    assert(a@.len() == a.remotes@.len());
    assert(b@.len() == b.remotes@.len());
    if 0 <= i < a.remotes@.len() {
        assert(a@[i] == a.remotes@[i]@);
        assert(b@[i] == b.remotes@[i]@);
    }
}

/// A request asks under the policy of its remote, if it says which repository and which remote it is
/// for; otherwise under none.
pub proof fn lemma_policy_of_a_request(bindings: Seq<BindingView>, request: CredentialRequest)
    ensures
        match (request.repo_key, request.remote_name) {
            (Some(repo), Some(remote)) => policy_for_request(bindings, request) == policy_for(
                bindings,
                repo@,
                remote@,
                request.url@,
            ),
            _ => policy_for_request(bindings, request) == PolicyView::AutoMatch,
        },
{
}

} // verus!
