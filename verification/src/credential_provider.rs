//! How one tab answers a remote that asks for a credential.
//!
//! A request is answered in rounds. The provider says what to look up in the store; the
//! program does so and reports what it found; the provider then says what to do next: hand
//! out the credential, ask the user, or give up.

use vstd::prelude::*;
use vstd::string::StringExecFns;

use crate::credentials::{
    policy_for_request, remote_binding_for_request, set_remote_binding_for_request, with_policy,
    CredentialRequest, PolicyView, RemoteCredentialBindings, RemoteCredentialPolicy,
};
use crate::strings::{cat3, clone_strings, contains_string, opt_view, str_eq, views};

verus! {

/// What a tab remembers between the requests of its remotes.
#[derive(Debug, PartialEq, Eq)]
pub struct CredentialAttempts {
    /// Stored credentials that a remote has turned down.
    pub rejected_record_ids: Vec<String>,
    /// The address and the stored credential that was last handed out.
    pub last_stored_attempt: Option<(String, String)>,
}

pub struct AttemptsView {
    pub rejected: Seq<Seq<char>>,
    pub last: Option<(Seq<char>, Seq<char>)>,
}

impl View for CredentialAttempts {
    type V = AttemptsView;

    open spec fn view(&self) -> AttemptsView {
        AttemptsView {
            rejected: views(self.rejected_record_ids@),
            last: match self.last_stored_attempt {
                Some((url, id)) => Some((url@, id@)),
                None => None,
            },
        }
    }
}

/// Where to look for a credential.
#[derive(Debug, PartialEq, Eq)]
pub enum Lookup {
    /// Nowhere.
    Nothing,
    /// In the record with this id.
    Record(String),
    /// In all records but the ones turned down.
    BestMatch { rejected: Vec<String> },
}

pub enum LookupView {
    Nothing,
    Record(Seq<char>),
    BestMatch { rejected: Seq<Seq<char>> },
}

impl View for Lookup {
    type V = LookupView;

    open spec fn view(&self) -> LookupView {
        match self {
            Lookup::Nothing => LookupView::Nothing,
            Lookup::Record(id) => LookupView::Record(id@),
            Lookup::BestMatch { rejected } => LookupView::BestMatch { rejected: views(rejected@) },
        }
    }
}

/// The first round: a record to delete, if one was turned down, and where to look.
pub struct FirstRound {
    pub delete_record: Option<String>,
    pub lookup: Lookup,
}

/// What the store said.
#[derive(Debug, PartialEq, Eq)]
pub enum LookupOutcome {
    /// There is a credential, in the record with this id.
    Found { record_id: String },
    /// There is none.
    Missing,
    /// The store could not be read.
    Unreadable,
    /// The record was found, but its use could not be noted.
    TouchFailed { error: String },
    /// The record was found, but is gone or does not fit the address.
    Unusable,
}

/// What to do after the store was asked.
#[derive(Debug, PartialEq, Eq)]
pub enum AfterLookup {
    /// Hand out the stored credential.
    UseStored,
    /// Ask the user.
    AskUser,
    /// Answer that there is no credential.
    AnswerNone,
    /// Answer with the error.
    Fail { error: String },
}

/// The record that the last answer to this address proved wrong.
pub open spec fn turned_down(a: AttemptsView, url: Seq<char>) -> Option<Seq<char>> {
    match a.last {
        Some((u, id)) => if u == url {
            Some(id)
        } else {
            None
        },
        None => None,
    }
}

/// What is remembered once an address asks again: the stored credential that it got last was
/// wrong.
pub open spec fn asked_again(a: AttemptsView, url: Seq<char>) -> AttemptsView {
    match turned_down(a, url) {
        Some(id) => AttemptsView {
            rejected: if a.rejected.contains(id) {
                a.rejected
            } else {
                a.rejected.push(id)
            },
            last: None,
        },
        None => a,
    }
}

/// Where to look for a credential under a policy.
pub open spec fn lookup_under(policy: PolicyView, rejected: Seq<Seq<char>>) -> LookupView {
    match policy {
        PolicyView::NoCredential => LookupView::Nothing,
        PolicyView::Record(id) => if rejected.contains(id) {
            LookupView::Nothing
        } else {
            LookupView::Record(id)
        },
        PolicyView::AutoMatch => LookupView::BestMatch { rejected },
    }
}

impl CredentialAttempts {
    pub fn new() -> (r: Self)
        ensures
            r@ == (AttemptsView { rejected: Seq::empty(), last: None }),
    {
        let r = CredentialAttempts { rejected_record_ids: Vec::new(), last_stored_attempt: None };
        assert(r@.rejected =~= Seq::<Seq<char>>::empty());
        r
    }

    /// Starts to answer a request.
    pub fn begin(&mut self, request: &CredentialRequest, bindings: &RemoteCredentialBindings) -> (r:
        FirstRound)
        ensures
            final(self)@ == asked_again(old(self)@, request.url@),
            opt_view(r.delete_record) == turned_down(old(self)@, request.url@),
            r.lookup@ == lookup_under(
                policy_for_request(bindings@, *request),
                final(self)@.rejected,
            ),
    {
        let mut delete_record: Option<String> = None;
        let wrong: Option<String> = match &self.last_stored_attempt {
            Some((url, id)) => if str_eq(url.as_str(), request.url.as_str()) {
                Some(id.clone())
            } else {
                None
            },
            None => None,
        };
        match wrong {
            Some(id) => {
                let ghost before = self.rejected_record_ids@;
                if !contains_string(&self.rejected_record_ids, id.as_str()) {
                    self.rejected_record_ids.push(id.clone());
                    assert(views(self.rejected_record_ids@) =~= views(before).push(id@));
                }
                self.last_stored_attempt = None;
                delete_record = Some(id);
            },
            None => {},
        }
        let policy: RemoteCredentialPolicy = remote_binding_for_request(bindings, request);
        let lookup: Lookup = match policy {
            RemoteCredentialPolicy::NoCredential => Lookup::Nothing,
            RemoteCredentialPolicy::Record(id) => if contains_string(
                &self.rejected_record_ids,
                id.as_str(),
            ) {
                Lookup::Nothing
            } else {
                Lookup::Record(id)
            },
            RemoteCredentialPolicy::AutoMatch => Lookup::BestMatch {
                rejected: clone_strings(&self.rejected_record_ids),
            },
        };
        FirstRound { delete_record, lookup }
    }

    /// Goes on once the store was asked. A failure to read the store is passed over.
    pub fn looked_up(&mut self, request: &CredentialRequest, outcome: LookupOutcome) -> (r:
        AfterLookup)
        ensures
            match outcome {
                LookupOutcome::Found { record_id } => {
                    &&& r is UseStored
                    &&& final(self)@ == (AttemptsView {
                        rejected: old(self)@.rejected,
                        last: Some((request.url@, record_id@)),
                    })
                },
                LookupOutcome::Missing => r is AskUser && final(self)@ == old(self)@,
                LookupOutcome::Unreadable => r is AskUser && final(self)@ == old(self)@,
                LookupOutcome::TouchFailed { error } => {
                    &&& r matches AfterLookup::Fail { error: e }
                    &&& e@ == error@
                    &&& final(self)@ == old(self)@
                },
                LookupOutcome::Unusable => r is AnswerNone && final(self)@ == old(self)@,
            },
    {
        match outcome {
            LookupOutcome::Found { record_id } => {
                self.last_stored_attempt = Some((request.url.clone(), record_id));
                AfterLookup::UseStored
            },
            LookupOutcome::Missing => AfterLookup::AskUser,
            LookupOutcome::Unreadable => AfterLookup::AskUser,
            LookupOutcome::TouchFailed { error } => AfterLookup::Fail { error },
            LookupOutcome::Unusable => AfterLookup::AnswerNone,
        }
    }

    /// Goes on once the user gave a credential that is not to be kept.
    pub fn not_saved(&mut self)
        ensures
            final(self)@ == (AttemptsView { rejected: old(self)@.rejected, last: None }),
    {
        self.last_stored_attempt = None;
    }

    /// Goes on once the credential that the user gave was to be kept: `saved` is the id of the
    /// record, if it could be. From then on the remote is bound to the record.
    pub fn saved(
        &mut self,
        request: &CredentialRequest,
        saved: Option<String>,
        bindings: &mut RemoteCredentialBindings,
    )
        ensures
            match saved {
                Some(id) => {
                    &&& final(self)@ == (AttemptsView {
                        rejected: old(self)@.rejected,
                        last: Some((request.url@, id@)),
                    })
                    &&& match (request.repo_key, request.remote_name) {
                        (Some(repo), Some(remote)) => final(bindings)@ == with_policy(
                            old(bindings)@,
                            repo@,
                            remote@,
                            request.url@,
                            PolicyView::Record(id@),
                        ),
                        _ => final(bindings)@ == old(bindings)@,
                    }
                },
                None => {
                    &&& final(self)@ == (AttemptsView { rejected: old(self)@.rejected, last: None })
                    &&& final(bindings)@ == old(bindings)@
                },
            },
    {
        match saved {
            Some(id) => {
                self.last_stored_attempt = Some((request.url.clone(), id.clone()));
                set_remote_binding_for_request(
                    bindings,
                    request,
                    RemoteCredentialPolicy::Record(id),
                );
            },
            None => {
                self.last_stored_attempt = None;
            },
        }
    }
}

// ---------------------------------------------------------------------------
// Laws
// ---------------------------------------------------------------------------
/// A stored credential that a remote turned down is not looked up again: once an address asks
/// a second time, the record that it got is among those turned down, and no lookup names it.
pub proof fn lemma_turned_down_is_not_offered_again(
    a: AttemptsView,
    url: Seq<char>,
    policy: PolicyView,
)
    ensures
        turned_down(a, url) matches Some(id) ==> {
            &&& asked_again(a, url).rejected.contains(id)
            &&& lookup_under(policy, asked_again(a, url).rejected) != LookupView::Record(id)
            &&& lookup_under(policy, asked_again(a, url).rejected) matches LookupView::BestMatch {
                rejected,
            } ==> rejected.contains(id)
        },
{
    if turned_down(a, url) is Some {
        let id = turned_down(a, url)->0;
        if !a.rejected.contains(id) {
            assert(a.rejected.push(id)[a.rejected.len() as int] == id);
        }
    }
}

/// What was turned down once stays so.
pub proof fn lemma_turned_down_stays(a: AttemptsView, url: Seq<char>, id: Seq<char>)
    requires
        a.rejected.contains(id),
    ensures
        asked_again(a, url).rejected.contains(id),
{
    if turned_down(a, url) is Some {
        let other = turned_down(a, url)->0;
        if !a.rejected.contains(other) {
            let i = choose|i: int| 0 <= i < a.rejected.len() && a.rejected[i] == id;
            assert(a.rejected.push(other)[i] == id);
        }
    }
}

// ---------------------------------------------------------------------------
// Where a remote's credentials come from
// ---------------------------------------------------------------------------
/// One place to try for a credential.
#[derive(Debug, PartialEq, Eq)]
pub enum CredentialSource {
    /// The helper that the Git configuration names.
    Helper,
    /// The SSH agent, for this user.
    SshAgent { username: String },
    /// What the system offers by itself.
    SystemDefault,
    /// The provider of the tab.
    Provider,
}

pub enum SourceView {
    Helper,
    SshAgent { username: Seq<char> },
    SystemDefault,
    Provider,
}

impl View for CredentialSource {
    type V = SourceView;

    open spec fn view(&self) -> SourceView {
        match self {
            CredentialSource::Helper => SourceView::Helper,
            CredentialSource::SshAgent { username } => SourceView::SshAgent { username: username@ },
            CredentialSource::SystemDefault => SourceView::SystemDefault,
            CredentialSource::Provider => SourceView::Provider,
        }
    }
}

pub open spec fn one_if<T>(b: bool, x: T) -> Seq<T> {
    if b {
        seq![x]
    } else {
        Seq::empty()
    }
}

/// The places to try, in order; the first that has a credential wins, and the provider is
/// asked when none has.
pub open spec fn credential_sources(
    has_config: bool,
    ssh_key: bool,
    default: bool,
    username: Option<Seq<char>>,
) -> Seq<SourceView> {
    one_if(has_config, SourceView::Helper) + one_if(
        ssh_key,
        SourceView::SshAgent {
            username: match username {
                Some(u) => u,
                None => "git"@,
            },
        },
    ) + one_if(default, SourceView::SystemDefault) + seq![SourceView::Provider]
}

pub fn credential_for_remote(has_config: bool, request: &CredentialRequest) -> (r: Vec<
    CredentialSource,
>)
    ensures
        r@.map_values(|s: CredentialSource| s@) == credential_sources(
            has_config,
            request.allowed_types.ssh_key,
            request.allowed_types.default,
            opt_view(request.username_from_url),
        ),
{
    let mut r: Vec<CredentialSource> = Vec::new();
    if has_config {
        r.push(CredentialSource::Helper);
    }
    if request.allowed_types.ssh_key {
        let username: String = match &request.username_from_url {
            Some(u) => u.clone(),
            None => "git".to_string(),
        };
        r.push(CredentialSource::SshAgent { username });
    }
    if request.allowed_types.default {
        r.push(CredentialSource::SystemDefault);
    }
    r.push(CredentialSource::Provider);
    assert(r@.map_values(|s: CredentialSource| s@) =~= credential_sources(
        has_config,
        request.allowed_types.ssh_key,
        request.allowed_types.default,
        opt_view(request.username_from_url),
    ));
    r
}

/// What is reported when the provider has no credential.
pub fn authentication_required(url: &str) -> (r: String)
    ensures
        r@ == "访问 "@ + url@ + " 需要身份验证"@,
{
    cat3("访问 ", url, " 需要身份验证")
}

/// What was used last for an address is turned down when the address asks again, and nothing else is;
/// an address that asks for the first time changes nothing.
pub proof fn lemma_what_is_turned_down(a: CredentialAttempts, url: Seq<char>)
    ensures
        match a.last_stored_attempt {
            Some((last_url, id)) if last_url@ == url => {
                &&& turned_down(a@, url) == Some(id@)
                &&& asked_again(a@, url).rejected.contains(id@)
                &&& asked_again(a@, url).last is None
                &&& forall|other: Seq<char>|
                    other != id@ ==> #[trigger] asked_again(a@, url).rejected.contains(other)
                        == a@.rejected.contains(other)
            },
            _ => turned_down(a@, url) is None && asked_again(a@, url) == a@,
        },
        a@.rejected == views(a.rejected_record_ids@),
{
    if let Some((last_url, id)) = a.last_stored_attempt {
        if last_url@ == url && !a@.rejected.contains(id@) {
            let after = a@.rejected.push(id@);
            assert(after.last() == id@);
            assert(after[after.len() - 1] == id@);
            assert forall|other: Seq<char>| other != id@ implies #[trigger] after.contains(other)
                == a@.rejected.contains(other) by {
                if after.contains(other) {
                    let k = choose|k: int| 0 <= k < after.len() && after[k] == other;
                    assert(a@.rejected[k] == other);
                }
                if a@.rejected.contains(other) {
                    let k = choose|k: int| 0 <= k < a@.rejected.len() && a@.rejected[k] == other;
                    assert(after[k] == other);
                }
            }
        }
    }
}

/// A remote that is to have no credential gets none, one that is bound to a record gets that record
/// until it was turned down, and any other gets the best one of those that were not.
pub proof fn lemma_lookups_follow_the_policy(
    lookup: Lookup,
    policy: RemoteCredentialPolicy,
    rejected: Seq<Seq<char>>,
)
    requires
        lookup@ == lookup_under(policy@, rejected),
    ensures
        match policy {
            RemoteCredentialPolicy::NoCredential => lookup is Nothing,
            RemoteCredentialPolicy::Record(id) => if rejected.contains(id@) {
                lookup is Nothing
            } else {
                lookup matches Lookup::Record(other) && other@ == id@
            },
            RemoteCredentialPolicy::AutoMatch => lookup matches Lookup::BestMatch { rejected: r }
                && views(r@) == rejected,
        },
{
}

/// A credential is asked of the helper first if there is a configuration, then of the agent if a key
/// will do, then of the system if that will do, and of the one who runs the program last, always.
pub proof fn lemma_sources_are_in_order(
    sources: Seq<CredentialSource>,
    has_config: bool,
    ssh_key: bool,
    default: bool,
    username: Option<Seq<char>>,
)
    requires
        sources.map_values(|s: CredentialSource| s@) == credential_sources(
            has_config,
            ssh_key,
            default,
            username,
        ),
    ensures
        ({
            let h = if has_config {
                1int
            } else {
                0
            };
            let k = if ssh_key {
                1int
            } else {
                0
            };
            let d = if default {
                1int
            } else {
                0
            };
            &&& sources.len() == h + k + d + 1
            &&& has_config ==> sources[0] is Helper
            &&& ssh_key ==> (sources[h] matches CredentialSource::SshAgent { username: u } && u@
                == match username {
                Some(name) => name,
                None => "git"@,
            })
            &&& default ==> sources[h + k] is SystemDefault
            &&& sources.last() is Provider
        }),
{
    let views = credential_sources(has_config, ssh_key, default, username);
    let seen = sources.map_values(|s: CredentialSource| s@);
    assert(seen.len() == sources.len());
    assert forall|i: int| 0 <= i < sources.len() implies #[trigger] sources[i]@ == views[i] by {
        assert(seen[i] == sources[i]@);
    }
    let h = if has_config {
        1int
    } else {
        0
    };
    let k = if ssh_key {
        1int
    } else {
        0
    };
    assert(sources[0]@ == views[0]);
    assert(sources[h]@ == views[h]);
    if default {
        assert(sources[h + k]@ == views[h + k]);
    }
    assert(sources[sources.len() - 1]@ == views[views.len() - 1]);
}

} // verus!
