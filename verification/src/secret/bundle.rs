//! The published credentials, and when others take their place.
use vstd::prelude::*;
use vstd::string::*;

use crate::error::{invalid, invalid_input, Error};
use crate::text::{decimal, join2, join4, str_eq};
#[allow(unused_imports)]
use crate::error::Fault;

verus! {

/// One credential.
#[derive(Debug)]
pub struct Credential {
    pub id: String,
    pub secret: String,
    pub expires_at_unix_ms: u64,
}

/// What is meant by [`Credential`].
pub struct CredentialView {
    pub id: Seq<char>,
    pub secret: Seq<char>,
    pub expires_at_unix_ms: u64,
}

impl View for Credential {
    type V = CredentialView;

    open spec fn view(&self) -> CredentialView {
        CredentialView {
            id: self.id@,
            secret: self.secret@,
            expires_at_unix_ms: self.expires_at_unix_ms,
        }
    }
}

/// The credentials of one generation. `rest` holds what else stands in the document.
#[derive(Debug)]
pub struct SecretBundle {
    pub generation: u64,
    pub active_id: String,
    pub credentials: Vec<Credential>,
    pub rest: String,
}

/// What is meant by [`SecretBundle`].
pub struct BundleView {
    pub generation: u64,
    pub active_id: Seq<char>,
    pub credentials: Seq<CredentialView>,
    pub rest: Seq<char>,
}

/// What is meant by some credentials.
pub open spec fn credential_views(v: Seq<Credential>) -> Seq<CredentialView> {
    v.map_values(|c: Credential| c@)
}

impl View for SecretBundle {
    type V = BundleView;

    open spec fn view(&self) -> BundleView {
        BundleView {
            generation: self.generation,
            active_id: self.active_id@,
            credentials: credential_views(self.credentials@),
            rest: self.rest@,
        }
    }
}

impl Credential {
    fn same(&self, other: &Credential) -> (yes: bool)
        ensures
            yes == (self@ == other@),
    {
        self.expires_at_unix_ms == other.expires_at_unix_ms && str_eq(
            self.id.as_str(),
            other.id.as_str(),
        ) && str_eq(self.secret.as_str(), other.secret.as_str())
    }
}

impl SecretBundle {
    /// Whether two bundles hold the same.
    pub fn same(&self, other: &SecretBundle) -> (yes: bool)
        ensures
            yes == (self@ == other@),
    {
        if self.generation != other.generation || !str_eq(
            self.active_id.as_str(),
            other.active_id.as_str(),
        ) || !str_eq(self.rest.as_str(), other.rest.as_str()) {
            return false;
        }
        let n: usize = self.credentials.len();
        if n != other.credentials.len() {
            proof {
                assert(self@.credentials.len() != other@.credentials.len());
            }
            return false;
        }
        let mut i: usize = 0;
        while i < n
            invariant
                i <= n,
                n == self.credentials@.len(),
                n == other.credentials@.len(),
                forall|k: int|
                    0 <= k < i ==> (#[trigger] self.credentials@[k])@ == other.credentials@[k]@,
            decreases n - i,
        {
            if !self.credentials[i].same(&other.credentials[i]) {
                proof {
                    assert(self@.credentials[i as int] != other@.credentials[i as int]);
                }
                return false;
            }
            i = i + 1;
        }
        proof {
            assert(self@.credentials =~= other@.credentials);
        }
        true
    }
}

/// Whether a candidate is to be published: it is, unless it is what was published already; it is
/// refused where its generation is lower, or the same with other contents.
pub open spec fn publication(published: Option<BundleView>, candidate: BundleView) -> Result<
    bool,
    Fault,
> {
    match published {
        None => Ok(true),
        Some(current) => if candidate.generation < current.generation {
            Err(
                crate::error::bad_input(
                    "provider credential generation rolled back from "@ + crate::text::decimal_text(
                        current.generation as nat,
                    ) + " to "@ + crate::text::decimal_text(candidate.generation as nat),
                ),
            )
        } else if candidate == current {
            Ok(false)
        } else if candidate.generation == current.generation {
            Err(
                crate::error::bad_input(
                    "provider reused a credential generation with different contents"@,
                ),
            )
        } else {
            Ok(true)
        },
    }
}

/// What is meant by a bundle that may not be there.
pub open spec fn bundle_view(b: Option<SecretBundle>) -> Option<BundleView> {
    match b {
        Some(b) => Some(b@),
        None => None,
    }
}

/// Whether a candidate is to be published.
pub fn publish_if_advanced(published: &Option<SecretBundle>, candidate: &SecretBundle) -> (r: Result<
    bool,
    Error,
>)
    ensures
        crate::error::agrees(r, publication(bundle_view(*published), candidate@)),
{
    match published {
        None => Ok(true),
        Some(current) => if candidate.generation < current.generation {
            let from: String = decimal(current.generation);
            let to: String = decimal(candidate.generation);
            Err(
                invalid_input(
                    join4(
                        "provider credential generation rolled back from ",
                        from.as_str(),
                        " to ",
                        to.as_str(),
                    ),
                ),
            )
        } else if candidate.same(current) {
            Ok(false)
        } else if candidate.generation == current.generation {
            Err(invalid("provider reused a credential generation with different contents"))
        } else {
            Ok(true)
        },
    }
}

/// What is published once a candidate was offered.
pub open spec fn after_offer(published: Option<BundleView>, candidate: BundleView) -> Option<
    BundleView,
> {
    if publication(published, candidate) == Ok::<bool, Fault>(true) {
        Some(candidate)
    } else {
        published
    }
}

/// What is published once some candidates were offered in turn.
pub open spec fn after_offers(published: Option<BundleView>, candidates: Seq<BundleView>) -> Option<
    BundleView,
>
    decreases candidates.len(),
{
    if candidates.len() == 0 {
        published
    } else {
        after_offer(after_offers(published, candidates.drop_last()), candidates.last())
    }
}

/// Whatever a provider offers, the published generation never goes back, and where it stays the
/// contents stay too.
pub proof fn law_publication_never_rolls_back(
    published: BundleView,
    candidates: Seq<BundleView>,
)
    ensures
        after_offers(Some(published), candidates) is Some,
        published.generation <= after_offers(Some(published), candidates)->0.generation,
        published.generation == after_offers(Some(published), candidates)->0.generation
            ==> after_offers(Some(published), candidates) == Some(published),
    decreases candidates.len(),
{
    if candidates.len() > 0 {
        law_publication_never_rolls_back(published, candidates.drop_last());
    }
}

/// A refused candidate leaves what is published as it is.
pub proof fn law_a_refused_candidate_changes_nothing(
    published: Option<BundleView>,
    candidate: BundleView,
)
    requires
        publication(published, candidate) is Err,
    ensures
        after_offer(published, candidate) == published,
{
}

/// When a credential expires: the first of an id, from an index on; zero where there is none.
pub open spec fn expiry_of(credentials: Seq<CredentialView>, id: Seq<char>, i: int) -> u64
    decreases credentials.len() - i,
{
    if i < 0 || i >= credentials.len() {
        0
    } else if credentials[i].id == id {
        credentials[i].expires_at_unix_ms
    } else {
        expiry_of(credentials, id, i + 1)
    }
}

/// When the active credential expires.
pub fn active_expiry(b: &SecretBundle) -> (ms: u64)
    ensures
        ms == expiry_of(b@.credentials, b@.active_id, 0),
{
    let n: usize = b.credentials.len();
    let mut i: usize = 0;
    while i < n
        invariant
            i <= n,
            n == b.credentials@.len(),
            expiry_of(b@.credentials, b@.active_id, 0) == expiry_of(
                b@.credentials,
                b@.active_id,
                i as int,
            ),
        decreases n - i,
    {
        if str_eq(b.credentials[i].id.as_str(), b.active_id.as_str()) {
            return b.credentials[i].expires_at_unix_ms;
        }
        i = i + 1;
    }
    0
}

/// What is reported of a publication; the secrets are not in it.
pub open spec fn published_text(output: Seq<char>, b: BundleView) -> Seq<char> {
    "ZCSECRET_PUBLISHED path="@ + output + " generation="@ + crate::text::decimal_text(
        b.generation as nat,
    ) + " active_id="@ + b.active_id + " expires_at_unix_ms="@ + crate::text::decimal_text(
        expiry_of(b.credentials, b.active_id, 0) as nat,
    ) + " secret=redacted"@
}

/// What is reported of a publication.
pub fn published_line(output: &str, b: &SecretBundle) -> (line: String)
    ensures
        line@ == published_text(output@, b@),
{
    let generation: String = decimal(b.generation);
    let expiry: String = decimal(active_expiry(b));
    let head: String = join4("ZCSECRET_PUBLISHED path=", output, " generation=", generation.as_str());
    let middle: String = join4(
        head.as_str(),
        " active_id=",
        b.active_id.as_str(),
        " expires_at_unix_ms=",
    );
    let body: String = join2(middle.as_str(), expiry.as_str());
    join2(body.as_str(), " secret=redacted")
}

/// Whether a failed refresh is survived: something is published, and there will be another try.
pub fn survives_failure(published: &Option<SecretBundle>, interval: Option<u64>) -> (yes: bool)
    ensures
        yes == (published is Some && interval is Some),
{
    published.is_some() && interval.is_some()
}

/// What is reported of a refresh that failed and is tried again.
pub fn retained_line(provider: &str, published: &Option<SecretBundle>, error: &str) -> (line: String)
    ensures
        line@ == "ZCSECRET_REFRESH_RETAIN provider="@ + provider@ + " generation="@
            + crate::text::decimal_text(
            match bundle_view(*published) {
                Some(b) => b.generation as nat,
                None => 0nat,
            },
        ) + " error="@ + error@,
{
    let generation: u64 = match published {
        Some(b) => b.generation,
        None => 0,
    };
    let digits: String = decimal(generation);
    let head: String = join4(
        "ZCSECRET_REFRESH_RETAIN provider=",
        provider,
        " generation=",
        digits.as_str(),
    );
    let body: String = join2(head.as_str(), " error=");
    join2(body.as_str(), error)
}

/// A bundle is published exactly where nothing was published before or its generation is newer; it is left
/// alone where it is what is published already, and refused otherwise.
pub proof fn law_only_newer_generations_are_published(
    current: BundleView,
    candidate: BundleView,
)
    ensures
        publication(None, candidate) == Ok::<bool, Fault>(true),
        publication(Some(current), candidate) == Ok::<bool, Fault>(true) <==> candidate.generation
            > current.generation,
        publication(Some(current), candidate) == Ok::<bool, Fault>(false) <==> candidate == current,
        publication(Some(current), candidate) is Err <==> candidate.generation < current.generation || (
        candidate.generation == current.generation && candidate != current),
{
}

proof fn lemma_expiry(credentials: Seq<CredentialView>, id: Seq<char>, i: int)
    requires
        0 <= i,
    ensures
        (forall|k: int| i <= k < credentials.len() ==> (#[trigger] credentials[k]).id != id)
            ==> expiry_of(credentials, id, i) == 0,
        forall|k: int|
            i <= k < credentials.len() && (#[trigger] credentials[k]).id == id && (forall|j: int|
                i <= j < k ==> (#[trigger] credentials[j]).id != id) ==> expiry_of(
                credentials,
                id,
                i,
            ) == credentials[k].expires_at_unix_ms,
    decreases credentials.len() - i,
{
    if i < credentials.len() {
        lemma_expiry(credentials, id, i + 1);
    }
}

/// The expiry that is told is that of the first credential with the active identifier.
pub proof fn law_the_active_credential_tells_the_expiry(
    credentials: Seq<CredentialView>,
    id: Seq<char>,
    k: int,
)
    requires
        0 <= k < credentials.len(),
        credentials[k].id == id,
        forall|j: int| 0 <= j < k ==> (#[trigger] credentials[j]).id != id,
    ensures
        expiry_of(credentials, id, 0) == credentials[k].expires_at_unix_ms,
{
    lemma_expiry(credentials, id, 0);
}

proof fn lemma_expiry_ignores_secrets(
    a: Seq<CredentialView>,
    b: Seq<CredentialView>,
    id: Seq<char>,
    i: int,
)
    requires
        0 <= i,
        a.len() == b.len(),
        forall|k: int|
            0 <= k < a.len() ==> (#[trigger] a[k]).id == b[k].id && a[k].expires_at_unix_ms
                == b[k].expires_at_unix_ms,
    ensures
        expiry_of(a, id, i) == expiry_of(b, id, i),
    decreases a.len() - i,
{
    if i < a.len() {
        assert(a[i].id == b[i].id);
        lemma_expiry_ignores_secrets(a, b, id, i + 1);
    }
}

/// The line about a published bundle does not depend on its secrets: two bundles that differ in them alone
/// are told of in the same words.
pub proof fn law_the_line_does_not_tell_the_secret(output: Seq<char>, a: BundleView, b: BundleView)
    requires
        a.generation == b.generation,
        a.active_id == b.active_id,
        a.credentials.len() == b.credentials.len(),
        forall|k: int|
            0 <= k < a.credentials.len() ==> (#[trigger] a.credentials[k]).id == b.credentials[k].id
                && a.credentials[k].expires_at_unix_ms == b.credentials[k].expires_at_unix_ms,
    ensures
        published_text(output, a) == published_text(output, b),
{
    lemma_expiry_ignores_secrets(a.credentials, b.credentials, a.active_id, 0);
}

} // verus!
