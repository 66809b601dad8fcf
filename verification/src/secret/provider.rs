//! Where credentials come from, and what is asked of each provider.
use vstd::prelude::*;
use vstd::string::*;

use crate::error::{invalid, invalid_input, Error, ErrorKind};
use crate::text::join2;
#[allow(unused_imports)]
use crate::error::Fault;

verus! {

/// A provider of credentials.
#[derive(Debug)]
pub enum Provider {
    AwsSsm { name: String, region: Option<String> },
    AwsSecretsManager { secret_id: String, region: Option<String> },
    VaultAgent { source_file: String },
}

/// What is meant by [`Provider`].
pub enum ProviderView {
    AwsSsm { name: Seq<char>, region: Option<Seq<char>> },
    AwsSecretsManager { secret_id: Seq<char>, region: Option<Seq<char>> },
    VaultAgent { source_file: Seq<char> },
}

impl View for Provider {
    type V = ProviderView;

    open spec fn view(&self) -> ProviderView {
        match self {
            Provider::AwsSsm { name, region } => ProviderView::AwsSsm {
                name: name@,
                region: crate::args::said(*region),
            },
            Provider::AwsSecretsManager { secret_id, region } => ProviderView::AwsSecretsManager {
                secret_id: secret_id@,
                region: crate::args::said(*region),
            },
            Provider::VaultAgent { source_file } => ProviderView::VaultAgent {
                source_file: source_file@,
            },
        }
    }
}

/// What a provider is called.
pub open spec fn name_of(p: ProviderView) -> Seq<char> {
    match p {
        ProviderView::AwsSsm { .. } => "aws-ssm"@,
        ProviderView::AwsSecretsManager { .. } => "aws-secrets-manager"@,
        ProviderView::VaultAgent { .. } => "vault-agent"@,
    }
}

/// What a provider is called.
pub fn provider_name(provider: &Provider) -> (name: &'static str)
    ensures
        name@ == name_of(provider@),
{
    match provider {
        Provider::AwsSsm { .. } => "aws-ssm",
        Provider::AwsSecretsManager { .. } => "aws-secrets-manager",
        Provider::VaultAgent { .. } => "vault-agent",
    }
}

/// How credentials are fetched: by a command of the cloud's client, or from a file.
#[derive(Debug)]
pub enum Fetch {
    Command { service: String, arguments: Vec<String> },
    File { path: String },
}

/// What is meant by [`Fetch`].
pub enum FetchView {
    Command { service: Seq<char>, arguments: Seq<Seq<char>> },
    File { path: Seq<char> },
}

impl View for Fetch {
    type V = FetchView;

    open spec fn view(&self) -> FetchView {
        match self {
            Fetch::Command { service, arguments } => FetchView::Command {
                service: service@,
                arguments: crate::text::texts(arguments@),
            },
            Fetch::File { path } => FetchView::File { path: path@ },
        }
    }
}

/// The end of every command: which part of the answer is wanted and in what form, and the region
/// where one is set.
pub open spec fn query_arguments(query: Seq<char>, region: Option<Seq<char>>) -> Seq<Seq<char>> {
    let all = seq!["--query"@, query, "--output"@, "json"@, "--no-cli-pager"@];
    match region {
        Some(region) => all + seq!["--region"@, region],
        None => all,
    }
}

/// How credentials are fetched from a provider.
pub open spec fn fetch_due(p: ProviderView) -> FetchView {
    match p {
        ProviderView::AwsSsm { name, region } => FetchView::Command {
            service: "ssm"@,
            arguments: seq!["ssm"@, "get-parameter"@, "--name"@, name, "--with-decryption"@]
                + query_arguments("Parameter.Value"@, region),
        },
        ProviderView::AwsSecretsManager { secret_id, region } => FetchView::Command {
            service: "secretsmanager"@,
            arguments: seq!["secretsmanager"@, "get-secret-value"@, "--secret-id"@, secret_id]
                + query_arguments("SecretString"@, region),
        },
        ProviderView::VaultAgent { source_file } => FetchView::File { path: source_file },
    }
}

fn push_text(list: &mut Vec<String>, text: &str)
    ensures
        crate::text::texts(final(list)@) == crate::text::texts(old(list)@).push(text@),
{
    let ghost before = list@;
    list.push(String::from_str(text));
    proof {
        assert(crate::text::texts(list@) =~= crate::text::texts(before).push(text@));
    }
}

fn add_query(list: &mut Vec<String>, query: &str, region: &Option<String>)
    ensures
        crate::text::texts(final(list)@) == crate::text::texts(old(list)@) + query_arguments(
            query@,
            crate::args::said(*region),
        ),
{
    let ghost before = crate::text::texts(list@);
    push_text(list, "--query");
    push_text(list, query);
    push_text(list, "--output");
    push_text(list, "json");
    push_text(list, "--no-cli-pager");
    if let Some(region) = region {
        push_text(list, "--region");
        push_text(list, region.as_str());
    }
    proof {
        assert(crate::text::texts(list@) =~= before + query_arguments(
            query@,
            crate::args::said(*region),
        ));
    }
}

/// How credentials are fetched from a provider.
pub fn fetch(provider: &Provider) -> (f: Fetch)
    ensures
        f@ == fetch_due(provider@),
{
    let mut list: Vec<String> = Vec::new();
    match provider {
        Provider::AwsSsm { name, region } => {
            push_text(&mut list, "ssm");
            push_text(&mut list, "get-parameter");
            push_text(&mut list, "--name");
            push_text(&mut list, name.as_str());
            push_text(&mut list, "--with-decryption");
            proof {
                assert(crate::text::texts(list@) =~= seq![
                    "ssm"@,
                    "get-parameter"@,
                    "--name"@,
                    name@,
                    "--with-decryption"@,
                ]);
            }
            add_query(&mut list, "Parameter.Value", region);
            Fetch::Command { service: String::from_str("ssm"), arguments: list }
        },
        Provider::AwsSecretsManager { secret_id, region } => {
            push_text(&mut list, "secretsmanager");
            push_text(&mut list, "get-secret-value");
            push_text(&mut list, "--secret-id");
            push_text(&mut list, secret_id.as_str());
            proof {
                assert(crate::text::texts(list@) =~= seq![
                    "secretsmanager"@,
                    "get-secret-value"@,
                    "--secret-id"@,
                    secret_id@,
                ]);
            }
            add_query(&mut list, "SecretString", region);
            Fetch::Command { service: String::from_str("secretsmanager"), arguments: list }
        },
        Provider::VaultAgent { source_file } => Fetch::File { path: source_file.clone() },
    }
}

/// Whether only the identity of the workload may be used; a setting of `0` allows other credentials.
pub fn workload_identity_only(setting: &Option<String>) -> (yes: bool)
    ensures
        yes == (crate::args::said(*setting) != Some("0"@)),
{
    match setting {
        Some(s) => !crate::text::str_eq(s.as_str(), "0"),
        None => true,
    }
}

/// The settings that name static credentials.
pub open spec fn static_settings() -> Seq<Seq<char>> {
    seq![
        "AWS_ACCESS_KEY_ID"@,
        "AWS_SECRET_ACCESS_KEY"@,
        "AWS_PROFILE"@,
        "AWS_DEFAULT_PROFILE"@,
        "AWS_SHARED_CREDENTIALS_FILE"@,
    ]
}

/// The settings that name static credentials.
pub fn static_credentials() -> (names: Vec<String>)
    ensures
        crate::text::texts(names@) == static_settings(),
{
    let mut names: Vec<String> = Vec::new();
    push_text(&mut names, "AWS_ACCESS_KEY_ID");
    push_text(&mut names, "AWS_SECRET_ACCESS_KEY");
    push_text(&mut names, "AWS_PROFILE");
    push_text(&mut names, "AWS_DEFAULT_PROFILE");
    push_text(&mut names, "AWS_SHARED_CREDENTIALS_FILE");
    proof {
        assert(crate::text::texts(names@) =~= static_settings());
    }
    names
}

/// What the command sees of the environment: the settings that are given a value, and those that are
/// taken away, so that no file of credentials is read where only the identity of the workload counts.
pub open spec fn given_settings(identity_only: bool) -> Seq<Seq<char>> {
    if identity_only {
        seq!["AWS_SHARED_CREDENTIALS_FILE"@, "AWS_CONFIG_FILE"@]
    } else {
        Seq::empty()
    }
}

/// The settings that the command does not see.
pub open spec fn hidden_settings(identity_only: bool) -> Seq<Seq<char>> {
    if identity_only {
        seq!["AWS_PROFILE"@, "AWS_DEFAULT_PROFILE"@, "AWS_SDK_LOAD_CONFIG"@]
    } else {
        Seq::empty()
    }
}

/// The settings of the command that name the empty file, and those that are taken away from it.
pub fn command_settings(identity_only: bool) -> (r: (Vec<String>, Vec<String>))
    ensures
        ({
            let (given, hidden) = r;
            &&& crate::text::texts(given@) == given_settings(identity_only)
            &&& crate::text::texts(hidden@) == hidden_settings(identity_only)
        }),
{
    let mut given: Vec<String> = Vec::new();
    let mut hidden: Vec<String> = Vec::new();
    if identity_only {
        push_text(&mut given, "AWS_SHARED_CREDENTIALS_FILE");
        push_text(&mut given, "AWS_CONFIG_FILE");
        push_text(&mut hidden, "AWS_PROFILE");
        push_text(&mut hidden, "AWS_DEFAULT_PROFILE");
        push_text(&mut hidden, "AWS_SDK_LOAD_CONFIG");
    }
    proof {
        assert(crate::text::texts(given@) =~= given_settings(identity_only));
        assert(crate::text::texts(hidden@) =~= hidden_settings(identity_only));
    }
    (given, hidden)
}

/// Refuses credentials that the environment holds. `present` says of each setting that could name
/// some whether it is there.
pub fn check_identity(identity_only: bool, present: &Vec<bool>) -> (r: Result<(), Error>)
    ensures
        match r {
            Ok(_) => !(identity_only && present@.contains(true)),
            Err(e) => identity_only && present@.contains(true) && e@ == (
                ErrorKind::PermissionDenied,
                "static AWS access-key/profile configuration is disabled; use an instance role, IRSA, EKS Pod Identity, web identity, or set ZCSECRET_REQUIRE_AWS_WORKLOAD_IDENTITY=0 only for migration"@,
            ),
        },
{
    if !identity_only {
        return Ok(());
    }
    let mut i: usize = 0;
    while i < present.len()
        invariant
            i <= present@.len(),
            identity_only,
            forall|k: int| 0 <= k < i ==> !#[trigger] present@[k],
        decreases present@.len() - i,
    {
        if present[i] {
            proof {
                assert(present@[i as int] == true);
            }
            return Err(
                Error::of(
                    ErrorKind::PermissionDenied,
                    "static AWS access-key/profile configuration is disabled; use an instance role, IRSA, EKS Pod Identity, web identity, or set ZCSECRET_REQUIRE_AWS_WORKLOAD_IDENTITY=0 only for migration",
                ),
            );
        }
        i = i + 1;
    }
    Ok(())
}

/// The string that a JSON document holds, or why it holds none.
pub uninterp spec fn json_string_of(document: Seq<u8>) -> Result<Seq<char>, Seq<char>>;

/// `serde_json::from_slice` for a string: gives the string, or the words of the parser's complaint.
/// Both depend on the document alone.
#[verifier::external_body]
fn json_string(document: &[u8]) -> (r: Result<String, String>)
    ensures
        match r {
            Ok(s) => json_string_of(document@) == Ok::<Seq<char>, Seq<char>>(s@),
            Err(e) => json_string_of(document@) == Err::<Seq<char>, Seq<char>>(e@),
        },
{
    let parsed: Result<String, serde_json::Error> = serde_json::from_slice(document);
    parsed.map_err(|e| e.to_string())
}

/// What a command has brought: whether it succeeded, how it ended, and what it wrote.
#[derive(Debug)]
pub struct CommandResult {
    pub success: bool,
    pub status: String,
    pub stdout: Vec<u8>,
}

/// The secret in the answer of a command, where `parsed` is the string that the answer holds.
pub open spec fn secret_due(
    service: Seq<char>,
    success: bool,
    status: Seq<char>,
    size: nat,
    parsed: Result<Seq<char>, Seq<char>>,
) -> Result<Seq<char>, Fault> {
    if !success {
        Err((ErrorKind::Other, "AWS CLI "@ + service + " materializer exited with "@ + status))
    } else if size > 131072 {
        Err(crate::error::bad_input("AWS secret response exceeds 128 KiB"@))
    } else {
        match parsed {
            Ok(text) => Ok(text),
            Err(e) => Err(crate::error::bad_input("AWS secret value is not a JSON string: "@ + e)),
        }
    }
}

/// Checks how a command ended and how much it wrote.
pub fn check_result(service: &str, result: &CommandResult) -> (r: Result<(), Error>)
    ensures
        match r {
            Ok(_) => result.success && result.stdout@.len() <= 131072,
            Err(e) => secret_due(
                service@,
                result.success,
                result.status@,
                result.stdout@.len(),
                Ok(Seq::empty()),
            ) == Err::<Seq<char>, Fault>(e@),
        },
{
    if !result.success {
        let head: String = crate::text::join3("AWS CLI ", service, " materializer exited with ");
        return Err(Error::new(ErrorKind::Other, join2(head.as_str(), result.status.as_str())));
    }
    if result.stdout.len() > 131072 {
        return Err(invalid("AWS secret response exceeds 128 KiB"));
    }
    Ok(())
}

/// What becomes of the string that an answer holds, or of the complaint that it holds none.
pub fn read_secret(parsed: Result<String, String>) -> (r: Result<String, Error>)
    ensures
        match (parsed, r) {
            (Ok(text), Ok(s)) => s@ == text@,
            (Err(complaint), Err(e)) => e@ == crate::error::bad_input(
                "AWS secret value is not a JSON string: "@ + complaint@,
            ),
            _ => false,
        },
{
    match parsed {
        Ok(text) => Ok(text),
        Err(e) => Err(
            invalid_input(join2("AWS secret value is not a JSON string: ", e.as_str())),
        ),
    }
}

/// The secret in the answer of a command.
pub fn aws_secret(service: &str, result: &CommandResult) -> (r: Result<String, Error>)
    ensures
        match r {
            Ok(s) => secret_due(
                service@,
                result.success,
                result.status@,
                result.stdout@.len(),
                json_string_of(result.stdout@),
            ) == Ok::<Seq<char>, Fault>(s@),
            Err(e) => secret_due(
                service@,
                result.success,
                result.status@,
                result.stdout@.len(),
                json_string_of(result.stdout@),
            ) == Err::<Seq<char>, Fault>(e@),
        },
{
    match check_result(service, result) {
        Ok(_) => {},
        Err(e) => {
            return Err(e);
        },
    }
    read_secret(json_string(result.stdout.as_slice()))
}

/// A secret is taken only from a command that succeeded, with an answer of at most 128 KiB that reads as a
/// text; it is then that text.
pub proof fn law_secrets_are_taken_from_sound_answers(
    service: Seq<char>,
    success: bool,
    status: Seq<char>,
    size: nat,
    parsed: Result<Seq<char>, Seq<char>>,
)
    ensures
        secret_due(service, success, status, size, parsed) is Ok <==> success && size <= 128 * 1024
            && parsed is Ok,
        secret_due(service, success, status, size, parsed) matches Ok(text) ==> parsed == Ok::<
            Seq<char>,
            Seq<char>,
        >(text),
{
}

/// A secret is asked for by its own name, in the region that was named, if one was; a file is read where it
/// lies.
pub proof fn law_secrets_are_asked_for_by_name(name: Seq<char>, region: Seq<char>, path: Seq<char>)
    ensures
        fetch_due(ProviderView::AwsSsm { name, region: Some(region) }) matches FetchView::Command {
            arguments,
            ..
        } && arguments.contains(name) && arguments.last() == region,
        fetch_due(ProviderView::AwsSecretsManager { secret_id: name, region: Some(region) })
            matches FetchView::Command { arguments, .. } && arguments.contains(name)
            && arguments.last() == region,
        fetch_due(ProviderView::VaultAgent { source_file: path }) == (FetchView::File { path }),
{
    let a = fetch_due(ProviderView::AwsSsm { name, region: Some(region) });
    let b = fetch_due(ProviderView::AwsSecretsManager { secret_id: name, region: Some(region) });
    assert(a->arguments[3] == name);
    assert(b->arguments[3] == name);
}

} // verus!
