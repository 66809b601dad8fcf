//! The command line and the environment of the credential materializer.
use vstd::prelude::*;
use vstd::string::*;

use crate::error::{invalid, invalid_input, Error};
use crate::secret::provider::Provider;
use crate::text::{drop_tail, ends_with, join2, parse_size, parse_unsigned, str_eq};
#[allow(unused_imports)]
use crate::error::Fault;
#[allow(unused_imports)]
use crate::secret::provider::ProviderView;

verus! {

/// A text without its ending and the milliseconds in one of its units.
pub open spec fn duration_parts(value: Seq<char>) -> (Seq<char>, nat) {
    if crate::text::finishes_with(value, "ms"@) {
        (value.subrange(0, value.len() - 2), 1)
    } else if crate::text::finishes_with(value, "s"@) {
        (value.subrange(0, value.len() - 1), 1_000)
    } else if crate::text::finishes_with(value, "m"@) {
        (value.subrange(0, value.len() - 1), 60_000)
    } else if crate::text::finishes_with(value, "h"@) {
        (value.subrange(0, value.len() - 1), 3_600_000)
    } else if crate::text::finishes_with(value, "d"@) {
        (value.subrange(0, value.len() - 1), 86_400_000)
    } else {
        (value, 1)
    }
}

/// The milliseconds that a text gives.
pub open spec fn duration_due(value: Seq<char>, name: Seq<char>) -> Result<u64, Fault> {
    let (number, unit) = duration_parts(value);
    match crate::text::unsigned_value(number, u64::MAX as nat) {
        None => Err(crate::error::bad_input(name + " must be an integer duration"@)),
        Some(n) => if n * unit > u64::MAX {
            Err(crate::error::bad_input(name + " duration overflow"@))
        } else {
            Ok((n * unit) as u64)
        },
    }
}

fn parts_of(value: &str) -> (r: (String, u64))
    ensures
        ({
            let (number, unit) = r;
            duration_parts(value@) == (number@, unit as nat)
        }),
{
    proof {
        reveal_strlit("ms");
        reveal_strlit("s");
        reveal_strlit("m");
        reveal_strlit("h");
        reveal_strlit("d");
    }
    if ends_with(value, "ms") {
        (drop_tail(value, 2), 1)
    } else if ends_with(value, "s") {
        (drop_tail(value, 1), 1_000)
    } else if ends_with(value, "m") {
        (drop_tail(value, 1), 60_000)
    } else if ends_with(value, "h") {
        (drop_tail(value, 1), 3_600_000)
    } else if ends_with(value, "d") {
        (drop_tail(value, 1), 86_400_000)
    } else {
        (String::from_str(value), 1)
    }
}

/// The milliseconds that a text gives.
pub fn parse_duration_ms(value: &str, name: &str) -> (r: Result<u64, Error>)
    ensures
        crate::error::agrees(r, duration_due(value@, name@)),
{
    let (number, unit): (String, u64) = parts_of(value);
    match parse_unsigned(number.as_str(), u64::MAX) {
        None => Err(invalid_input(join2(name, " must be an integer duration"))),
        Some(n) => match n.checked_mul(unit) {
            Some(ms) => Ok(ms),
            None => Err(invalid_input(join2(name, " duration overflow"))),
        },
    }
}

/// The pause between two refreshes, in milliseconds.
pub open spec fn interval_due(value: Seq<char>) -> Result<u64, Fault> {
    match duration_due(value, "interval"@) {
        Err(e) => Err(e),
        Ok(ms) => if ms == 0 {
            Err(crate::error::bad_input("interval must be greater than zero"@))
        } else {
            Ok(ms)
        },
    }
}

/// The pause between two refreshes, in milliseconds.
pub fn parse_duration(value: &str) -> (r: Result<u64, Error>)
    ensures
        crate::error::agrees(r, interval_due(value@)),
{
    match parse_duration_ms(value, "interval") {
        Err(e) => Err(e),
        Ok(ms) => if ms == 0 {
            Err(invalid("interval must be greater than zero"))
        } else {
            Ok(ms)
        },
    }
}

/// What a command line asks for. The interval is in milliseconds.
#[derive(Debug)]
pub struct Options {
    pub provider: Provider,
    pub output: String,
    pub interval: Option<u64>,
}

/// What is meant by [`Options`].
pub struct OptionsView {
    pub provider: ProviderView,
    pub output: Seq<char>,
    pub interval: Option<u64>,
}

impl View for Options {
    type V = OptionsView;

    open spec fn view(&self) -> OptionsView {
        OptionsView { provider: self.provider@, output: self.output@, interval: self.interval }
    }
}

struct Draft {
    provider: Option<String>,
    name: Option<String>,
    secret_id: Option<String>,
    region: Option<String>,
    source_file: Option<String>,
    output: Option<String>,
    interval: Option<u64>,
}

/// What the options read so far say.
pub struct DraftView {
    pub provider: Option<Seq<char>>,
    pub name: Option<Seq<char>>,
    pub secret_id: Option<Seq<char>>,
    pub region: Option<Seq<char>>,
    pub source_file: Option<Seq<char>>,
    pub output: Option<Seq<char>>,
    pub interval: Option<u64>,
}

impl Draft {
    spec fn meant(&self) -> DraftView {
        DraftView {
            provider: crate::args::said(self.provider),
            name: crate::args::said(self.name),
            secret_id: crate::args::said(self.secret_id),
            region: crate::args::said(self.region),
            source_file: crate::args::said(self.source_file),
            output: crate::args::said(self.output),
            interval: self.interval,
        }
    }
}

/// Nothing said.
pub open spec fn nothing_said() -> DraftView {
    DraftView {
        provider: None,
        name: None,
        secret_id: None,
        region: None,
        source_file: None,
        output: None,
        interval: None,
    }
}

/// `d` with one more option and its value.
pub open spec fn with_option(d: DraftView, flag: Seq<char>, value: Seq<char>) -> Result<
    DraftView,
    Fault,
> {
    if flag == "--provider"@ {
        Ok(DraftView { provider: Some(value), ..d })
    } else if flag == "--name"@ {
        Ok(DraftView { name: Some(value), ..d })
    } else if flag == "--secret-id"@ {
        Ok(DraftView { secret_id: Some(value), ..d })
    } else if flag == "--region"@ {
        Ok(DraftView { region: Some(value), ..d })
    } else if flag == "--source-file"@ {
        Ok(DraftView { source_file: Some(value), ..d })
    } else if flag == "--output"@ {
        Ok(DraftView { output: Some(value), ..d })
    } else if flag == "--interval"@ {
        match interval_due(value) {
            Ok(ms) => Ok(DraftView { interval: Some(ms), ..d }),
            Err(e) => Err(e),
        }
    } else {
        Err(crate::error::bad_input("unknown argument "@ + flag))
    }
}

impl Draft {
    fn with(self, flag: &str, value: String) -> (r: Result<Draft, Error>)
        ensures
            match r {
                Ok(d) => with_option(self.meant(), flag@, value@) == Ok::<DraftView, Fault>(
                    d.meant(),
                ),
                Err(e) => with_option(self.meant(), flag@, value@) == Err::<DraftView, Fault>(e@),
            },
    {
        let mut d: Draft = self;
        if str_eq(flag, "--provider") {
            d.provider = Some(value);
        } else if str_eq(flag, "--name") {
            d.name = Some(value);
        } else if str_eq(flag, "--secret-id") {
            d.secret_id = Some(value);
        } else if str_eq(flag, "--region") {
            d.region = Some(value);
        } else if str_eq(flag, "--source-file") {
            d.source_file = Some(value);
        } else if str_eq(flag, "--output") {
            d.output = Some(value);
        } else if str_eq(flag, "--interval") {
            match parse_duration(value.as_str()) {
                Ok(ms) => {
                    d.interval = Some(ms);
                },
                Err(e) => {
                    return Err(e);
                },
            }
        } else {
            return Err(invalid_input(join2("unknown argument ", flag)));
        }
        Ok(d)
    }
}

/// What a command line says in all: options, each with a value.
pub open spec fn drafted(rest: Seq<Seq<char>>, d: DraftView) -> Result<DraftView, Fault>
    decreases rest.len(),
{
    if rest.len() == 0 {
        Ok(d)
    } else {
        match crate::args::nth(rest, 1) {
            None => Err(crate::error::bad_input(rest[0] + " requires a value"@)),
            Some(value) => match with_option(d, rest[0], value) {
                Err(e) => Err(e),
                Ok(next) => drafted(crate::args::after(rest, 2), next),
            },
        }
    }
}

/// What is meant where the options that were given are complete.
pub open spec fn completed(d: DraftView) -> Result<OptionsView, Fault> {
    let provider = if d.provider == Some("aws-ssm"@) {
        match d.name {
            Some(name) => Ok(ProviderView::AwsSsm { name, region: d.region }),
            None => Err(crate::error::bad_input("aws-ssm requires --name"@)),
        }
    } else if d.provider == Some("aws-secrets-manager"@) || d.provider == Some(
        "aws-secretsmanager"@,
    ) {
        match d.secret_id {
            Some(secret_id) => Ok(ProviderView::AwsSecretsManager { secret_id, region: d.region }),
            None => Err(crate::error::bad_input("aws-secrets-manager requires --secret-id"@)),
        }
    } else if d.provider == Some("vault-agent"@) {
        match d.source_file {
            Some(source_file) => Ok(ProviderView::VaultAgent { source_file }),
            None => Err(crate::error::bad_input("vault-agent requires --source-file"@)),
        }
    } else {
        Err(crate::error::bad_input(usage_text()))
    };
    match provider {
        Err(e) => Err(e),
        Ok(provider) => match d.output {
            Some(output) => Ok(OptionsView { provider, output, interval: d.interval }),
            None => Err(crate::error::bad_input("--output is required"@)),
        },
    }
}

fn complete(d: Draft) -> (r: Result<Options, Error>)
    ensures
        match r {
            Ok(o) => completed(d.meant()) == Ok::<OptionsView, Fault>(o@),
            Err(e) => completed(d.meant()) == Err::<OptionsView, Fault>(e@),
        },
{
    let word: String = match d.provider {
        Some(word) => word,
        None => {
            return Err(usage());
        },
    };
    let provider: Provider = if str_eq(word.as_str(), "aws-ssm") {
        match d.name {
            Some(name) => Provider::AwsSsm { name, region: d.region },
            None => {
                return Err(invalid("aws-ssm requires --name"));
            },
        }
    } else if str_eq(word.as_str(), "aws-secrets-manager") || str_eq(
        word.as_str(),
        "aws-secretsmanager",
    ) {
        match d.secret_id {
            Some(secret_id) => Provider::AwsSecretsManager { secret_id, region: d.region },
            None => {
                return Err(invalid("aws-secrets-manager requires --secret-id"));
            },
        }
    } else if str_eq(word.as_str(), "vault-agent") {
        match d.source_file {
            Some(source_file) => Provider::VaultAgent { source_file },
            None => {
                return Err(invalid("vault-agent requires --source-file"));
            },
        }
    } else {
        return Err(usage());
    };
    match d.output {
        Some(output) => Ok(Options { provider, output, interval: d.interval }),
        None => Err(invalid("--output is required")),
    }
}

/// What a command line asks for. The word `sync` may stand first.
pub open spec fn options_due(args: Seq<Seq<char>>) -> Result<OptionsView, Fault> {
    if args.len() == 0 || args[0] == "-h"@ || args[0] == "--help"@ || args[0] == "help"@ {
        Err(crate::error::bad_input(usage_text()))
    } else {
        let rest = if args[0] == "sync"@ {
            args.skip(1)
        } else {
            args
        };
        match drafted(rest, nothing_said()) {
            Err(e) => Err(e),
            Ok(d) => completed(d),
        }
    }
}

/// What a command line asks for.
pub fn parse_args(args: &Vec<String>) -> (r: Result<Options, Error>)
    ensures
        match r {
            Ok(o) => options_due(crate::text::texts(args@)) == Ok::<OptionsView, Fault>(o@),
            Err(e) => options_due(crate::text::texts(args@)) == Err::<OptionsView, Fault>(e@),
        },
{
    let count: usize = args.len();
    if count == 0 {
        return Err(usage());
    }
    let ghost views = crate::text::texts(args@);
    let word: &str = args[0].as_str();
    proof {
        assert(views[0] == word@);
        assert(views.skip(0) =~= views);
    }
    if str_eq(word, "-h") || str_eq(word, "--help") || str_eq(word, "help") {
        return Err(usage());
    }
    let mut i: usize = if str_eq(word, "sync") {
        1
    } else {
        0
    };
    let ghost goal = drafted(views.skip(i as int), nothing_said());
    let mut draft: Draft = Draft {
        provider: None,
        name: None,
        secret_id: None,
        region: None,
        source_file: None,
        output: None,
        interval: None,
    };
    while i < count
        invariant
            i <= count,
            count == args@.len(),
            views == crate::text::texts(args@),
            goal == drafted(views.skip(i as int), draft.meant()),
            options_due(views) == match goal {
                Err(e) => Err::<OptionsView, Fault>(e),
                Ok(d) => completed(d),
            },
        decreases count - i,
    {
        let ghost rest = views.skip(i as int);
        let flag: &str = args[i].as_str();
        proof {
            assert(rest[0] == flag@);
            assert(crate::args::nth(rest, 1) == crate::args::nth(views, i + 1));
        }
        if count - i < 2 {
            return Err(invalid_input(join2(flag, " requires a value")));
        }
        proof {
            assert(crate::args::after(rest, 2) =~= views.skip(i + 2));
        }
        draft = match draft.with(flag, args[i + 1].clone()) {
            Ok(d) => d,
            Err(e) => {
                return Err(e);
            },
        };
        i = i + 2;
    }
    proof {
        assert(views.skip(i as int).len() == 0);
    }
    complete(draft)
}

/// How the materializer is called.
pub open spec fn usage_text() -> Seq<char> {
    "usage:\n  zcsecret-materialize sync --provider aws-ssm --name PARAMETER [--region REGION] --output FILE [--interval DURATION]\n  zcsecret-materialize sync --provider aws-secrets-manager --secret-id ID [--region REGION] --output FILE [--interval DURATION]\n  zcsecret-materialize sync --provider vault-agent --source-file FILE --output FILE [--interval DURATION]"@
}

/// The complaint that shows how the materializer is called.
pub fn usage() -> (e: Error)
    ensures
        e@ == crate::error::bad_input(usage_text()),
{
    invalid(
        "usage:\n  zcsecret-materialize sync --provider aws-ssm --name PARAMETER [--region REGION] --output FILE [--interval DURATION]\n  zcsecret-materialize sync --provider aws-secrets-manager --secret-id ID [--region REGION] --output FILE [--interval DURATION]\n  zcsecret-materialize sync --provider vault-agent --source-file FILE --output FILE [--interval DURATION]",
    )
}

/// A setting of the environment under its own name and under an older one.
#[derive(Debug)]
pub struct Setting {
    pub primary: Option<String>,
    pub fallback: Option<String>,
}

impl Setting {
    /// What the setting says, or else what is usual.
    pub open spec fn says(&self, usual: Seq<char>) -> Seq<char> {
        match self.primary {
            Some(s) => s@,
            None => match self.fallback {
                Some(s) => s@,
                None => usual,
            },
        }
    }

    fn value(&self, usual: &str) -> (s: String)
        ensures
            s@ == self.says(usual@),
    {
        match &self.primary {
            Some(s) => s.clone(),
            None => match &self.fallback {
                Some(s) => s.clone(),
                None => String::from_str(usual),
            },
        }
    }
}

/// The milliseconds that a setting gives.
pub fn duration_env_ms(setting: &Setting, primary: &str, usual: &str) -> (r: Result<u64, Error>)
    ensures
        crate::error::agrees(r, duration_due(setting.says(usual@), primary@)),
{
    let value: String = setting.value(usual);
    parse_duration_ms(value.as_str(), primary)
}

/// The settings that make up a policy.
#[derive(Debug)]
pub struct PolicyEnvironment {
    pub maximum_ttl: Setting,
    pub rotate_before: Setting,
    pub activation_clock_skew: Setting,
    pub maximum_versions: Setting,
}

/// What credentials must be like.
#[derive(Clone, Copy, Debug, PartialEq, Eq, Structural)]
pub struct SecretPolicy {
    pub minimum_secret_bytes: usize,
    pub maximum_ttl_ms: u64,
    pub rotate_before_ms: u64,
    pub activation_clock_skew_ms: u64,
    pub maximum_versions: usize,
}

/// The policy that the environment gives.
pub open spec fn policy_due(env: PolicyEnvironment) -> Result<SecretPolicy, Fault> {
    match duration_due(env.maximum_ttl.says("90d"@), "ZCSECRET_MAX_TTL"@) {
        Err(e) => Err(e),
        Ok(maximum_ttl_ms) => match duration_due(
            env.rotate_before.says("7d"@),
            "ZCSECRET_ROTATE_BEFORE"@,
        ) {
            Err(e) => Err(e),
            Ok(rotate_before_ms) => match duration_due(
                env.activation_clock_skew.says("2s"@),
                "ZCSECRET_ACTIVATION_CLOCK_SKEW"@,
            ) {
                Err(e) => Err(e),
                Ok(activation_clock_skew_ms) => match crate::text::unsigned_value(
                    env.maximum_versions.says("16"@),
                    usize::MAX as nat,
                ) {
                    None => Err(
                        crate::error::bad_input("ZCSECRET_MAX_VERSIONS must be an integer"@),
                    ),
                    Some(n) => Ok(
                        SecretPolicy {
                            minimum_secret_bytes: 32,
                            maximum_ttl_ms,
                            rotate_before_ms,
                            activation_clock_skew_ms,
                            maximum_versions: n as usize,
                        },
                    ),
                },
            },
        },
    }
}

/// The policy that the environment gives.
pub fn policy_from_env(env: &PolicyEnvironment) -> (r: Result<SecretPolicy, Error>)
    ensures
        crate::error::agrees(r, policy_due(*env)),
{
    let maximum_ttl_ms: u64 = match duration_env_ms(&env.maximum_ttl, "ZCSECRET_MAX_TTL", "90d") {
        Ok(ms) => ms,
        Err(e) => {
            return Err(e);
        },
    };
    let rotate_before_ms: u64 = match duration_env_ms(
        &env.rotate_before,
        "ZCSECRET_ROTATE_BEFORE",
        "7d",
    ) {
        Ok(ms) => ms,
        Err(e) => {
            return Err(e);
        },
    };
    let activation_clock_skew_ms: u64 = match duration_env_ms(
        &env.activation_clock_skew,
        "ZCSECRET_ACTIVATION_CLOCK_SKEW",
        "2s",
    ) {
        Ok(ms) => ms,
        Err(e) => {
            return Err(e);
        },
    };
    let versions: String = env.maximum_versions.value("16");
    match parse_size(versions.as_str()) {
        Some(maximum_versions) => Ok(
            SecretPolicy {
                minimum_secret_bytes: 32,
                maximum_ttl_ms,
                rotate_before_ms,
                activation_clock_skew_ms,
                maximum_versions,
            },
        ),
        None => Err(invalid("ZCSECRET_MAX_VERSIONS must be an integer")),
    }
}

/// A duration has a unit behind its number: milliseconds, also without a unit, seconds, minutes, hours or
/// days.
pub proof fn law_units_scale_a_duration(digits: Seq<char>, name: Seq<char>, n: nat)
    requires
        digits.len() > 0,
        crate::text::all_digits(digits),
        n == crate::text::digits_value(digits),
        n * 86_400_000 <= u64::MAX,
    ensures
        duration_due(digits, name) == Ok::<u64, Fault>(n as u64),
        duration_due(digits.push('m').push('s'), name) == Ok::<u64, Fault>(n as u64),
        duration_due(digits.push('s'), name) == Ok::<u64, Fault>((n * 1_000) as u64),
        duration_due(digits.push('m'), name) == Ok::<u64, Fault>((n * 60_000) as u64),
        duration_due(digits.push('h'), name) == Ok::<u64, Fault>((n * 3_600_000) as u64),
        duration_due(digits.push('d'), name) == Ok::<u64, Fault>((n * 86_400_000) as u64),
{
    reveal_strlit("ms");
    reveal_strlit("s");
    reveal_strlit("m");
    reveal_strlit("h");
    reveal_strlit("d");
    let last = digits[digits.len() - 1];
    assert(crate::text::is_digit(last));
    assert(crate::text::is_digit(digits[0]));
    lemma_ending(digits);
    lemma_ending(digits.push('s'));
    lemma_ending(digits.push('m'));
    lemma_ending(digits.push('h'));
    lemma_ending(digits.push('d'));
    lemma_ending(digits.push('m').push('s'));
    assert(digits.push('m').push('s').subrange(0, digits.len() as int) =~= digits);
    assert(digits.push('s').subrange(0, digits.len() as int) =~= digits);
    assert(digits.push('m').subrange(0, digits.len() as int) =~= digits);
    assert(digits.push('h').subrange(0, digits.len() as int) =~= digits);
    assert(digits.push('d').subrange(0, digits.len() as int) =~= digits);
}

proof fn lemma_ending(s: Seq<char>)
    requires
        s.len() > 0,
    ensures
        crate::text::finishes_with(s, "s"@) == (s.last() == 's'),
        crate::text::finishes_with(s, "m"@) == (s.last() == 'm'),
        crate::text::finishes_with(s, "h"@) == (s.last() == 'h'),
        crate::text::finishes_with(s, "d"@) == (s.last() == 'd'),
        crate::text::finishes_with(s, "ms"@) == (s.len() > 1 && s.last() == 's' && s[s.len() - 2]
            == 'm'),
{
    reveal_strlit("ms");
    reveal_strlit("s");
    reveal_strlit("m");
    reveal_strlit("h");
    reveal_strlit("d");
    let one = s.subrange(s.len() - 1, s.len() as int);
    assert(one[0] == s.last());
    if s.last() == 's' {
        assert(one =~= "s"@);
    }
    if s.last() == 'm' {
        assert(one =~= "m"@);
    }
    if s.last() == 'h' {
        assert(one =~= "h"@);
    }
    if s.last() == 'd' {
        assert(one =~= "d"@);
    }
    if s.len() > 1 {
        let two = s.subrange(s.len() - 2, s.len() as int);
        assert(two[0] == s[s.len() - 2] && two[1] == s.last());
        if two[0] == 'm' && two[1] == 's' {
            assert(two =~= "ms"@);
        }
    }
}

/// Each option sets the field that it is named after, and leaves every other field as it was.
pub proof fn law_each_option_sets_its_own_field(d: DraftView, value: Seq<char>)
    ensures
        with_option(d, "--provider"@, value) == Ok::<DraftView, Fault>(
            (DraftView { provider: Some(value), ..d }),
        ),
        with_option(d, "--name"@, value) == Ok::<DraftView, Fault>(
            (DraftView { name: Some(value), ..d }),
        ),
        with_option(d, "--secret-id"@, value) == Ok::<DraftView, Fault>(
            (DraftView { secret_id: Some(value), ..d }),
        ),
        with_option(d, "--region"@, value) == Ok::<DraftView, Fault>(
            (DraftView { region: Some(value), ..d }),
        ),
        with_option(d, "--source-file"@, value) == Ok::<DraftView, Fault>(
            (DraftView { source_file: Some(value), ..d }),
        ),
        with_option(d, "--output"@, value) == Ok::<DraftView, Fault>(
            (DraftView { output: Some(value), ..d }),
        ),
        with_option(d, "--interval"@, value) matches Ok(a) ==> a == (DraftView {
            interval: a.interval,
            ..d
        }) && a.interval is Some && a.interval->0 > 0 && duration_due(value, "interval"@) == Ok::<
            u64,
            Fault,
        >(a.interval->0),
{
    reveal_strlit("--provider");
    reveal_strlit("--name");
    reveal_strlit("--secret-id");
    reveal_strlit("--region");
    reveal_strlit("--source-file");
    reveal_strlit("--output");
    reveal_strlit("--interval");
    assert("--provider"@.len() == 10);
    assert("--name"@.len() == 6);
    assert("--secret-id"@.len() == 11);
    assert("--region"@.len() == 8);
    assert("--source-file"@.len() == 13);
    assert("--output"@.len() == 8);
    assert("--interval"@.len() == 10);
    assert("--output"@[2] != "--region"@[2]);
    assert("--interval"@[2] != "--provider"@[2]);
}

/// A bundle is materialised from what its provider needs: a parameter by its name, a secret by its
/// identifier, either in the region that was named, or a file; and always into a place that was named.
pub proof fn law_providers_have_what_they_need(d: DraftView)
    requires
        completed(d) is Ok,
    ensures
        ({
            let o = completed(d)->Ok_0;
            &&& Some(o.output) == d.output
            &&& o.interval == d.interval
            &&& match o.provider {
                ProviderView::AwsSsm { name, region } => d.provider == Some("aws-ssm"@) && Some(name)
                    == d.name && region == d.region,
                ProviderView::AwsSecretsManager { secret_id, region } => Some(secret_id)
                    == d.secret_id && region == d.region,
                ProviderView::VaultAgent { source_file } => d.provider == Some("vault-agent"@)
                    && Some(source_file) == d.source_file,
            }
        }),
{
}

/// Each part of the policy comes from the setting that is named after it.
pub proof fn law_each_setting_makes_its_part_of_the_policy(env: PolicyEnvironment)
    requires
        policy_due(env) is Ok,
    ensures
        ({
            let p = policy_due(env)->Ok_0;
            &&& duration_due(env.maximum_ttl.says("90d"@), "ZCSECRET_MAX_TTL"@) == Ok::<u64, Fault>(
                p.maximum_ttl_ms,
            )
            &&& duration_due(env.rotate_before.says("7d"@), "ZCSECRET_ROTATE_BEFORE"@) == Ok::<
                u64,
                Fault,
            >(p.rotate_before_ms)
            &&& duration_due(
                env.activation_clock_skew.says("2s"@),
                "ZCSECRET_ACTIVATION_CLOCK_SKEW"@,
            ) == Ok::<u64, Fault>(p.activation_clock_skew_ms)
            &&& Some(p.maximum_versions as nat) == crate::text::unsigned_value(
                env.maximum_versions.says("16"@),
                usize::MAX as nat,
            )
        }),
{
}

} // verus!
