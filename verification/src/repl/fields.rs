//! The answers of the replication tool, field by field.
use vstd::prelude::*;
use vstd::string::*;

use crate::repl::options::control_field;
use crate::text::{decimal, join2, join3, str_eq};

verus! {

/// A replication that runs or has run.
#[derive(Debug)]
pub struct ReplicationJob {
    pub repl_id: String,
    pub role: String,
    pub state: String,
    pub subject: String,
    pub peer: String,
    pub port: Option<u16>,
    pub bytes: u64,
    pub bytes_limit: Option<u64>,
    pub replication_mode: String,
    pub started_at_secs: u64,
    pub started_at_millis: u64,
    pub updated_at_millis: u64,
    pub finished_at_secs: Option<u64>,
    pub finished_at_millis: Option<u64>,
    pub error: Option<String>,
    pub target_cluster: Option<String>,
    pub gateway_endpoint: Option<String>,
    pub spillover_tier: Option<String>,
}

/// How the volumes of a scope are replicated.
#[derive(Debug)]
pub struct ReplicationMode {
    pub scope: String,
    pub mode: String,
    pub generation: u64,
    pub updated_at_secs: u64,
}

/// Where the volumes of a scope are replicated to.
#[derive(Debug)]
pub struct ReplicationRoute {
    pub scope: String,
    pub target_cluster: String,
    pub gateway_endpoint: String,
    pub spillover_tier: String,
    pub generation: u64,
    pub updated_at_secs: u64,
}

/// What is answered to a request to receive a volume.
#[derive(Debug)]
pub struct ReceiveResponse {
    pub repl_id: String,
    pub role: String,
    pub volume_id: String,
    pub target: String,
    pub listen: String,
    pub port: u16,
    pub token: String,
    pub replication_mode: String,
    pub target_cluster: Option<String>,
    pub gateway_endpoint: Option<String>,
    pub spillover_tier: Option<String>,
}

/// What is answered to a request to send a volume or a snapshot.
#[derive(Debug)]
pub struct SendResponse {
    pub repl_id: String,
    pub role: String,
    pub source: String,
    pub peer: String,
    pub port: u16,
    pub bytes_limit: u64,
    pub replication_mode: String,
    pub target_cluster: Option<String>,
    pub gateway_endpoint: Option<String>,
    pub spillover_tier: Option<String>,
}

/// `s` followed by a label and a field, where there is one.
pub open spec fn with_text(s: Seq<char>, label: Seq<char>, value: Option<Seq<char>>) -> Seq<char> {
    match value {
        Some(text) => s + label + crate::repl::options::field_text(text),
        None => s,
    }
}

/// `s` followed by a label and a number, where there is one.
pub open spec fn with_number(s: Seq<char>, label: Seq<char>, value: Option<u64>) -> Seq<char> {
    match value {
        Some(n) => s + label + crate::text::decimal_text(n as nat),
        None => s,
    }
}

fn put(s: &mut String, label: &str, text: &str)
    ensures
        final(s)@ == old(s)@ + label@ + text@,
{
    s.append(label);
    s.append(text);
}

fn put_field(s: &mut String, label: &str, text: &str)
    ensures
        final(s)@ == old(s)@ + label@ + crate::repl::options::field_text(text@),
{
    let field: String = control_field(text);
    put(s, label, field.as_str());
}

fn put_number(s: &mut String, label: &str, n: u64)
    ensures
        final(s)@ == old(s)@ + label@ + crate::text::decimal_text(n as nat),
{
    let digits: String = decimal(n);
    put(s, label, digits.as_str());
}

fn put_some_field(s: &mut String, label: &str, text: Option<&str>)
    ensures
        final(s)@ == with_text(
            old(s)@,
            label@,
            match text {
                Some(t) => Some(t@),
                None => None,
            },
        ),
{
    if let Some(t) = text {
        put_field(s, label, t);
    }
}

fn put_some_number(s: &mut String, label: &str, value: Option<u64>)
    ensures
        final(s)@ == with_number(old(s)@, label@, value),
{
    if let Some(n) = value {
        put_number(s, label, n);
    }
}

fn text_of(value: &Option<String>) -> (text: Option<&str>)
    ensures
        match text {
            Some(t) => crate::args::said(*value) == Some(t@),
            None => value is None,
        },
{
    match value {
        Some(s) => Some(s.as_str()),
        None => None,
    }
}

/// `s` followed by the fields of a route, where there are any.
pub open spec fn with_route(
    s: Seq<char>,
    cluster: Option<Seq<char>>,
    gateway: Option<Seq<char>>,
    tier: Option<Seq<char>>,
) -> Seq<char> {
    with_text(
        with_text(with_text(s, " target_cluster="@, cluster), " gateway_endpoint="@, gateway),
        " spillover_tier="@,
        tier,
    )
}

/// The text of an optional string slice.
pub open spec fn slice_said(value: Option<&str>) -> Option<Seq<char>> {
    match value {
        Some(s) => Some(s@),
        None => None,
    }
}

/// Appends the fields of a route, where there are any.
pub fn append_route_response_fields(
    fields: &mut String,
    target_cluster: Option<&str>,
    gateway_endpoint: Option<&str>,
    spillover_tier: Option<&str>,
)
    ensures
        final(fields)@ == with_route(
            old(fields)@,
            slice_said(target_cluster),
            slice_said(gateway_endpoint),
            slice_said(spillover_tier),
        ),
{
    put_some_field(fields, " target_cluster=", target_cluster);
    put_some_field(fields, " gateway_endpoint=", gateway_endpoint);
    put_some_field(fields, " spillover_tier=", spillover_tier);
}

/// What is left of a limit.
pub open spec fn left_of(limit: u64, done: u64) -> u64 {
    if limit > done {
        (limit - done) as u64
    } else {
        0
    }
}

/// A moment that is known only where it is not zero.
pub open spec fn known(millis: u64) -> Option<u64> {
    if millis == 0 {
        None
    } else {
        Some(millis)
    }
}

fn known_at(millis: u64) -> (m: Option<u64>)
    ensures
        m == known(millis),
{
    if millis == 0 {
        None
    } else {
        Some(millis)
    }
}

/// The fields of a replication.
pub open spec fn status_text(j: ReplicationJob) -> Seq<char> {
    let s = Seq::<char>::empty() + "repl_id="@ + j.repl_id@ + " role="@ + j.role@ + " state="@
        + j.state@ + " subject="@ + crate::repl::options::field_text(j.subject@) + " peer="@
        + crate::repl::options::field_text(j.peer@) + " bytes="@ + crate::text::decimal_text(
        j.bytes as nat,
    ) + " replication_mode="@ + crate::repl::options::field_text(j.replication_mode@)
        + " started_at_secs="@ + crate::text::decimal_text(j.started_at_secs as nat);
    let s = with_number(
        s,
        " port="@,
        match j.port {
            Some(p) => Some(p as u64),
            None => None,
        },
    );
    let s = with_number(s, " bytes_limit="@, j.bytes_limit);
    let s = with_number(
        s,
        " bytes_remaining="@,
        match j.bytes_limit {
            Some(limit) => Some(left_of(limit, j.bytes)),
            None => None,
        },
    );
    let s = with_number(s, " started_at_millis="@, known(j.started_at_millis));
    let s = with_number(s, " updated_at_millis="@, known(j.updated_at_millis));
    let s = with_number(s, " finished_at_secs="@, j.finished_at_secs);
    let s = with_number(s, " finished_at_millis="@, j.finished_at_millis);
    let s = with_text(s, " error="@, crate::args::said(j.error));
    with_route(
        s,
        crate::args::said(j.target_cluster),
        crate::args::said(j.gateway_endpoint),
        crate::args::said(j.spillover_tier),
    )
}

/// The fields of a replication.
pub fn status_fields(job: &ReplicationJob) -> (s: String)
    ensures
        s@ == status_text(*job),
{
    let mut s: String = String::new();
    proof {
        assert(s@ =~= Seq::<char>::empty());
    }
    put(&mut s, "repl_id=", job.repl_id.as_str());
    put(&mut s, " role=", job.role.as_str());
    put(&mut s, " state=", job.state.as_str());
    put_field(&mut s, " subject=", job.subject.as_str());
    put_field(&mut s, " peer=", job.peer.as_str());
    put_number(&mut s, " bytes=", job.bytes);
    put_field(&mut s, " replication_mode=", job.replication_mode.as_str());
    put_number(&mut s, " started_at_secs=", job.started_at_secs);
    let port: Option<u64> = match job.port {
        Some(p) => Some(p as u64),
        None => None,
    };
    put_some_number(&mut s, " port=", port);
    put_some_number(&mut s, " bytes_limit=", job.bytes_limit);
    let remaining: Option<u64> = match job.bytes_limit {
        Some(limit) => Some(limit.saturating_sub(job.bytes)),
        None => None,
    };
    put_some_number(&mut s, " bytes_remaining=", remaining);
    put_some_number(&mut s, " started_at_millis=", known_at(job.started_at_millis));
    put_some_number(&mut s, " updated_at_millis=", known_at(job.updated_at_millis));
    put_some_number(&mut s, " finished_at_secs=", job.finished_at_secs);
    put_some_number(&mut s, " finished_at_millis=", job.finished_at_millis);
    put_some_field(&mut s, " error=", text_of(&job.error));
    append_route_response_fields(
        &mut s,
        text_of(&job.target_cluster),
        text_of(&job.gateway_endpoint),
        text_of(&job.spillover_tier),
    );
    s
}

/// The fields of the mode of a scope.
pub open spec fn mode_text(p: ReplicationMode) -> Seq<char> {
    Seq::<char>::empty() + "scope="@ + crate::repl::options::field_text(p.scope@) + " mode="@
        + crate::repl::options::field_text(p.mode@) + " generation="@ + crate::text::decimal_text(
        p.generation as nat,
    ) + " updated_at_secs="@ + crate::text::decimal_text(p.updated_at_secs as nat)
}

/// The fields of the mode of a scope.
pub fn mode_fields(policy: &ReplicationMode) -> (s: String)
    ensures
        s@ == mode_text(*policy),
{
    let mut s: String = String::new();
    proof {
        assert(s@ =~= Seq::<char>::empty());
    }
    put_field(&mut s, "scope=", policy.scope.as_str());
    put_field(&mut s, " mode=", policy.mode.as_str());
    put_number(&mut s, " generation=", policy.generation);
    put_number(&mut s, " updated_at_secs=", policy.updated_at_secs);
    s
}

/// The fields of the route of a scope.
pub open spec fn route_text(r: ReplicationRoute) -> Seq<char> {
    Seq::<char>::empty() + "scope="@ + crate::repl::options::field_text(r.scope@)
        + " target_cluster="@ + crate::repl::options::field_text(r.target_cluster@)
        + " gateway_endpoint="@ + crate::repl::options::field_text(r.gateway_endpoint@)
        + " spillover_tier="@ + crate::repl::options::field_text(r.spillover_tier@)
        + " generation="@ + crate::text::decimal_text(r.generation as nat) + " updated_at_secs="@
        + crate::text::decimal_text(r.updated_at_secs as nat)
}

/// The fields of the route of a scope.
pub fn route_fields(route: &ReplicationRoute) -> (s: String)
    ensures
        s@ == route_text(*route),
{
    let mut s: String = String::new();
    proof {
        assert(s@ =~= Seq::<char>::empty());
    }
    put_field(&mut s, "scope=", route.scope.as_str());
    put_field(&mut s, " target_cluster=", route.target_cluster.as_str());
    put_field(&mut s, " gateway_endpoint=", route.gateway_endpoint.as_str());
    put_field(&mut s, " spillover_tier=", route.spillover_tier.as_str());
    put_number(&mut s, " generation=", route.generation);
    put_number(&mut s, " updated_at_secs=", route.updated_at_secs);
    s
}

/// What is shown of the answer to a request to receive.
pub open spec fn receive_text(r: ReceiveResponse) -> Seq<char> {
    let s = Seq::<char>::empty() + "OK repl_id="@ + r.repl_id@ + " role="@ + r.role@ + " volume="@
        + r.volume_id@ + " target="@ + crate::repl::options::field_text(r.target@) + " listen="@
        + crate::repl::options::field_text(r.listen@) + " port="@ + crate::text::decimal_text(
        r.port as nat,
    ) + " token="@ + r.token@ + " replication_mode="@ + crate::repl::options::field_text(
        r.replication_mode@,
    );
    with_route(
        s,
        crate::args::said(r.target_cluster),
        crate::args::said(r.gateway_endpoint),
        crate::args::said(r.spillover_tier),
    )
}

/// What is shown of the answer to a request to receive.
pub fn receive_fields(r: &ReceiveResponse) -> (s: String)
    ensures
        s@ == receive_text(*r),
{
    let mut s: String = String::new();
    proof {
        assert(s@ =~= Seq::<char>::empty());
    }
    put(&mut s, "OK repl_id=", r.repl_id.as_str());
    put(&mut s, " role=", r.role.as_str());
    put(&mut s, " volume=", r.volume_id.as_str());
    put_field(&mut s, " target=", r.target.as_str());
    put_field(&mut s, " listen=", r.listen.as_str());
    put_number(&mut s, " port=", r.port as u64);
    put(&mut s, " token=", r.token.as_str());
    put_field(&mut s, " replication_mode=", r.replication_mode.as_str());
    append_route_response_fields(
        &mut s,
        text_of(&r.target_cluster),
        text_of(&r.gateway_endpoint),
        text_of(&r.spillover_tier),
    );
    s
}

/// What is shown of the answer to a request to send.
pub open spec fn send_text(r: SendResponse) -> Seq<char> {
    let s = Seq::<char>::empty() + "OK repl_id="@ + r.repl_id@ + " role="@ + r.role@ + " source="@
        + crate::repl::options::field_text(r.source@) + " peer="@
        + crate::repl::options::field_text(r.peer@) + " port="@ + crate::text::decimal_text(
        r.port as nat,
    ) + " bytes_limit="@ + crate::text::decimal_text(r.bytes_limit as nat) + " replication_mode="@
        + crate::repl::options::field_text(r.replication_mode@);
    with_route(
        s,
        crate::args::said(r.target_cluster),
        crate::args::said(r.gateway_endpoint),
        crate::args::said(r.spillover_tier),
    )
}

/// What is shown of the answer to a request to send.
pub fn send_fields(r: &SendResponse) -> (s: String)
    ensures
        s@ == send_text(*r),
{
    let mut s: String = String::new();
    proof {
        assert(s@ =~= Seq::<char>::empty());
    }
    put(&mut s, "OK repl_id=", r.repl_id.as_str());
    put(&mut s, " role=", r.role.as_str());
    put_field(&mut s, " source=", r.source.as_str());
    put_field(&mut s, " peer=", r.peer.as_str());
    put_number(&mut s, " port=", r.port as u64);
    put_number(&mut s, " bytes_limit=", r.bytes_limit);
    put_field(&mut s, " replication_mode=", r.replication_mode.as_str());
    append_route_response_fields(
        &mut s,
        text_of(&r.target_cluster),
        text_of(&r.gateway_endpoint),
        text_of(&r.spillover_tier),
    );
    s
}

/// The line for each of the jobs.
pub open spec fn job_lines(items: Seq<ReplicationJob>) -> Seq<Seq<char>> {
    items.map_values(|x: ReplicationJob| "JOB "@ + status_text(x))
}

fn list_jobs(items: &Vec<ReplicationJob>) -> (lines: Vec<String>)
    ensures
        crate::text::texts(lines@) == seq![
            "OK jobs="@ + crate::text::decimal_text(items@.len()),
        ] + job_lines(items@),
{
    let mut lines: Vec<String> = Vec::new();
    let count: usize = items.len();
    let digits: String = decimal(count as u64);
    lines.push(join2("OK jobs=", digits.as_str()));
    let ghost head = "OK jobs="@ + crate::text::decimal_text(items@.len());
    proof {
        assert(crate::text::texts(lines@) =~= seq![head] + job_lines(items@.subrange(0, 0)));
    }
    let mut i: usize = 0;
    while i < count
        invariant
            i <= count,
            count == items@.len(),
            crate::text::texts(lines@) == seq![head] + job_lines(items@.subrange(0, i as int)),
        decreases count - i,
    {
        let fields: String = status_fields(&items[i]);
        let line: String = join2("JOB ", fields.as_str());
        let ghost before = lines@;
        lines.push(line);
        i = i + 1;
        proof {
            let done = items@.subrange(0, i as int);
            assert(done.drop_last() =~= items@.subrange(0, i - 1));
            assert(job_lines(done) =~= job_lines(done.drop_last()).push(line@));
            assert(crate::text::texts(lines@) =~= crate::text::texts(before).push(line@));
            assert(crate::text::texts(lines@) =~= seq![head] + job_lines(
                items@.subrange(0, i as int),
            ));
        }
    }
    proof {
        assert(items@.subrange(0, i as int) =~= items@);
    }
    lines
}

/// The line for each of the policies.
pub open spec fn policy_lines(items: Seq<ReplicationMode>) -> Seq<Seq<char>> {
    items.map_values(|x: ReplicationMode| "POLICY "@ + mode_text(x))
}

fn list_policies(items: &Vec<ReplicationMode>) -> (lines: Vec<String>)
    ensures
        crate::text::texts(lines@) == seq![
            "OK policies="@ + crate::text::decimal_text(items@.len()),
        ] + policy_lines(items@),
{
    let mut lines: Vec<String> = Vec::new();
    let count: usize = items.len();
    let digits: String = decimal(count as u64);
    lines.push(join2("OK policies=", digits.as_str()));
    let ghost head = "OK policies="@ + crate::text::decimal_text(items@.len());
    proof {
        assert(crate::text::texts(lines@) =~= seq![head] + policy_lines(items@.subrange(0, 0)));
    }
    let mut i: usize = 0;
    while i < count
        invariant
            i <= count,
            count == items@.len(),
            crate::text::texts(lines@) == seq![head] + policy_lines(items@.subrange(0, i as int)),
        decreases count - i,
    {
        let fields: String = mode_fields(&items[i]);
        let line: String = join2("POLICY ", fields.as_str());
        let ghost before = lines@;
        lines.push(line);
        i = i + 1;
        proof {
            let done = items@.subrange(0, i as int);
            assert(done.drop_last() =~= items@.subrange(0, i - 1));
            assert(policy_lines(done) =~= policy_lines(done.drop_last()).push(line@));
            assert(crate::text::texts(lines@) =~= crate::text::texts(before).push(line@));
            assert(crate::text::texts(lines@) =~= seq![head] + policy_lines(
                items@.subrange(0, i as int),
            ));
        }
    }
    proof {
        assert(items@.subrange(0, i as int) =~= items@);
    }
    lines
}

/// The line for each of the routes.
pub open spec fn route_lines(items: Seq<ReplicationRoute>) -> Seq<Seq<char>> {
    items.map_values(|x: ReplicationRoute| "ROUTE "@ + route_text(x))
}

fn list_routes(items: &Vec<ReplicationRoute>) -> (lines: Vec<String>)
    ensures
        crate::text::texts(lines@) == seq![
            "OK routes="@ + crate::text::decimal_text(items@.len()),
        ] + route_lines(items@),
{
    let mut lines: Vec<String> = Vec::new();
    let count: usize = items.len();
    let digits: String = decimal(count as u64);
    lines.push(join2("OK routes=", digits.as_str()));
    let ghost head = "OK routes="@ + crate::text::decimal_text(items@.len());
    proof {
        assert(crate::text::texts(lines@) =~= seq![head] + route_lines(items@.subrange(0, 0)));
    }
    let mut i: usize = 0;
    while i < count
        invariant
            i <= count,
            count == items@.len(),
            crate::text::texts(lines@) == seq![head] + route_lines(items@.subrange(0, i as int)),
        decreases count - i,
    {
        let fields: String = route_fields(&items[i]);
        let line: String = join2("ROUTE ", fields.as_str());
        let ghost before = lines@;
        lines.push(line);
        i = i + 1;
        proof {
            let done = items@.subrange(0, i as int);
            assert(done.drop_last() =~= items@.subrange(0, i - 1));
            assert(route_lines(done) =~= route_lines(done.drop_last()).push(line@));
            assert(crate::text::texts(lines@) =~= crate::text::texts(before).push(line@));
            assert(crate::text::texts(lines@) =~= seq![head] + route_lines(
                items@.subrange(0, i as int),
            ));
        }
    }
    proof {
        assert(items@.subrange(0, i as int) =~= items@);
    }
    lines
}

/// What is shown of the replications: all of them, or the first where one was asked for.
pub open spec fn status_answer(repl_id: Option<Seq<char>>, jobs: Seq<ReplicationJob>) -> Seq<
    Seq<char>,
> {
    match repl_id {
        Some(id) => if jobs.len() == 0 {
            seq!["ERR repl_id "@ + id + " not found"@]
        } else {
            seq!["OK "@ + status_text(jobs[0])]
        },
        None => seq!["OK jobs="@ + crate::text::decimal_text(jobs.len())] + job_lines(jobs),
    }
}

fn one(line: String) -> (lines: Vec<String>)
    ensures
        crate::text::texts(lines@) == seq![line@],
{
    let mut lines: Vec<String> = Vec::new();
    lines.push(line);
    proof {
        assert(crate::text::texts(lines@) =~= seq![line@]);
    }
    lines
}

/// What is shown of the replications.
pub fn csi_status(repl_id: &Option<String>, jobs: &Vec<ReplicationJob>) -> (lines: Vec<String>)
    ensures
        crate::text::texts(lines@) == status_answer(crate::args::said(*repl_id), jobs@),
{
    match repl_id {
        Some(id) => if jobs.len() == 0 {
            one(join3("ERR repl_id ", id.as_str(), " not found"))
        } else {
            let fields: String = status_fields(&jobs[0]);
            one(join2("OK ", fields.as_str()))
        },
        None => list_jobs(jobs),
    }
}

/// The first of the policies that is of a scope, from an index on.
pub open spec fn policy_of(items: Seq<ReplicationMode>, scope: Seq<char>, i: int) -> Option<ReplicationMode>
    decreases items.len() - i,
{
    if i < 0 || i >= items.len() {
        None
    } else if items[i].scope@ == scope {
        Some(items[i])
    } else {
        policy_of(items, scope, i + 1)
    }
}

/// What is shown of the policies: all of them, or that of the scope that was asked for.
pub open spec fn policy_answer(scope: Option<Seq<char>>, items: Seq<ReplicationMode>) -> Seq<Seq<char>> {
    match scope {
        Some(scope) => match policy_of(items, scope, 0) {
            Some(x) => seq!["OK "@ + mode_text(x)],
            None => seq![
                "ERR scope "@ + crate::repl::options::field_text(scope) + " not found"@,
            ],
        },
        None => seq!["OK policies="@ + crate::text::decimal_text(items.len())] + policy_lines(items),
    }
}

/// What is shown of the policies.
pub fn csi_mode(scope: &Option<String>, items: &Vec<ReplicationMode>) -> (lines: Vec<String>)
    ensures
        crate::text::texts(lines@) == policy_answer(crate::args::said(*scope), items@),
{
    match scope {
        Some(wanted) => {
            let count: usize = items.len();
            let mut i: usize = 0;
            while i < count
                invariant
                    i <= count,
                    count == items@.len(),
                    crate::args::said(*scope) == Some(wanted@),
                    policy_of(items@, wanted@, 0) == policy_of(items@, wanted@, i as int),
                decreases count - i,
            {
                if str_eq(items[i].scope.as_str(), wanted.as_str()) {
                    let fields: String = mode_fields(&items[i]);
                    return one(join2("OK ", fields.as_str()));
                }
                i = i + 1;
            }
            let field: String = control_field(wanted.as_str());
            one(join3("ERR scope ", field.as_str(), " not found"))
        },
        None => list_policies(items),
    }
}

/// The first of the routes that is of a scope, from an index on.
pub open spec fn route_of(items: Seq<ReplicationRoute>, scope: Seq<char>, i: int) -> Option<ReplicationRoute>
    decreases items.len() - i,
{
    if i < 0 || i >= items.len() {
        None
    } else if items[i].scope@ == scope {
        Some(items[i])
    } else {
        route_of(items, scope, i + 1)
    }
}

/// What is shown of the routes: all of them, or that of the scope that was asked for.
pub open spec fn route_answer(scope: Option<Seq<char>>, items: Seq<ReplicationRoute>) -> Seq<Seq<char>> {
    match scope {
        Some(scope) => match route_of(items, scope, 0) {
            Some(x) => seq!["OK "@ + route_text(x)],
            None => seq![
                "ERR scope "@ + crate::repl::options::field_text(scope) + " not found"@,
            ],
        },
        None => seq!["OK routes="@ + crate::text::decimal_text(items.len())] + route_lines(items),
    }
}

/// What is shown of the routes.
pub fn csi_route(scope: &Option<String>, items: &Vec<ReplicationRoute>) -> (lines: Vec<String>)
    ensures
        crate::text::texts(lines@) == route_answer(crate::args::said(*scope), items@),
{
    match scope {
        Some(wanted) => {
            let count: usize = items.len();
            let mut i: usize = 0;
            while i < count
                invariant
                    i <= count,
                    count == items@.len(),
                    crate::args::said(*scope) == Some(wanted@),
                    route_of(items@, wanted@, 0) == route_of(items@, wanted@, i as int),
                decreases count - i,
            {
                if str_eq(items[i].scope.as_str(), wanted.as_str()) {
                    let fields: String = route_fields(&items[i]);
                    return one(join2("OK ", fields.as_str()));
                }
                i = i + 1;
            }
            let field: String = control_field(wanted.as_str());
            one(join3("ERR scope ", field.as_str(), " not found"))
        },
        None => list_routes(items),
    }
}

/// What is left of a transfer and what was done make up its limit, until the limit is reached; then nothing
/// is left.
pub proof fn law_what_is_left_makes_up_the_limit(limit: u64, done: u64)
    ensures
        done <= limit ==> left_of(limit, done) + done == limit,
        done >= limit ==> left_of(limit, done) == 0,
{
}

proof fn lemma_policy_found(items: Seq<ReplicationMode>, scope: Seq<char>, i: int)
    requires
        0 <= i,
    ensures
        policy_of(items, scope, i) matches Some(x) ==> x.scope@ == scope && exists|k: int|
            i <= k < items.len() && #[trigger] items[k] == x && forall|j: int|
                i <= j < k ==> (#[trigger] items[j]).scope@ != scope,
        policy_of(items, scope, i) is None ==> forall|k: int|
            i <= k < items.len() ==> (#[trigger] items[k]).scope@ != scope,
    decreases items.len() - i,
{
    if i < items.len() {
        if items[i].scope@ != scope {
            lemma_policy_found(items, scope, i + 1);
            if policy_of(items, scope, i + 1) is Some {
                let x = policy_of(items, scope, i + 1)->0;
                let k = choose|k: int|
                    i + 1 <= k < items.len() && #[trigger] items[k] == x && forall|j: int|
                        i + 1 <= j < k ==> (#[trigger] items[j]).scope@ != scope;
                assert(items[k] == x);
            }
        } else {
            assert(items[i] == items[i]);
        }
    }
}

proof fn lemma_route_found(items: Seq<ReplicationRoute>, scope: Seq<char>, i: int)
    requires
        0 <= i,
    ensures
        route_of(items, scope, i) matches Some(x) ==> x.scope@ == scope && exists|k: int|
            i <= k < items.len() && #[trigger] items[k] == x && forall|j: int|
                i <= j < k ==> (#[trigger] items[j]).scope@ != scope,
        route_of(items, scope, i) is None ==> forall|k: int|
            i <= k < items.len() ==> (#[trigger] items[k]).scope@ != scope,
    decreases items.len() - i,
{
    if i < items.len() {
        if items[i].scope@ != scope {
            lemma_route_found(items, scope, i + 1);
            if route_of(items, scope, i + 1) is Some {
                let x = route_of(items, scope, i + 1)->0;
                let k = choose|k: int|
                    i + 1 <= k < items.len() && #[trigger] items[k] == x && forall|j: int|
                        i + 1 <= j < k ==> (#[trigger] items[j]).scope@ != scope;
                assert(items[k] == x);
            }
        } else {
            assert(items[i] == items[i]);
        }
    }
}

/// A policy or a route is looked up by its scope: the first one of that scope is told, and none exactly
/// where there is none of it.
pub proof fn law_lookups_find_the_first_of_a_scope(
    policies: Seq<ReplicationMode>,
    routes: Seq<ReplicationRoute>,
    scope: Seq<char>,
)
    ensures
        policy_of(policies, scope, 0) matches Some(x) ==> x.scope@ == scope && exists|k: int|
            0 <= k < policies.len() && #[trigger] policies[k] == x && forall|j: int|
                0 <= j < k ==> (#[trigger] policies[j]).scope@ != scope,
        policy_of(policies, scope, 0) is None ==> forall|k: int|
            0 <= k < policies.len() ==> (#[trigger] policies[k]).scope@ != scope,
        route_of(routes, scope, 0) matches Some(x) ==> x.scope@ == scope && exists|k: int|
            0 <= k < routes.len() && #[trigger] routes[k] == x && forall|j: int|
                0 <= j < k ==> (#[trigger] routes[j]).scope@ != scope,
        route_of(routes, scope, 0) is None ==> forall|k: int|
            0 <= k < routes.len() ==> (#[trigger] routes[k]).scope@ != scope,
{
    lemma_policy_found(policies, scope, 0);
    lemma_route_found(routes, scope, 0);
}

/// A list is answered with one line that counts it and one line for each of its items, in their order.
pub proof fn law_lists_have_a_line_for_each_item(
    jobs: Seq<ReplicationJob>,
    policies: Seq<ReplicationMode>,
    routes: Seq<ReplicationRoute>,
    i: int,
)
    ensures
        status_answer(None, jobs).len() == jobs.len() + 1,
        0 <= i < jobs.len() ==> status_answer(None, jobs)[i + 1] == "JOB "@ + status_text(jobs[i]),
        policy_answer(None, policies).len() == policies.len() + 1,
        0 <= i < policies.len() ==> policy_answer(None, policies)[i + 1] == "POLICY "@ + mode_text(
            policies[i],
        ),
        route_answer(None, routes).len() == routes.len() + 1,
        0 <= i < routes.len() ==> route_answer(None, routes)[i + 1] == "ROUTE "@ + route_text(
            routes[i],
        ),
{
}

} // verus!
