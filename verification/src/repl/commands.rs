//! The commands of the replication tool: what each needs, and the line that it sends.
use vstd::prelude::*;
use vstd::string::*;

use crate::repl::options::{parse_opts, usage, validate_raw_line, validate_token, Opts};
use crate::text::{decimal, join2, join3, join4, str_eq};
#[allow(unused_imports)]
use crate::repl::options::OptsView;

verus! {

/// The commands.
#[derive(Clone, Copy, Debug, PartialEq, Eq, Structural)]
pub enum Command {
    Token,
    Recv,
    Send,
    CsiRecv,
    CsiSend,
    CsiStatus,
    CsiMode,
    CsiRoute,
}

/// The command that a name stands for.
pub open spec fn command_named(name: Seq<char>) -> Option<Command> {
    if name == "token"@ || name == "generate-token"@ {
        Some(Command::Token)
    } else if name == "recv"@ || name == "receive"@ {
        Some(Command::Recv)
    } else if name == "send"@ {
        Some(Command::Send)
    } else if name == "csi-recv"@ || name == "controller-recv"@ {
        Some(Command::CsiRecv)
    } else if name == "csi-send"@ || name == "controller-send"@ {
        Some(Command::CsiSend)
    } else if name == "csi-status"@ || name == "controller-status"@ {
        Some(Command::CsiStatus)
    } else if name == "csi-mode"@ || name == "controller-mode"@ {
        Some(Command::CsiMode)
    } else if name == "csi-route"@ || name == "controller-route"@ {
        Some(Command::CsiRoute)
    } else {
        None
    }
}

fn command_of(name: &str) -> (c: Option<Command>)
    ensures
        c == command_named(name@),
{
    if str_eq(name, "token") || str_eq(name, "generate-token") {
        Some(Command::Token)
    } else if str_eq(name, "recv") || str_eq(name, "receive") {
        Some(Command::Recv)
    } else if str_eq(name, "send") {
        Some(Command::Send)
    } else if str_eq(name, "csi-recv") || str_eq(name, "controller-recv") {
        Some(Command::CsiRecv)
    } else if str_eq(name, "csi-send") || str_eq(name, "controller-send") {
        Some(Command::CsiSend)
    } else if str_eq(name, "csi-status") || str_eq(name, "controller-status") {
        Some(Command::CsiStatus)
    } else if str_eq(name, "csi-mode") || str_eq(name, "controller-mode") {
        Some(Command::CsiMode)
    } else if str_eq(name, "csi-route") || str_eq(name, "controller-route") {
        Some(Command::CsiRoute)
    } else {
        None
    }
}

/// Whether a command line asks how the tool is called.
pub open spec fn asks_for_help(args: Seq<Seq<char>>) -> bool {
    args.len() == 0 || args[0] == "-h"@ || args[0] == "--help"@ || args[0] == "help"@
}

/// The command of a command line and its options; nothing where it asks how the tool is called.
pub open spec fn request_of(args: Seq<Seq<char>>) -> Result<Option<(Command, OptsView)>, Seq<char>> {
    if asks_for_help(args) {
        Ok(None)
    } else {
        match crate::repl::options::parsed(args.skip(1), crate::repl::options::no_opts()) {
            Err(e) => Err(e),
            Ok(opts) => match command_named(args[0]) {
                Some(c) => Ok(Some((c, opts))),
                None => Err(
                    "unknown command "@ + args[0] + "\n"@ + crate::repl::options::usage_text(),
                ),
            },
        }
    }
}

fn tail(args: &Vec<String>) -> (rest: Vec<String>)
    requires
        args@.len() > 0,
    ensures
        crate::text::texts(rest@) == crate::text::texts(args@).skip(1),
{
    let mut rest: Vec<String> = Vec::new();
    let mut i: usize = 1;
    while i < args.len()
        invariant
            1 <= i <= args@.len(),
            rest@.len() == i - 1,
            forall|k: int| 0 <= k < i - 1 ==> (#[trigger] rest@[k])@ == args@[k + 1]@,
        decreases args@.len() - i,
    {
        rest.push(args[i].clone());
        i = i + 1;
    }
    proof {
        assert(crate::text::texts(rest@) =~= crate::text::texts(args@).skip(1));
    }
    rest
}

/// The command of a command line and its options.
pub fn request(args: &Vec<String>) -> (r: Result<Option<(Command, Opts)>, String>)
    ensures
        match r {
            Ok(None) => request_of(crate::text::texts(args@)) == Ok::<
                Option<(Command, OptsView)>,
                Seq<char>,
            >(None),
            Ok(Some((c, opts))) => request_of(crate::text::texts(args@)) == Ok::<
                Option<(Command, OptsView)>,
                Seq<char>,
            >(Some((c, opts@))),
            Err(e) => request_of(crate::text::texts(args@)) == Err::<
                Option<(Command, OptsView)>,
                Seq<char>,
            >(e@),
        },
{
    if args.len() == 0 {
        return Ok(None);
    }
    let name: &str = args[0].as_str();
    proof {
        assert(crate::text::texts(args@)[0] == name@);
    }
    if str_eq(name, "-h") || str_eq(name, "--help") || str_eq(name, "help") {
        return Ok(None);
    }
    let rest: Vec<String> = tail(args);
    let opts: Opts = match parse_opts(&rest) {
        Ok(opts) => opts,
        Err(e) => {
            return Err(e);
        },
    };
    match command_of(name) {
        Some(c) => Ok(Some((c, opts))),
        None => Err(join4("unknown command ", name, "\n", usage())),
    }
}

/// A text, or another in its place.
pub open spec fn text_or(value: Option<Seq<char>>, other: Seq<char>) -> Seq<char> {
    match value {
        Some(s) => s,
        None => other,
    }
}

fn string_or(value: &Option<String>, other: &str) -> (s: String)
    ensures
        s@ == text_or(crate::args::said(*value), other@),
{
    match value {
        Some(s) => s.clone(),
        None => String::from_str(other),
    }
}

fn copied(value: &Option<String>) -> (s: Option<String>)
    ensures
        crate::args::said(s) == crate::args::said(*value),
{
    match value {
        Some(s) => Some(s.clone()),
        None => None,
    }
}

/// A number, or another in its place.
pub open spec fn number_or(value: Option<u64>, other: u64) -> u64 {
    match value {
        Some(n) => n,
        None => other,
    }
}

/// A stream that is to be received; without a token one is made up.
#[derive(Debug)]
pub struct Receive {
    pub listen: String,
    pub port: u16,
    pub output: String,
    pub token: Option<String>,
    pub limit: u64,
}

/// Why a stream cannot be received.
pub open spec fn recv_fault(o: OptsView) -> Option<Seq<char>> {
    if o.output is None {
        Some("recv requires --output PATH"@)
    } else {
        match o.token {
            Some(token) => if crate::repl::options::is_token(token) {
                None
            } else {
                Some(crate::repl::options::no_token("token"@))
            },
            None => if o.generate_token {
                None
            } else {
                Some("recv requires --token TOKEN or --generate-token"@)
            },
        }
    }
}

/// What is needed to receive a stream.
pub fn recv(opts: &Opts) -> (r: Result<Receive, String>)
    ensures
        match r {
            Ok(p) => {
                &&& recv_fault(opts@) is None
                &&& p.listen@ == text_or(opts@.listen, "0.0.0.0"@)
                &&& p.port == match opts.port {
                    Some(port) => port,
                    None => 0,
                }
                &&& opts@.output == Some(p.output@)
                &&& crate::args::said(p.token) == opts@.token
                &&& p.limit == number_or(opts.bytes, u64::MAX)
            },
            Err(e) => recv_fault(opts@) == Some(e@),
        },
{
    let output: String = match &opts.output {
        Some(path) => path.clone(),
        None => {
            return Err(String::from_str("recv requires --output PATH"));
        },
    };
    match &opts.token {
        Some(token) => match validate_token(token.as_str(), "token") {
            Ok(_) => {},
            Err(e) => {
                return Err(e);
            },
        },
        None => {
            if !opts.generate_token {
                return Err(String::from_str("recv requires --token TOKEN or --generate-token"));
            }
        },
    }
    let port: u16 = match opts.port {
        Some(port) => port,
        None => 0,
    };
    let limit: u64 = match opts.bytes {
        Some(n) => n,
        None => u64::MAX,
    };
    Ok(
        Receive {
            listen: string_or(&opts.listen, "0.0.0.0"),
            port,
            output,
            token: copied(&opts.token),
            limit,
        },
    )
}

/// A stream that is to be sent.
#[derive(Debug)]
pub struct Transmit {
    pub input: String,
    pub peer: String,
    pub port: u16,
    pub token: String,
    pub limit: u64,
}

/// Why a peer cannot be reached with what was given; the complaints are those of the command.
pub open spec fn peer_fault(
    o: OptsView,
    peer: Seq<char>,
    port: Seq<char>,
    zero: Seq<char>,
    token: Seq<char>,
) -> Option<Seq<char>> {
    if o.peer is None {
        Some(peer)
    } else if o.port is None {
        Some(port)
    } else if o.port == Some(0u16) {
        Some(zero)
    } else if o.token is None {
        Some(token)
    } else if !crate::repl::options::is_token(o.token->0) {
        Some(crate::repl::options::no_token("token"@))
    } else {
        None
    }
}

fn peer_of(opts: &Opts, peer: &str, port: &str, zero: &str, token: &str) -> (r: Result<
    (String, u16, String),
    String,
>)
    ensures
        match r {
            Ok((host, number, secret)) => {
                &&& peer_fault(opts@, peer@, port@, zero@, token@) is None
                &&& opts@.peer == Some(host@)
                &&& opts@.port == Some(number)
                &&& opts@.token == Some(secret@)
            },
            Err(e) => peer_fault(opts@, peer@, port@, zero@, token@) == Some(e@),
        },
{
    let host: String = match &opts.peer {
        Some(host) => host.clone(),
        None => {
            return Err(String::from_str(peer));
        },
    };
    let number: u16 = match opts.port {
        Some(number) => number,
        None => {
            return Err(String::from_str(port));
        },
    };
    if number == 0 {
        return Err(String::from_str(zero));
    }
    let secret: String = match &opts.token {
        Some(secret) => secret.clone(),
        None => {
            return Err(String::from_str(token));
        },
    };
    match validate_token(secret.as_str(), "token") {
        Ok(_) => Ok((host, number, secret)),
        Err(e) => Err(e),
    }
}

/// Why a stream cannot be sent.
pub open spec fn send_fault(o: OptsView) -> Option<Seq<char>> {
    if o.input is None {
        Some("send requires --input PATH"@)
    } else {
        peer_fault(
            o,
            "send requires --peer HOST"@,
            "send requires --port PORT"@,
            "send --port must be greater than zero"@,
            "send requires --token TOKEN"@,
        )
    }
}

/// What is needed to send a stream.
pub fn send(opts: &Opts) -> (r: Result<Transmit, String>)
    ensures
        match r {
            Ok(p) => {
                &&& send_fault(opts@) is None
                &&& opts@.input == Some(p.input@)
                &&& opts@.peer == Some(p.peer@)
                &&& opts@.port == Some(p.port)
                &&& opts@.token == Some(p.token@)
                &&& p.limit == number_or(opts.bytes, u64::MAX)
            },
            Err(e) => send_fault(opts@) == Some(e@),
        },
{
    let input: String = match &opts.input {
        Some(path) => path.clone(),
        None => {
            return Err(String::from_str("send requires --input PATH"));
        },
    };
    let (peer, port, token): (String, u16, String) = match peer_of(
        opts,
        "send requires --peer HOST",
        "send requires --port PORT",
        "send --port must be greater than zero",
        "send requires --token TOKEN",
    ) {
        Ok(found) => found,
        Err(e) => {
            return Err(e);
        },
    };
    let limit: u64 = match opts.bytes {
        Some(n) => n,
        None => u64::MAX,
    };
    Ok(Transmit { input, peer, port, token, limit })
}

/// A request to receive a volume; without a token the controller makes one up.
#[derive(Debug)]
pub struct StartReceive {
    pub volume: String,
    pub listen: String,
    pub port: u16,
    pub token: Option<String>,
    pub bytes: Option<u64>,
}

/// The token that is asked for, if one is.
pub open spec fn asked_token(token: Option<Seq<char>>) -> Option<Seq<char>> {
    match token {
        Some(t) => if t == "auto"@ {
            None
        } else {
            Some(t)
        },
        None => None,
    }
}

/// The request to receive a volume.
pub fn csi_recv(opts: &Opts) -> (r: Result<StartReceive, String>)
    ensures
        match r {
            Ok(p) => {
                &&& opts@.volume == Some(p.volume@)
                &&& p.listen@ == text_or(opts@.listen, "0.0.0.0"@)
                &&& p.port == match opts.port {
                    Some(port) => port,
                    None => 0,
                }
                &&& crate::args::said(p.token) == asked_token(opts@.token)
                &&& p.bytes == opts.bytes
            },
            Err(e) => opts@.volume is None && e@ == "csi-recv requires --volume ID"@,
        },
{
    let volume: String = match &opts.volume {
        Some(volume) => volume.clone(),
        None => {
            return Err(String::from_str("csi-recv requires --volume ID"));
        },
    };
    let port: u16 = match opts.port {
        Some(port) => port,
        None => 0,
    };
    let token: Option<String> = match &opts.token {
        Some(token) => if str_eq(token.as_str(), "auto") {
            None
        } else {
            Some(token.clone())
        },
        None => None,
    };
    Ok(
        StartReceive {
            volume,
            listen: string_or(&opts.listen, "0.0.0.0"),
            port,
            token,
            bytes: opts.bytes,
        },
    )
}

/// `s` with the limit of a stream, where there is one.
pub open spec fn with_limit(s: Seq<char>, bytes: Option<u64>) -> Seq<char> {
    crate::repl::fields::with_number(s, " bytes="@, bytes)
}

fn limited(s: String, bytes: Option<u64>) -> (line: String)
    ensures
        line@ == with_limit(s@, bytes),
{
    match bytes {
        Some(n) => {
            let digits: String = decimal(n);
            join3(s.as_str(), " bytes=", digits.as_str())
        },
        None => s,
    }
}

/// The line that asks a controller to receive a volume.
pub open spec fn receive_command(p: StartReceive) -> Seq<char> {
    with_limit(
        "REPL_RECV volume="@ + p.volume@ + " listen="@ + p.listen@ + " port="@
            + crate::text::decimal_text(p.port as nat) + " token="@ + text_or(
            crate::args::said(p.token),
            "auto"@,
        ),
        p.bytes,
    )
}

/// The line that asks a controller to receive a volume.
pub fn receive_line(p: &StartReceive) -> (line: String)
    ensures
        line@ == receive_command(*p),
{
    let head: String = join4("REPL_RECV volume=", p.volume.as_str(), " listen=", p.listen.as_str());
    let digits: String = decimal(p.port as u64);
    let token: String = string_or(&p.token, "auto");
    let middle: String = join4(head.as_str(), " port=", digits.as_str(), " token=");
    limited(crate::text::join2(middle.as_str(), token.as_str()), p.bytes)
}

/// A request to send a volume or a snapshot.
#[derive(Debug)]
pub struct StartSend {
    pub volume: Option<String>,
    pub snapshot: Option<String>,
    pub peer: String,
    pub port: u16,
    pub token: String,
    pub bytes: Option<u64>,
}

/// Why a volume or a snapshot cannot be sent.
pub open spec fn csi_send_fault(o: OptsView) -> Option<Seq<char>> {
    if (o.volume is Some) == (o.snapshot is Some) {
        Some("csi-send requires exactly one of --volume ID or --snapshot ID"@)
    } else {
        peer_fault(
            o,
            "csi-send requires --peer HOST"@,
            "csi-send requires --port PORT"@,
            "csi-send --port must be greater than zero"@,
            "csi-send requires --token TOKEN"@,
        )
    }
}

/// The request to send a volume or a snapshot.
pub fn csi_send(opts: &Opts) -> (r: Result<StartSend, String>)
    ensures
        match r {
            Ok(p) => {
                &&& csi_send_fault(opts@) is None
                &&& crate::args::said(p.volume) == opts@.volume
                &&& crate::args::said(p.snapshot) == opts@.snapshot
                &&& opts@.peer == Some(p.peer@)
                &&& opts@.port == Some(p.port)
                &&& opts@.token == Some(p.token@)
                &&& p.bytes == opts.bytes
            },
            Err(e) => csi_send_fault(opts@) == Some(e@),
        },
{
    if opts.volume.is_some() == opts.snapshot.is_some() {
        return Err(
            String::from_str("csi-send requires exactly one of --volume ID or --snapshot ID"),
        );
    }
    let (peer, port, token): (String, u16, String) = match peer_of(
        opts,
        "csi-send requires --peer HOST",
        "csi-send requires --port PORT",
        "csi-send --port must be greater than zero",
        "csi-send requires --token TOKEN",
    ) {
        Ok(found) => found,
        Err(e) => {
            return Err(e);
        },
    };
    Ok(
        StartSend {
            volume: copied(&opts.volume),
            snapshot: copied(&opts.snapshot),
            peer,
            port,
            token,
            bytes: opts.bytes,
        },
    )
}

/// The line that asks a controller to send a volume, or else a snapshot.
pub open spec fn send_command(p: StartSend) -> Seq<char> {
    let head = match p.volume {
        Some(volume) => "REPL_SEND volume="@ + volume@,
        None => "REPL_SEND snapshot="@ + p.snapshot->0@,
    };
    with_limit(
        head + " peer="@ + p.peer@ + " port="@ + crate::text::decimal_text(p.port as nat)
            + " token="@ + p.token@,
        p.bytes,
    )
}

/// The line that asks a controller to send a volume or a snapshot.
pub fn send_line(p: &StartSend) -> (line: String)
    requires
        p.volume is Some || p.snapshot is Some,
    ensures
        line@ == send_command(*p),
{
    let head: String = match &p.volume {
        Some(volume) => crate::text::join2("REPL_SEND volume=", volume.as_str()),
        None => match &p.snapshot {
            Some(snapshot) => crate::text::join2("REPL_SEND snapshot=", snapshot.as_str()),
            None => String::new(),
        },
    };
    let digits: String = decimal(p.port as u64);
    let middle: String = join4(head.as_str(), " peer=", p.peer.as_str(), " port=");
    limited(
        join4(middle.as_str(), digits.as_str(), " token=", p.token.as_str()),
        p.bytes,
    )
}

/// The line that asks a controller for the state of its replications.
pub open spec fn status_command(repl_id: Option<Seq<char>>) -> Seq<char> {
    match repl_id {
        Some(id) => "REPL_STATUS repl_id="@ + id,
        None => "REPL_STATUS"@,
    }
}

/// The line that asks a controller for the state of its replications.
pub fn status_line(repl_id: &Option<String>) -> (line: String)
    ensures
        line@ == status_command(crate::args::said(*repl_id)),
{
    match repl_id {
        Some(id) => crate::text::join2("REPL_STATUS repl_id=", id.as_str()),
        None => String::from_str("REPL_STATUS"),
    }
}

/// What is written for a control command, if it is fit to be one.
pub fn send_control(line: &str) -> (r: Result<String, String>)
    ensures
        match r {
            Ok(s) => crate::repl::options::is_raw_line(line@) && s@ == line@ + "\n"@,
            Err(e) => !crate::repl::options::is_raw_line(line@) && e@
                == "control command must be one non-empty line without NUL"@,
        },
{
    match validate_raw_line(line) {
        Ok(_) => Ok(crate::text::join2(line, "\n")),
        Err(e) => Err(e),
    }
}

/// The socket of the controller: what was given, else what the environment says, else the usual one.
pub fn control_socket(socket: &Option<String>, environment: &Option<String>) -> (path: String)
    ensures
        path@ == text_or(
            crate::args::said(*socket),
            text_or(
                crate::args::said(*environment),
                "/var/lib/zcblock-csi/control.sock"@,
            ),
        ),
{
    match socket {
        Some(path) => path.clone(),
        None => string_or(environment, "/var/lib/zcblock-csi/control.sock"),
    }
}

/// The address of the controller: what was given, else what the environment says.
pub fn control_url(value: &Option<String>, environment: &Option<String>) -> (url: Option<String>)
    ensures
        crate::args::said(url) == match crate::args::said(*value) {
            Some(text) => Some(text),
            None => crate::args::said(*environment),
        },
{
    match value {
        Some(url) => Some(url.clone()),
        None => copied(environment),
    }
}

/// The address of the controller, which `command` cannot do without.
pub fn needed_url(command: &str, url: &Option<String>) -> (r: Result<String, String>)
    ensures
        match r {
            Ok(s) => crate::args::said(*url) == Some(s@),
            Err(e) => url is None && e@ == command@
                + " requires --control-url URL or ZCBLOCK_CONTROL_URL"@,
        },
{
    match url {
        Some(s) => Ok(s.clone()),
        None => Err(join2(command, " requires --control-url URL or ZCBLOCK_CONTROL_URL")),
    }
}

/// A request to set the route of a scope.
#[derive(Debug)]
pub struct SetRoute {
    pub scope: Option<String>,
    pub target_cluster: String,
    pub gateway_endpoint: String,
    pub spillover_tier: String,
}

/// Whether a route is to be set.
pub open spec fn sets_route(o: OptsView) -> bool {
    o.target_cluster is Some || o.gateway_endpoint is Some || o.spillover_tier is Some
}

/// What a route that is to be set lacks.
pub open spec fn route_fault(o: OptsView) -> Option<Seq<char>> {
    if o.target_cluster is None {
        Some("csi-route set requires --target-cluster NAME"@)
    } else if o.gateway_endpoint is None {
        Some("csi-route set requires --gateway-endpoint HOST:PORT"@)
    } else if o.spillover_tier is None {
        Some("csi-route set requires --spillover-tier NAME"@)
    } else {
        None
    }
}

/// The request to set a route; nothing where the routes are asked for.
pub fn route_request(opts: &Opts) -> (r: Result<Option<SetRoute>, String>)
    ensures
        match r {
            Ok(None) => !sets_route(opts@),
            Ok(Some(p)) => {
                &&& sets_route(opts@)
                &&& route_fault(opts@) is None
                &&& crate::args::said(p.scope) == opts@.scope
                &&& opts@.target_cluster == Some(p.target_cluster@)
                &&& opts@.gateway_endpoint == Some(p.gateway_endpoint@)
                &&& opts@.spillover_tier == Some(p.spillover_tier@)
            },
            Err(e) => sets_route(opts@) && route_fault(opts@) == Some(e@),
        },
{
    if opts.target_cluster.is_none() && opts.gateway_endpoint.is_none()
        && opts.spillover_tier.is_none() {
        return Ok(None);
    }
    let target_cluster: String = match &opts.target_cluster {
        Some(s) => s.clone(),
        None => {
            return Err(String::from_str("csi-route set requires --target-cluster NAME"));
        },
    };
    let gateway_endpoint: String = match &opts.gateway_endpoint {
        Some(s) => s.clone(),
        None => {
            return Err(String::from_str("csi-route set requires --gateway-endpoint HOST:PORT"));
        },
    };
    let spillover_tier: String = match &opts.spillover_tier {
        Some(s) => s.clone(),
        None => {
            return Err(String::from_str("csi-route set requires --spillover-tier NAME"));
        },
    };
    Ok(
        Some(
            SetRoute {
                scope: copied(&opts.scope),
                target_cluster,
                gateway_endpoint,
                spillover_tier,
            },
        ),
    )
}

/// Receiving needs a place to write to, and a token that was given and is sound or is to be made up;
/// sending needs a source, a peer with a port and a sound token.
pub proof fn law_transfers_need_their_ends(o: OptsView)
    ensures
        recv_fault(o) is None <==> o.output is Some && (match o.token {
            Some(token) => crate::repl::options::is_token(token),
            None => o.generate_token,
        }),
        send_fault(o) is None <==> o.input is Some && o.peer is Some && o.port is Some && o.port->0
            > 0 && o.token is Some && crate::repl::options::is_token(o.token->0),
        csi_send_fault(o) is None ==> (o.volume is Some) != (o.snapshot is Some),
        csi_send_fault(o) is None <==> (o.volume is Some) != (o.snapshot is Some) && o.peer is Some
            && o.port is Some && o.port->0 > 0 && o.token is Some && crate::repl::options::is_token(
            o.token->0,
        ),
        sets_route(o) && route_fault(o) is None <==> o.target_cluster is Some && o.gateway_endpoint
            is Some && o.spillover_tier is Some,
{
}

} // verus!
