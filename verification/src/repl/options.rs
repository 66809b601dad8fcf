//! The options of the replication tool.
use vstd::prelude::*;
use vstd::string::*;

use crate::args::value_at;
use crate::cpus::split_once;
use crate::text::{is_white_char, join2, join4, parse_unsigned, str_eq, trim_leading};

verus! {

/// The options that take a value.
#[derive(Clone, Copy, Debug, PartialEq, Eq, Structural)]
pub enum Field {
    Socket,
    ControlUrl,
    Input,
    Output,
    Listen,
    Peer,
    Port,
    Token,
    Volume,
    Snapshot,
    ReplId,
    Bytes,
    Mode,
    Scope,
    TargetCluster,
    GatewayEndpoint,
    SpilloverTier,
}

/// What a command line of the replication tool says.
#[derive(Debug)]
pub struct Opts {
    pub socket: Option<String>,
    pub control_url: Option<String>,
    pub input: Option<String>,
    pub output: Option<String>,
    pub listen: Option<String>,
    pub peer: Option<String>,
    pub port: Option<u16>,
    pub token: Option<String>,
    pub generate_token: bool,
    pub volume: Option<String>,
    pub snapshot: Option<String>,
    pub repl_id: Option<String>,
    pub bytes: Option<u64>,
    pub mode: Option<String>,
    pub scope: Option<String>,
    pub target_cluster: Option<String>,
    pub gateway_endpoint: Option<String>,
    pub spillover_tier: Option<String>,
}

/// What is meant by [`Opts`].
pub struct OptsView {
    pub socket: Option<Seq<char>>,
    pub control_url: Option<Seq<char>>,
    pub input: Option<Seq<char>>,
    pub output: Option<Seq<char>>,
    pub listen: Option<Seq<char>>,
    pub peer: Option<Seq<char>>,
    pub port: Option<u16>,
    pub token: Option<Seq<char>>,
    pub generate_token: bool,
    pub volume: Option<Seq<char>>,
    pub snapshot: Option<Seq<char>>,
    pub repl_id: Option<Seq<char>>,
    pub bytes: Option<u64>,
    pub mode: Option<Seq<char>>,
    pub scope: Option<Seq<char>>,
    pub target_cluster: Option<Seq<char>>,
    pub gateway_endpoint: Option<Seq<char>>,
    pub spillover_tier: Option<Seq<char>>,
}

impl View for Opts {
    type V = OptsView;

    open spec fn view(&self) -> OptsView {
        OptsView {
            socket: crate::args::said(self.socket),
            control_url: crate::args::said(self.control_url),
            input: crate::args::said(self.input),
            output: crate::args::said(self.output),
            listen: crate::args::said(self.listen),
            peer: crate::args::said(self.peer),
            port: self.port,
            token: crate::args::said(self.token),
            generate_token: self.generate_token,
            volume: crate::args::said(self.volume),
            snapshot: crate::args::said(self.snapshot),
            repl_id: crate::args::said(self.repl_id),
            bytes: self.bytes,
            mode: crate::args::said(self.mode),
            scope: crate::args::said(self.scope),
            target_cluster: crate::args::said(self.target_cluster),
            gateway_endpoint: crate::args::said(self.gateway_endpoint),
            spillover_tier: crate::args::said(self.spillover_tier),
        }
    }
}

/// No option given.
pub open spec fn no_opts() -> OptsView {
    OptsView {
        socket: None,
        control_url: None,
        input: None,
        output: None,
        listen: None,
        peer: None,
        port: None,
        token: None,
        generate_token: false,
        volume: None,
        snapshot: None,
        repl_id: None,
        bytes: None,
        mode: None,
        scope: None,
        target_cluster: None,
        gateway_endpoint: None,
        spillover_tier: None,
    }
}

impl Opts {
    /// No option given.
    pub fn new() -> (o: Opts)
        ensures
            o@ == no_opts(),
    {
        Opts {
            socket: None,
            control_url: None,
            input: None,
            output: None,
            listen: None,
            peer: None,
            port: None,
            token: None,
            generate_token: false,
            volume: None,
            snapshot: None,
            repl_id: None,
            bytes: None,
            mode: None,
            scope: None,
            target_cluster: None,
            gateway_endpoint: None,
            spillover_tier: None,
        }
    }
}

/// Whether a function that reports its failure in words returned what was to be returned.
pub open spec fn agrees<T>(r: Result<T, String>, due: Result<T, Seq<char>>) -> bool {
    match r {
        Ok(x) => due == Ok::<T, Seq<char>>(x),
        Err(e) => due == Err::<T, Seq<char>>(e@),
    }
}

/// The option that a name stands for.
pub open spec fn field_named(name: Seq<char>) -> Option<Field> {
    if name == "--socket"@ {
        Some(Field::Socket)
    } else if name == "--control-url"@ {
        Some(Field::ControlUrl)
    } else if name == "--input"@ || name == "--source"@ {
        Some(Field::Input)
    } else if name == "--output"@ || name == "--target"@ {
        Some(Field::Output)
    } else if name == "--listen"@ || name == "--listen-address"@ {
        Some(Field::Listen)
    } else if name == "--peer"@ || name == "--peer-address"@ {
        Some(Field::Peer)
    } else if name == "--port"@ {
        Some(Field::Port)
    } else if name == "--token"@ {
        Some(Field::Token)
    } else if name == "--volume"@ || name == "--volume-id"@ {
        Some(Field::Volume)
    } else if name == "--snapshot"@ || name == "--snapshot-id"@ {
        Some(Field::Snapshot)
    } else if name == "--repl-id"@ || name == "--id"@ {
        Some(Field::ReplId)
    } else if name == "--bytes"@ {
        Some(Field::Bytes)
    } else if name == "--mode"@ {
        Some(Field::Mode)
    } else if name == "--scope"@ {
        Some(Field::Scope)
    } else if name == "--target-cluster"@ {
        Some(Field::TargetCluster)
    } else if name == "--gateway-endpoint"@ {
        Some(Field::GatewayEndpoint)
    } else if name == "--spillover-tier"@ {
        Some(Field::SpilloverTier)
    } else {
        None
    }
}

fn field_of(name: &str) -> (f: Option<Field>)
    ensures
        f == field_named(name@),
{
    if str_eq(name, "--socket") {
        Some(Field::Socket)
    } else if str_eq(name, "--control-url") {
        Some(Field::ControlUrl)
    } else if str_eq(name, "--input") || str_eq(name, "--source") {
        Some(Field::Input)
    } else if str_eq(name, "--output") || str_eq(name, "--target") {
        Some(Field::Output)
    } else if str_eq(name, "--listen") || str_eq(name, "--listen-address") {
        Some(Field::Listen)
    } else if str_eq(name, "--peer") || str_eq(name, "--peer-address") {
        Some(Field::Peer)
    } else if str_eq(name, "--port") {
        Some(Field::Port)
    } else if str_eq(name, "--token") {
        Some(Field::Token)
    } else if str_eq(name, "--volume") || str_eq(name, "--volume-id") {
        Some(Field::Volume)
    } else if str_eq(name, "--snapshot") || str_eq(name, "--snapshot-id") {
        Some(Field::Snapshot)
    } else if str_eq(name, "--repl-id") || str_eq(name, "--id") {
        Some(Field::ReplId)
    } else if str_eq(name, "--bytes") {
        Some(Field::Bytes)
    } else if str_eq(name, "--mode") {
        Some(Field::Mode)
    } else if str_eq(name, "--scope") {
        Some(Field::Scope)
    } else if str_eq(name, "--target-cluster") {
        Some(Field::TargetCluster)
    } else if str_eq(name, "--gateway-endpoint") {
        Some(Field::GatewayEndpoint)
    } else if str_eq(name, "--spillover-tier") {
        Some(Field::SpilloverTier)
    } else {
        None
    }
}

/// The value of an option, or the complaint that it has none.
pub open spec fn value_due(value: Option<Seq<char>>, flag: Seq<char>) -> Result<Seq<char>, Seq<char>> {
    match value {
        Some(s) => Ok(s),
        None => Err(flag + " requires a value"@),
    }
}

/// The value at an index of a command line.
pub fn value(args: &[String], index: usize, flag: &str) -> (r: Result<String, String>)
    ensures
        match r {
            Ok(s) => value_due(
                crate::args::nth(crate::text::texts(args@), index as int),
                flag@,
            ) == Ok::<Seq<char>, Seq<char>>(s@),
            Err(e) => value_due(
                crate::args::nth(crate::text::texts(args@), index as int),
                flag@,
            ) == Err::<Seq<char>, Seq<char>>(e@),
        },
{
    match value_at(args, index) {
        Some(s) => Ok(s),
        None => Err(join2(flag, " requires a value")),
    }
}

/// The port that a text gives.
pub open spec fn port_due(text: Seq<char>, flag: Seq<char>) -> Result<u16, Seq<char>> {
    match crate::text::unsigned_value(text, u16::MAX as nat) {
        Some(n) => Ok(n as u16),
        None => Err(flag + " must be an integer from 0 to 65535"@),
    }
}

/// The port that a text gives.
pub fn parse_u16(value: &str, flag: &str) -> (r: Result<u16, String>)
    ensures
        agrees(r, port_due(value@, flag@)),
{
    match parse_unsigned(value, u16::MAX as u64) {
        Some(n) => Ok(n as u16),
        None => Err(join2(flag, " must be an integer from 0 to 65535")),
    }
}

/// The count that a text gives.
pub open spec fn count_due(text: Seq<char>, flag: Seq<char>) -> Result<u64, Seq<char>> {
    match crate::text::unsigned_value(text, u64::MAX as nat) {
        Some(n) => if n == 0 {
            Err(flag + " must be greater than zero"@)
        } else {
            Ok(n as u64)
        },
        None => Err(flag + " must be an integer"@),
    }
}

/// The count that a text gives.
pub fn parse_u64(value: &str, flag: &str) -> (r: Result<u64, String>)
    ensures
        agrees(r, count_due(value@, flag@)),
{
    match parse_unsigned(value, u64::MAX) {
        Some(n) => if n == 0 {
            Err(join2(flag, " must be greater than zero"))
        } else {
            Ok(n)
        },
        None => Err(join2(flag, " must be an integer")),
    }
}

/// The options with one more that has a value.
pub open spec fn with_field(d: OptsView, field: Field, text: Seq<char>) -> Result<
    OptsView,
    Seq<char>,
> {
    match field {
        Field::Socket => Ok(OptsView { socket: Some(text), ..d }),
        Field::ControlUrl => Ok(OptsView { control_url: Some(text), ..d }),
        Field::Input => Ok(OptsView { input: Some(text), ..d }),
        Field::Output => Ok(OptsView { output: Some(text), ..d }),
        Field::Listen => Ok(OptsView { listen: Some(text), ..d }),
        Field::Peer => Ok(OptsView { peer: Some(text), ..d }),
        Field::Port => match port_due(text, "--port"@) {
            Ok(n) => Ok(OptsView { port: Some(n), ..d }),
            Err(e) => Err(e),
        },
        Field::Token => Ok(OptsView { token: Some(text), ..d }),
        Field::Volume => Ok(OptsView { volume: Some(text), ..d }),
        Field::Snapshot => Ok(OptsView { snapshot: Some(text), ..d }),
        Field::ReplId => Ok(OptsView { repl_id: Some(text), ..d }),
        Field::Bytes => match count_due(text, "--bytes"@) {
            Ok(n) => Ok(OptsView { bytes: Some(n), ..d }),
            Err(e) => Err(e),
        },
        Field::Mode => Ok(OptsView { mode: Some(text), ..d }),
        Field::Scope => Ok(OptsView { scope: Some(text), ..d }),
        Field::TargetCluster => Ok(OptsView { target_cluster: Some(text), ..d }),
        Field::GatewayEndpoint => Ok(OptsView { gateway_endpoint: Some(text), ..d }),
        Field::SpilloverTier => Ok(OptsView { spillover_tier: Some(text), ..d }),
    }
}

impl Opts {
    fn with(self, field: Field, text: String) -> (r: Result<Opts, String>)
        ensures
            match r {
                Ok(d) => with_field(self@, field, text@) == Ok::<OptsView, Seq<char>>(d@),
                Err(e) => with_field(self@, field, text@) == Err::<OptsView, Seq<char>>(e@),
            },
    {
        let mut d: Opts = self;
        match field {
            Field::Socket => {
                d.socket = Some(text);
            },
            Field::ControlUrl => {
                d.control_url = Some(text);
            },
            Field::Input => {
                d.input = Some(text);
            },
            Field::Output => {
                d.output = Some(text);
            },
            Field::Listen => {
                d.listen = Some(text);
            },
            Field::Peer => {
                d.peer = Some(text);
            },
            Field::Port => match parse_u16(text.as_str(), "--port") {
                Ok(n) => {
                    d.port = Some(n);
                },
                Err(e) => {
                    return Err(e);
                },
            },
            Field::Token => {
                d.token = Some(text);
            },
            Field::Volume => {
                d.volume = Some(text);
            },
            Field::Snapshot => {
                d.snapshot = Some(text);
            },
            Field::ReplId => {
                d.repl_id = Some(text);
            },
            Field::Bytes => match parse_u64(text.as_str(), "--bytes") {
                Ok(n) => {
                    d.bytes = Some(n);
                },
                Err(e) => {
                    return Err(e);
                },
            },
            Field::Mode => {
                d.mode = Some(text);
            },
            Field::Scope => {
                d.scope = Some(text);
            },
            Field::TargetCluster => {
                d.target_cluster = Some(text);
            },
            Field::GatewayEndpoint => {
                d.gateway_endpoint = Some(text);
            },
            Field::SpilloverTier => {
                d.spillover_tier = Some(text);
            },
        }
        Ok(d)
    }
}

/// What is said of an option that is not known.
pub open spec fn unknown_option(arg: Seq<char>) -> Seq<char> {
    "unknown option "@ + arg + "\n"@ + usage_text()
}

/// What a command line says in all. An option stands before its value, or is joined to it by `=`; of a
/// joined one the name counts as often as it is repeated.
pub open spec fn parsed(rest: Seq<Seq<char>>, d: OptsView) -> Result<OptsView, Seq<char>>
    decreases rest.len(),
{
    if rest.len() == 0 {
        Ok(d)
    } else if rest[0] == "--generate-token"@ {
        parsed(crate::args::after(rest, 1), OptsView { generate_token: true, ..d })
    } else {
        match field_named(rest[0]) {
            Some(field) => match value_due(crate::args::nth(rest, 1), rest[0]) {
                Err(e) => Err(e),
                Ok(text) => match with_field(d, field, text) {
                    Err(e) => Err(e),
                    Ok(next) => parsed(crate::args::after(rest, 2), next),
                },
            },
            None => match joined(rest[0]) {
                None => Err(unknown_option(rest[0])),
                Some((field, text)) => match with_field(d, field, text) {
                    Err(e) => Err(e),
                    Ok(next) => parsed(crate::args::after(rest, 1), next),
                },
            },
        }
    }
}

/// An option that is joined to its value.
pub open spec fn joined(arg: Seq<char>) -> Option<(Field, Seq<char>)> {
    match crate::cpus::sides(arg, '=') {
        None => None,
        Some((name, _)) => match field_named(name) {
            None => None,
            Some(field) => Some((field, crate::text::without_leading(arg, name + "="@))),
        },
    }
}

fn split_joined(arg: &str) -> (r: Option<(Field, String)>)
    ensures
        match r {
            None => joined(arg@) is None,
            Some((field, text)) => joined(arg@) == Some((field, text@)),
        },
{
    match split_once(arg, '=') {
        None => None,
        Some((name, _)) => match field_of(name.as_str()) {
            None => None,
            Some(field) => {
                let head: String = join2(name.as_str(), "=");
                proof {
                    reveal_strlit("=");
                }
                Some((field, trim_leading(arg, head.as_str())))
            },
        },
    }
}

/// The options of a command line.
pub fn parse_opts(args: &Vec<String>) -> (r: Result<Opts, String>)
    ensures
        match r {
            Ok(d) => parsed(crate::text::texts(args@), no_opts()) == Ok::<OptsView, Seq<char>>(d@),
            Err(e) => parsed(crate::text::texts(args@), no_opts()) == Err::<OptsView, Seq<char>>(
                e@,
            ),
        },
{
    let mut opts: Opts = Opts::new();
    let ghost views = crate::text::texts(args@);
    let ghost goal = parsed(views, no_opts());
    let count: usize = args.len();
    let mut i: usize = 0;
    proof {
        assert(views.skip(0) =~= views);
    }
    while i < count
        invariant
            i <= count,
            count == args@.len(),
            views == crate::text::texts(args@),
            goal == parsed(views, no_opts()),
            goal == parsed(views.skip(i as int), opts@),
        decreases count - i,
    {
        let ghost rest = views.skip(i as int);
        let arg: &str = args[i].as_str();
        proof {
            assert(rest[0] == arg@);
            assert(crate::args::nth(rest, 1) == crate::args::nth(views, i + 1));
            assert(crate::args::after(rest, 1) =~= views.skip(i + 1));
        }
        if str_eq(arg, "--generate-token") {
            opts.generate_token = true;
            i = i + 1;
        } else {
            match field_of(arg) {
                Some(field) => {
                    let text: String = match value(args.as_slice(), i + 1, arg) {
                        Ok(text) => text,
                        Err(e) => {
                            return Err(e);
                        },
                    };
                    opts = match opts.with(field, text) {
                        Ok(d) => d,
                        Err(e) => {
                            return Err(e);
                        },
                    };
                    proof {
                        assert(crate::args::after(rest, 2) =~= views.skip(i + 2));
                    }
                    i = i + 2;
                },
                None => match split_joined(arg) {
                    None => {
                        return Err(join4("unknown option ", arg, "\n", usage()));
                    },
                    Some((field, text)) => {
                        opts = match opts.with(field, text) {
                            Ok(d) => d,
                            Err(e) => {
                                return Err(e);
                            },
                        };
                        i = i + 1;
                    },
                },
            }
        }
    }
    proof {
        assert(views.skip(i as int).len() == 0);
    }
    Ok(opts)
}

/// Whether a text is fit to be a token.
pub open spec fn is_token(text: Seq<char>) -> bool {
    &&& 0 < vstd::utf8::encode_utf8(text).len() <= 512
    &&& forall|i: int|
        0 <= i < text.len() ==> !crate::text::is_white(#[trigger] text[i]) && text[i] != '\0'
}

/// What is said of a text that is no token.
pub open spec fn no_token(name: Seq<char>) -> Seq<char> {
    name + " must be non-empty, at most 512 bytes, and contain no whitespace or NUL"@
}

fn is_blank(c: char) -> (yes: bool)
    ensures
        yes == (crate::text::is_white(c) || c == '\0'),
{
    is_white_char(c) || c == '\0'
}

/// Checks that a text is fit to be a token.
pub fn validate_token(value: &str, name: &str) -> (r: Result<(), String>)
    ensures
        match r {
            Ok(_) => is_token(value@),
            Err(e) => !is_token(value@) && e@ == no_token(name@),
        },
{
    let complaint: &str = " must be non-empty, at most 512 bytes, and contain no whitespace or NUL";
    let size: usize = value.as_bytes().len();
    if size == 0 || size > 512 {
        return Err(join2(name, complaint));
    }
    let chars: Vec<char> = crate::text::chars_of(value);
    let mut i: usize = 0;
    while i < chars.len()
        invariant
            i <= chars@.len(),
            chars@ == value@,
            0 < vstd::utf8::encode_utf8(value@).len() <= 512,
            complaint@
                == " must be non-empty, at most 512 bytes, and contain no whitespace or NUL"@,
            forall|k: int|
                0 <= k < i ==> !crate::text::is_white(#[trigger] value@[k]) && value@[k] != '\0',
        decreases chars@.len() - i,
    {
        if is_blank(chars[i]) {
            proof {
                assert(crate::text::is_white(value@[i as int]) || value@[i as int] == '\0');
            }
            return Err(join2(name, complaint));
        }
        i = i + 1;
    }
    Ok(())
}

/// Whether a text is fit to be a control command.
pub open spec fn is_raw_line(text: Seq<char>) -> bool {
    text.len() > 0 && !text.contains('\n') && !text.contains('\0')
}

/// Checks that a text is fit to be a control command.
pub fn validate_raw_line(value: &str) -> (r: Result<(), String>)
    ensures
        match r {
            Ok(_) => is_raw_line(value@),
            Err(e) => !is_raw_line(value@) && e@
                == "control command must be one non-empty line without NUL"@,
        },
{
    let chars: Vec<char> = crate::text::chars_of(value);
    if chars.len() == 0 {
        return Err(String::from_str("control command must be one non-empty line without NUL"));
    }
    let mut i: usize = 0;
    while i < chars.len()
        invariant
            i <= chars@.len(),
            chars@ == value@,
            forall|k: int| 0 <= k < i ==> (#[trigger] value@[k]) != '\n' && value@[k] != '\0',
        decreases chars@.len() - i,
    {
        if chars[i] == '\n' || chars[i] == '\0' {
            proof {
                assert(value@.contains(value@[i as int]));
            }
            return Err(String::from_str("control command must be one non-empty line without NUL"));
        }
        i = i + 1;
    }
    Ok(())
}

/// A character as it stands in a field of an answer.
pub open spec fn field_char(c: char) -> char {
    if crate::text::is_white(c) || c == '\0' {
        '_'
    } else {
        c
    }
}

/// A text as it stands in a field of an answer: without white space.
pub open spec fn field_text(text: Seq<char>) -> Seq<char> {
    text.map_values(|c: char| field_char(c))
}

/// A text as it stands in a field of an answer.
pub fn control_field(value: &str) -> (s: String)
    ensures
        s@ == field_text(value@),
{
    let chars: Vec<char> = crate::text::chars_of(value);
    let mut s: String = String::new();
    let mut i: usize = 0;
    proof {
        assert(s@ =~= field_text(value@.subrange(0, 0)));
    }
    while i < chars.len()
        invariant
            i <= chars@.len(),
            chars@ == value@,
            s@ == field_text(value@.subrange(0, i as int)),
        decreases chars@.len() - i,
    {
        let c: char = if is_blank(chars[i]) {
            '_'
        } else {
            chars[i]
        };
        s.push(c);
        i = i + 1;
        proof {
            assert(s@ =~= field_text(value@.subrange(0, i as int)));
        }
    }
    proof {
        assert(value@.subrange(0, i as int) =~= value@);
    }
    s
}

/// A field of an answer can be told from the next: it holds no white space.
pub proof fn law_fields_hold_no_white_space(text: Seq<char>, i: int)
    requires
        0 <= i < text.len(),
    ensures
        field_text(text).len() == text.len(),
        !crate::text::is_white(field_text(text)[i]),
        field_text(text)[i] != '\0',
{
}

/// A token is left as it is in a field of an answer.
pub proof fn law_tokens_are_fields(text: Seq<char>)
    requires
        is_token(text),
    ensures
        field_text(text) == text,
{
    assert(field_text(text) =~= text);
}

/// How the tool is called.
pub open spec fn usage_text() -> Seq<char> {
    "usage:\n  zcrepl token\n  zcrepl recv --output PATH [--listen ADDR] [--port PORT] (--token TOKEN | --generate-token) [--bytes N]\n  zcrepl send --input PATH --peer HOST --port PORT --token TOKEN [--bytes N]\n  zcrepl csi-recv (--socket PATH | --control-url URL) --volume ID [--listen ADDR] [--port PORT] [--token TOKEN|auto] [--bytes N]\n  zcrepl csi-send (--socket PATH | --control-url URL) (--volume ID | --snapshot ID) --peer HOST --port PORT --token TOKEN [--bytes N]\n  zcrepl csi-status (--socket PATH | --control-url URL) [--repl-id ID]\n  zcrepl csi-mode --control-url URL [--scope SCOPE] [--mode async|sync]\n  zcrepl csi-route --control-url URL [--scope SCOPE] [--target-cluster NAME --gateway-endpoint HOST:PORT --spillover-tier NAME]\n"@
}

/// How the tool is called.
pub fn usage() -> (text: &'static str)
    ensures
        text@ == usage_text(),
{
    "usage:\n  zcrepl token\n  zcrepl recv --output PATH [--listen ADDR] [--port PORT] (--token TOKEN | --generate-token) [--bytes N]\n  zcrepl send --input PATH --peer HOST --port PORT --token TOKEN [--bytes N]\n  zcrepl csi-recv (--socket PATH | --control-url URL) --volume ID [--listen ADDR] [--port PORT] [--token TOKEN|auto] [--bytes N]\n  zcrepl csi-send (--socket PATH | --control-url URL) (--volume ID | --snapshot ID) --peer HOST --port PORT --token TOKEN [--bytes N]\n  zcrepl csi-status (--socket PATH | --control-url URL) [--repl-id ID]\n  zcrepl csi-mode --control-url URL [--scope SCOPE] [--mode async|sync]\n  zcrepl csi-route --control-url URL [--scope SCOPE] [--target-cluster NAME --gateway-endpoint HOST:PORT --spillover-tier NAME]\n"
}

/// An option sets its own field to the text that was given, or to the number that the text writes, and
/// leaves every other one as it was.
pub proof fn law_an_option_sets_its_own_field(d: OptsView, field: Field, text: Seq<char>, after: OptsView)
    requires
        with_field(d, field, text) == Ok::<OptsView, Seq<char>>(after),
    ensures
        after.generate_token == d.generate_token,
        after.socket == if field == Field::Socket { Some(text) } else { d.socket },
        after.control_url == if field == Field::ControlUrl { Some(text) } else { d.control_url },
        after.input == if field == Field::Input { Some(text) } else { d.input },
        after.output == if field == Field::Output { Some(text) } else { d.output },
        after.listen == if field == Field::Listen { Some(text) } else { d.listen },
        after.peer == if field == Field::Peer { Some(text) } else { d.peer },
        after.token == if field == Field::Token { Some(text) } else { d.token },
        after.volume == if field == Field::Volume { Some(text) } else { d.volume },
        after.snapshot == if field == Field::Snapshot { Some(text) } else { d.snapshot },
        after.repl_id == if field == Field::ReplId { Some(text) } else { d.repl_id },
        after.mode == if field == Field::Mode { Some(text) } else { d.mode },
        after.scope == if field == Field::Scope { Some(text) } else { d.scope },
        after.target_cluster == if field == Field::TargetCluster { Some(text) } else {
            d.target_cluster
        },
        after.gateway_endpoint == if field == Field::GatewayEndpoint { Some(text) } else {
            d.gateway_endpoint
        },
        after.spillover_tier == if field == Field::SpilloverTier { Some(text) } else {
            d.spillover_tier
        },
        field == Field::Port ==> after.port is Some && crate::text::unsigned_value(
            text,
            u16::MAX as nat,
        ) == Some(after.port->0 as nat),
        field != Field::Port ==> after.port == d.port,
        field == Field::Bytes ==> after.bytes is Some && after.bytes->0 > 0
            && crate::text::unsigned_value(text, u64::MAX as nat) == Some(after.bytes->0 as nat),
        field != Field::Bytes ==> after.bytes == d.bytes,
{
}

/// Options are taken one after the other: what comes first has been taken before what follows it is
/// looked at.
pub proof fn law_options_are_taken_in_order(
    name: Seq<char>,
    text: Seq<char>,
    rest: Seq<Seq<char>>,
    d: OptsView,
)
    requires
        name != "--generate-token"@,
        field_named(name) is Some,
    ensures
        with_field(d, field_named(name)->0, text) is Ok ==> parsed(seq![name, text] + rest, d)
            == parsed(rest, with_field(d, field_named(name)->0, text)->Ok_0),
        with_field(d, field_named(name)->0, text) is Err ==> parsed(seq![name, text] + rest, d) is Err,
        parsed(seq!["--generate-token"@] + rest, d) == parsed(
            rest,
            OptsView { generate_token: true, ..d },
        ),
{
    let two = seq![name, text] + rest;
    assert(two[0] == name && two[1] == text);
    assert(two.skip(2) =~= rest);
    let flag = seq!["--generate-token"@] + rest;
    assert(flag[0] == "--generate-token"@);
    assert(flag.skip(1) =~= rest);
}

} // verus!
