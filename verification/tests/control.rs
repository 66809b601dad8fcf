use std::time::Duration;

use zcblock::error::ErrorKind;
use zcblock::gateway::{
    check_results, is_last, parse_addresses, run_data, Frame, Header, Route, HEADER_LEN, OP_EOF,
    OP_HELLO, OP_HELLO_ACK, OP_READ_DESC, OP_RESULT, OP_WRITE_DESC,
};
use zcblock::repl::commands::{
    control_socket, control_url, csi_recv, csi_send, needed_url, receive_line, recv, request,
    route_request, send, send_control, send_line, status_line, Command,
};
use zcblock::repl::fields::{
    append_route_response_fields, csi_mode, csi_route, csi_status, mode_fields, receive_fields,
    route_fields, send_fields, status_fields, ReceiveResponse, ReplicationJob, ReplicationMode,
    ReplicationRoute, SendResponse,
};
use zcblock::repl::limit::BoundedWriter;
use zcblock::repl::options::{
    control_field, parse_opts, parse_u16, parse_u64, usage, validate_raw_line, validate_token, Opts,
};
use zcblock::secret::bundle::{
    active_expiry, publish_if_advanced, published_line, retained_line, survives_failure,
    Credential, SecretBundle,
};
use zcblock::secret::options::{
    duration_env_ms, parse_args, parse_duration, parse_duration_ms, policy_from_env,
    PolicyEnvironment, Setting,
};
use zcblock::secret::provider::{
    aws_secret, check_identity, check_result, command_settings, fetch, provider_name, read_secret,
    static_credentials, workload_identity_only, CommandResult, Fetch, Provider,
};

fn args(list: &[&str]) -> Vec<String> {
    list.iter().map(|text| text.to_string()).collect()
}

fn said(text: &str) -> Option<String> {
    Some(text.to_string())
}

fn bundle(generation: u64, secret: &str) -> SecretBundle {
    SecretBundle {
        generation,
        active_id: "key-b".to_string(),
        credentials: vec![
            Credential {
                id: "key-a".to_string(),
                secret: "a".repeat(64),
                expires_at_unix_ms: 5,
            },
            Credential {
                id: "key-b".to_string(),
                secret: secret.to_string(),
                expires_at_unix_ms: 1_030_000,
            },
        ],
        rest: String::new(),
    }
}

fn publish(published: &mut Option<SecretBundle>, candidate: SecretBundle) -> Result<(), String> {
    match publish_if_advanced(published, &candidate) {
        Ok(true) => {
            *published = Some(candidate);
            Ok(())
        }
        Ok(false) => Ok(()),
        Err(error) => Err(error.message),
    }
}

#[test]
fn publication_rejects_rollback_without_replacing_output() {
    let first = bundle(1, "s1");
    let second = bundle(2, "s2");
    let mut published = None;
    publish(&mut published, second).unwrap();
    let error = publish(&mut published, first).unwrap_err();
    assert!(error.contains("rolled back"));
    assert_eq!(error, "provider credential generation rolled back from 2 to 1");
    assert!(published.unwrap().same(&bundle(2, "s2")));
}

#[test]
fn publication_rejects_same_generation_with_different_contents() {
    let current = bundle(1, "s1");
    let changed = bundle(1, &"f".repeat(64));
    let mut published = None;
    publish(&mut published, current).unwrap();
    let error = publish(&mut published, changed).unwrap_err();
    assert!(error.contains("different contents"));
    assert!(published.unwrap().same(&bundle(1, "s1")));
}

#[test]
fn an_equal_bundle_is_not_published_again() {
    let published = Some(bundle(3, "s"));
    assert_eq!(publish_if_advanced(&published, &bundle(3, "s")).unwrap(), false);
    assert_eq!(publish_if_advanced(&published, &bundle(4, "s")).unwrap(), true);
    assert_eq!(publish_if_advanced(&None, &bundle(0, "s")).unwrap(), true);
    let mut more = bundle(3, "s");
    more.rest = "x".to_string();
    assert!(publish_if_advanced(&published, &more).is_err());
}

#[test]
fn publications_are_reported_without_the_secret() {
    let current = bundle(3, "hunter2");
    assert_eq!(active_expiry(&current), 1_030_000);
    assert_eq!(
        published_line("/run/x.json", &current),
        "ZCSECRET_PUBLISHED path=/run/x.json generation=3 active_id=key-b \
         expires_at_unix_ms=1030000 secret=redacted"
    );
    let mut absent = bundle(3, "x");
    absent.active_id = "key-c".to_string();
    assert_eq!(active_expiry(&absent), 0);
    assert_eq!(
        retained_line("aws-ssm", &Some(current), "timeout"),
        "ZCSECRET_REFRESH_RETAIN provider=aws-ssm generation=3 error=timeout"
    );
    assert!(retained_line("p", &None, "e").contains(" generation=0 "));
    assert!(survives_failure(&Some(bundle(1, "s")), Some(5)));
    assert!(!survives_failure(&None, Some(5)));
    assert!(!survives_failure(&Some(bundle(1, "s")), None));
}

#[test]
fn provider_arguments_are_explicit() {
    let options = parse_args(&vec![
        "sync".into(),
        "--provider".into(),
        "aws-ssm".into(),
        "--name".into(),
        "/zc/test/admin".into(),
        "--region".into(),
        "us-east-1".into(),
        "--output".into(),
        "/run/zcsecrets/admin.json".into(),
        "--interval".into(),
        "250ms".into(),
    ])
    .unwrap();
    assert!(matches!(options.provider, Provider::AwsSsm { .. }));
    assert_eq!(options.interval.map(Duration::from_millis), Some(Duration::from_millis(250)));
}

#[test]
fn secret_arguments_are_complete() {
    let fault = |list: &[&str]| parse_args(&args(list)).unwrap_err().message;
    let text = fault(&[]);
    assert!(text.starts_with("usage:\n  zcsecret-materialize sync"));
    assert_eq!(fault(&["--help"]), text);
    assert_eq!(fault(&["sync"]), text);
    assert_eq!(fault(&["--provider", "gcp"]), text);
    assert_eq!(fault(&["--provider"]), "--provider requires a value");
    assert_eq!(fault(&["--x", "y"]), "unknown argument --x");
    assert_eq!(fault(&["--provider", "aws-ssm"]), "aws-ssm requires --name");
    assert_eq!(
        fault(&["--provider", "aws-secretsmanager"]),
        "aws-secrets-manager requires --secret-id"
    );
    assert_eq!(fault(&["--provider", "vault-agent"]), "vault-agent requires --source-file");
    assert_eq!(
        fault(&["--provider", "vault-agent", "--source-file", "/s"]),
        "--output is required"
    );
    assert_eq!(fault(&["--interval", "0s"]), "interval must be greater than zero");
    let vault = parse_args(&args(&[
        "--provider", "vault-agent", "--source-file", "/s", "--output", "/o",
    ]))
    .unwrap();
    assert_eq!(provider_name(&vault.provider), "vault-agent");
    assert_eq!((vault.output.as_str(), vault.interval), ("/o", None));
}

#[test]
fn durations_have_units() {
    assert_eq!(parse_duration_ms("250ms", "t").unwrap(), 250);
    assert_eq!(parse_duration_ms("2s", "t").unwrap(), 2_000);
    assert_eq!(parse_duration_ms("3m", "t").unwrap(), 180_000);
    assert_eq!(parse_duration_ms("4h", "t").unwrap(), 14_400_000);
    assert_eq!(parse_duration_ms("90d", "t").unwrap(), 7_776_000_000);
    assert_eq!(parse_duration_ms("17", "t").unwrap(), 17);
    assert_eq!(
        parse_duration_ms("ms", "t").unwrap_err().message,
        "t must be an integer duration"
    );
    assert_eq!(
        parse_duration_ms("18446744073709551615s", "t").unwrap_err().message,
        "t duration overflow"
    );
    assert_eq!(parse_duration("1h").unwrap(), 3_600_000);
}

#[test]
fn policies_come_from_the_environment() {
    let unset = || Setting { primary: None, fallback: None };
    let env = PolicyEnvironment {
        maximum_ttl: unset(),
        rotate_before: Setting { primary: None, fallback: said("1d") },
        activation_clock_skew: Setting { primary: said("5s"), fallback: said("9s") },
        maximum_versions: unset(),
    };
    let policy = policy_from_env(&env).unwrap();
    assert_eq!(policy.minimum_secret_bytes, 32);
    assert_eq!(policy.maximum_ttl_ms, 7_776_000_000);
    assert_eq!(policy.rotate_before_ms, 86_400_000);
    assert_eq!(policy.activation_clock_skew_ms, 5_000);
    assert_eq!(policy.maximum_versions, 16);
    let bad = PolicyEnvironment {
        maximum_versions: Setting { primary: said("many"), fallback: None },
        ..env
    };
    assert_eq!(
        policy_from_env(&bad).unwrap_err().message,
        "ZCSECRET_MAX_VERSIONS must be an integer"
    );
    assert_eq!(
        duration_env_ms(&Setting { primary: said("x"), fallback: None }, "ZC_T", "1s")
            .unwrap_err()
            .message,
        "ZC_T must be an integer duration"
    );
}

#[test]
fn providers_are_asked_with_commands() {
    let ssm = Provider::AwsSsm { name: "/n".to_string(), region: said("eu-west-1") };
    match fetch(&ssm) {
        Fetch::Command { service, arguments } => {
            assert_eq!(service, "ssm");
            assert_eq!(
                arguments,
                args(&[
                    "ssm", "get-parameter", "--name", "/n", "--with-decryption", "--query",
                    "Parameter.Value", "--output", "json", "--no-cli-pager", "--region",
                    "eu-west-1",
                ])
            );
        }
        other => panic!("{other:?}"),
    }
    let manager = Provider::AwsSecretsManager { secret_id: "id".to_string(), region: None };
    match fetch(&manager) {
        Fetch::Command { service, arguments } => {
            assert_eq!(service, "secretsmanager");
            assert_eq!(
                arguments,
                args(&[
                    "secretsmanager", "get-secret-value", "--secret-id", "id", "--query",
                    "SecretString", "--output", "json", "--no-cli-pager",
                ])
            );
        }
        other => panic!("{other:?}"),
    }
    let vault = Provider::VaultAgent { source_file: "/v".to_string() };
    assert!(matches!(fetch(&vault), Fetch::File { path } if path == "/v"));
    assert_eq!(provider_name(&ssm), "aws-ssm");
    assert_eq!(provider_name(&manager), "aws-secrets-manager");
}

#[test]
fn static_credentials_are_refused() {
    assert!(workload_identity_only(&None));
    assert!(workload_identity_only(&said("1")));
    assert!(!workload_identity_only(&said("0")));
    assert!(check_identity(true, &vec![false, false]).is_ok());
    assert!(check_identity(false, &vec![true]).is_ok());
    let error = check_identity(true, &vec![false, true]).unwrap_err();
    assert_eq!(error.kind, ErrorKind::PermissionDenied);
    assert!(error.message.starts_with("static AWS access-key/profile configuration is disabled"));
    assert_eq!(static_credentials().len(), 5);
    let (given, hidden) = command_settings(true);
    assert_eq!(given, args(&["AWS_SHARED_CREDENTIALS_FILE", "AWS_CONFIG_FILE"]));
    assert_eq!(hidden, args(&["AWS_PROFILE", "AWS_DEFAULT_PROFILE", "AWS_SDK_LOAD_CONFIG"]));
    let (given, hidden) = command_settings(false);
    assert!(given.is_empty() && hidden.is_empty());
}

#[test]
fn secrets_are_json_strings() {
    let done = |stdout: &[u8]| CommandResult {
        success: true,
        status: "exit status: 0".to_string(),
        stdout: stdout.to_vec(),
    };
    assert_eq!(
        aws_secret("ssm", &done(b" \"a\\u0062\\n\\\"\" \n")).unwrap(),
        "ab\n\""
    );
    let error = aws_secret("ssm", &done(b"{}")).unwrap_err();
    assert_eq!(error.kind, ErrorKind::InvalidInput);
    let reason = serde_json::from_slice::<String>(b"{}").unwrap_err().to_string();
    assert_eq!(error.message, format!("AWS secret value is not a JSON string: {reason}"));
    let failed = CommandResult {
        success: false,
        status: "exit status: 254".to_string(),
        stdout: vec![],
    };
    let error = aws_secret("ssm", &failed).unwrap_err();
    assert_eq!(error.kind, ErrorKind::Other);
    assert_eq!(error.message, "AWS CLI ssm materializer exited with exit status: 254");
    let large = done(&vec![b' '; 131_073]);
    assert_eq!(
        check_result("ssm", &large).unwrap_err().message,
        "AWS secret response exceeds 128 KiB"
    );
    assert!(check_result("ssm", &done(&vec![b' '; 131_072])).is_ok());
    assert_eq!(read_secret(Ok("x".to_string())).unwrap(), "x");
    assert_eq!(
        read_secret(Err("bad".to_string())).unwrap_err().message,
        "AWS secret value is not a JSON string: bad"
    );
}

fn frame(op: u16, sequence: u64, request_id: u64, payload: Vec<u8>) -> Frame {
    let mut header_bytes = vec![0u8; HEADER_LEN];
    header_bytes[..8].copy_from_slice(b"ZCFANW1\0");
    header_bytes[8..10].copy_from_slice(&5u16.to_le_bytes());
    header_bytes[10..12].copy_from_slice(&(HEADER_LEN as u16).to_le_bytes());
    header_bytes[12..14].copy_from_slice(&op.to_le_bytes());
    header_bytes[44..48].copy_from_slice(&(payload.len() as u32).to_le_bytes());
    header_bytes[48..56].copy_from_slice(&sequence.to_le_bytes());
    header_bytes[56..64].copy_from_slice(&request_id.to_le_bytes());
    let header = Header::decode(&header_bytes).unwrap();
    Frame::new(header_bytes, header, payload)
}

fn fake_leaf(request: &Frame, payloads: &mut Vec<Vec<u8>>) -> Option<Frame> {
    match request.header.op {
        OP_HELLO => Some(frame(OP_HELLO_ACK, 0, 0, Vec::new())),
        OP_WRITE_DESC => {
            payloads.push(request.payload.clone());
            Some(frame(
                OP_RESULT,
                request.header.sequence,
                request.header.request_id,
                Vec::new(),
            ))
        }
        OP_EOF => None,
        other => panic!("unexpected fake-leaf operation {other}"),
    }
}

#[test]
fn one_client_connection_survives_atomic_route_switch() {
    let mut route = Route::new();
    let mut observed = [Vec::new(), Vec::new()];
    let mut ask = |route: &mut Route, request: Frame| {
        let primary = fake_leaf(&request, &mut observed[0]);
        let secondary = fake_leaf(&request, &mut observed[1]);
        if is_last(&request) {
            return None;
        }
        let reply = run_data(route, &request, &primary.unwrap(), &secondary.unwrap()).unwrap();
        Some(Header::decode(&reply[..HEADER_LEN]).unwrap())
    };
    let hello = ask(&mut route, frame(OP_HELLO, 0, 0, Vec::new())).unwrap();
    assert_eq!(hello.op, OP_HELLO_ACK);
    let first = vec![0x11; 4096];
    let result = ask(&mut route, frame(OP_WRITE_DESC, 0, 41, first.clone())).unwrap();
    assert_eq!(result.request_id, 41);
    assert_eq!(
        route.control("secondary\n"),
        "OK active=secondary previous=primary generation=1 completed_hwm=1"
    );
    let second = vec![0x22; 4096];
    let result = ask(&mut route, frame(OP_WRITE_DESC, 1, 42, second.clone())).unwrap();
    assert_eq!(result.request_id, 42);
    assert!(ask(&mut route, frame(OP_EOF, 2, 0, Vec::new())).is_none());
    assert_eq!(route.completed_hwm, 2);
    for payloads in observed {
        assert_eq!(payloads, vec![first.clone(), second.clone()]);
    }
}

#[test]
fn wal_headers_are_checked() {
    let good = frame(OP_WRITE_DESC, 7, 8, vec![1, 2, 3]);
    assert_eq!(good.header.wire_payload_len(), 3);
    assert_eq!((good.header.sequence, good.header.request_id), (7, 8));
    let mut read = good.header;
    read.op = OP_READ_DESC;
    assert_eq!(read.wire_payload_len(), 0);
    let mut bytes = good.header_bytes.clone();
    bytes[12] = 13;
    assert_eq!(Header::decode(&bytes).unwrap_err().message, "unknown WAL operation 13");
    bytes[12] = 0;
    assert_eq!(Header::decode(&bytes).unwrap_err().message, "unknown WAL operation 0");
    bytes[10] = 127;
    assert_eq!(Header::decode(&bytes).unwrap_err().message, "invalid WAL frame header");
    bytes[10] = 128;
    bytes[0] = b'X';
    let error = Header::decode(&bytes).unwrap_err();
    assert_eq!(
        (error.kind, error.message.as_str()),
        (ErrorKind::InvalidData, "invalid WAL frame header")
    );
}

#[test]
fn mirrored_results_must_agree() {
    let request = frame(OP_WRITE_DESC, 0, 9, vec![0; 4]);
    let result = frame(OP_RESULT, 0, 9, vec![]);
    let other = frame(OP_RESULT, 1, 9, vec![]);
    assert!(result.identical(&frame(OP_RESULT, 0, 9, vec![])));
    assert_eq!(
        check_results(&request, &result, &other).unwrap_err().message,
        format!(
            "mirror results diverged primary={:?} secondary={:?}",
            result.header, other.header
        )
    );
    let stray = frame(OP_RESULT, 0, 8, vec![]);
    let mut route = Route::new();
    let error = run_data(&mut route, &request, &stray, &stray).unwrap_err();
    assert_eq!(error.message, "leaf result request id does not match the request");
    assert_eq!(route.completed_hwm, 0);
    let hello = frame(OP_HELLO, 0, 5, vec![]);
    assert!(check_results(&hello, &stray, &stray).is_ok());
}

#[test]
fn the_route_is_controlled_by_lines() {
    let mut route = Route::new();
    assert_eq!(route.control(" status \n"), "OK active=primary generation=0 completed_hwm=0");
    assert_eq!(
        route.control("primary"),
        "OK active=primary previous=primary generation=1 completed_hwm=0"
    );
    assert_eq!(route.control("other"), "ERR expected primary, secondary, or status");
    assert_eq!(route.generation, 1);
    let found = parse_addresses(&args(&["l", "p", "s", "c"])).unwrap();
    assert_eq!((found.listen.as_str(), found.control.as_str()), ("l", "c"));
    let words = ["l", "p", "s", "c", "x"];
    let texts = [
        (0, "usage: zcwal-route-gateway LISTEN PRIMARY SECONDARY CONTROL_LISTEN"),
        (1, "missing primary"),
        (2, "missing secondary"),
        (3, "missing control listen"),
        (5, "too many arguments"),
    ];
    for (count, text) in texts {
        assert_eq!(parse_addresses(&args(&words[..count])).unwrap_err().message, text);
    }
}

#[test]
fn replication_options_take_values_either_way() {
    let opts = parse_opts(&args(&[
        "--socket=/s", "--source", "/in", "--target=/out", "--peer-address=h", "--port", "7",
        "--generate-token", "--id=r", "--bytes=9", "--control-url", "u", "--listen-address", "l",
        "--volume-id=v", "--snapshot-id", "n", "--mode=sync", "--scope", "x", "--token=t",
        "--target-cluster=c", "--gateway-endpoint", "g", "--spillover-tier=--spillover-tier=w",
    ]))
    .unwrap();
    assert_eq!((opts.socket, opts.input, opts.output), (said("/s"), said("/in"), said("/out")));
    assert_eq!((opts.peer, opts.port, opts.generate_token), (said("h"), Some(7), true));
    assert_eq!((opts.repl_id, opts.bytes, opts.listen), (said("r"), Some(9), said("l")));
    assert_eq!((opts.volume, opts.snapshot, opts.mode), (said("v"), said("n"), said("sync")));
    assert_eq!((opts.scope, opts.token, opts.control_url), (said("x"), said("t"), said("u")));
    assert_eq!((opts.target_cluster, opts.gateway_endpoint), (said("c"), said("g")));
    assert_eq!(opts.spillover_tier, said("w"));
    let fault = |list: &[&str]| parse_opts(&args(list)).unwrap_err();
    assert_eq!(fault(&["--peer-address"]), "--peer-address requires a value");
    assert_eq!(fault(&["--port", "70000"]), "--port must be an integer from 0 to 65535");
    assert_eq!(fault(&["--bytes=0"]), "--bytes must be greater than zero");
    assert_eq!(fault(&["--what"]), format!("unknown option --what\n{}", usage()));
    assert_eq!(fault(&["--generate-token=1"]), format!("unknown option --generate-token=1\n{}", usage()));
    assert_eq!(parse_u16("65535", "p").unwrap(), 65535);
    assert_eq!(parse_u64("x", "b").unwrap_err(), "b must be an integer");
}

#[test]
fn replication_commands_have_other_names() {
    let command = |name: &str| request(&args(&[name])).unwrap().unwrap().0;
    assert_eq!(command("generate-token"), Command::Token);
    assert_eq!(command("receive"), Command::Recv);
    assert_eq!(command("send"), Command::Send);
    assert_eq!(command("controller-recv"), Command::CsiRecv);
    assert_eq!(command("csi-send"), Command::CsiSend);
    assert_eq!(command("controller-status"), Command::CsiStatus);
    assert_eq!(command("csi-mode"), Command::CsiMode);
    assert_eq!(command("controller-route"), Command::CsiRoute);
    assert!(request(&args(&[])).unwrap().is_none());
    assert!(request(&args(&["help", "--x"])).unwrap().is_none());
    assert_eq!(request(&args(&["go"])).unwrap_err(), format!("unknown command go\n{}", usage()));
    assert!(request(&args(&["go", "--x"])).unwrap_err().starts_with("unknown option --x"));
}

#[test]
fn tokens_have_no_white_space() {
    assert!(validate_token(&"x".repeat(512), "token").is_ok());
    let text = "token must be non-empty, at most 512 bytes, and contain no whitespace or NUL";
    for bad in ["", "a b", "a\0b", "a\u{2003}b"] {
        assert_eq!(validate_token(bad, "token").unwrap_err(), text);
    }
    assert!(validate_token(&"\u{e9}".repeat(257), "token").is_err());
    assert!(validate_token(&"\u{e9}".repeat(256), "token").is_ok());
    assert!(validate_raw_line("REPL_STATUS").is_ok());
    for bad in ["", "a\nb", "a\0"] {
        assert_eq!(
            validate_raw_line(bad).unwrap_err(),
            "control command must be one non-empty line without NUL"
        );
    }
    assert_eq!(control_field("a b\t\0c\u{a0}d"), "a_b__c_d");
}

fn opts(list: &[&str]) -> Opts {
    parse_opts(&args(list)).unwrap()
}

#[test]
fn receiving_needs_an_output_and_a_token() {
    let plan = recv(&opts(&["--output", "/o", "--token", "t", "--bytes", "5"])).unwrap();
    assert_eq!((plan.listen.as_str(), plan.port, plan.output.as_str()), ("0.0.0.0", 0, "/o"));
    assert_eq!((plan.token, plan.limit), (said("t"), 5));
    let plan = recv(&opts(&["--output", "/o", "--generate-token"])).unwrap();
    assert_eq!((plan.token, plan.limit), (None, u64::MAX));
    assert_eq!(recv(&opts(&[])).unwrap_err(), "recv requires --output PATH");
    assert_eq!(
        recv(&opts(&["--output", "/o"])).unwrap_err(),
        "recv requires --token TOKEN or --generate-token"
    );
    assert!(recv(&opts(&["--output", "/o", "--token", "a b"])).is_err());
}

#[test]
fn sending_needs_a_peer_and_a_port() {
    let all = ["--input", "/i", "--peer", "h", "--port", "9", "--token", "t"];
    let plan = send(&opts(&all)).unwrap();
    assert_eq!((plan.input.as_str(), plan.peer.as_str(), plan.port), ("/i", "h", 9));
    assert_eq!((plan.token.as_str(), plan.limit), ("t", u64::MAX));
    let fault = |list: &[&str]| send(&opts(list)).unwrap_err();
    assert_eq!(fault(&[]), "send requires --input PATH");
    assert_eq!(fault(&all[..2]), "send requires --peer HOST");
    assert_eq!(fault(&all[..4]), "send requires --port PORT");
    assert_eq!(fault(&all[..6]), "send requires --token TOKEN");
    assert_eq!(
        fault(&["--input", "/i", "--peer", "h", "--port", "0"]),
        "send --port must be greater than zero"
    );
}

#[test]
fn control_lines_name_volumes() {
    let plan = csi_recv(&opts(&["--volume", "v", "--token", "auto", "--bytes", "3"])).unwrap();
    assert_eq!(plan.token, None);
    assert_eq!(
        receive_line(&plan),
        "REPL_RECV volume=v listen=0.0.0.0 port=0 token=auto bytes=3"
    );
    let plan = csi_recv(&opts(&["--volume", "v", "--token", "t", "--port", "4"])).unwrap();
    assert_eq!(receive_line(&plan), "REPL_RECV volume=v listen=0.0.0.0 port=4 token=t");
    assert_eq!(csi_recv(&opts(&[])).unwrap_err(), "csi-recv requires --volume ID");
    let tail = ["--peer", "h", "--port", "4", "--token", "t"];
    let with = |head: &[&str]| opts(&[head, &tail[..]].concat());
    let plan = csi_send(&with(&["--volume", "v"])).unwrap();
    assert_eq!(send_line(&plan), "REPL_SEND volume=v peer=h port=4 token=t");
    let plan = csi_send(&with(&["--snapshot", "s", "--bytes", "8"])).unwrap();
    assert_eq!(send_line(&plan), "REPL_SEND snapshot=s peer=h port=4 token=t bytes=8");
    let text = "csi-send requires exactly one of --volume ID or --snapshot ID";
    assert_eq!(csi_send(&with(&[])).unwrap_err(), text);
    assert_eq!(csi_send(&with(&["--volume", "v", "--snapshot", "s"])).unwrap_err(), text);
    assert_eq!(
        csi_send(&opts(&["--volume", "v"])).unwrap_err(),
        "csi-send requires --peer HOST"
    );
    assert_eq!(status_line(&said("r")), "REPL_STATUS repl_id=r");
    assert_eq!(status_line(&None), "REPL_STATUS");
    assert_eq!(send_control("REPL_STATUS").unwrap(), "REPL_STATUS\n");
    assert!(send_control("a\nb").is_err());
}

#[test]
fn the_controller_is_found() {
    assert_eq!(control_socket(&said("/a"), &said("/b")), "/a");
    assert_eq!(control_socket(&None, &said("/b")), "/b");
    assert_eq!(control_socket(&None, &None), "/var/lib/zcblock-csi/control.sock");
    assert_eq!(control_url(&said("u"), &said("e")), said("u"));
    assert_eq!(control_url(&None, &said("e")), said("e"));
    assert_eq!(control_url(&None, &None), None);
    assert_eq!(needed_url("csi-mode", &said("u")).unwrap(), "u");
    assert_eq!(
        needed_url("csi-mode", &None).unwrap_err(),
        "csi-mode requires --control-url URL or ZCBLOCK_CONTROL_URL"
    );
    assert!(route_request(&opts(&["--scope", "x"])).unwrap().is_none());
    let all = ["--target-cluster", "c", "--gateway-endpoint", "g:1", "--spillover-tier", "cold"];
    let route = route_request(&opts(&all)).unwrap().unwrap();
    assert_eq!((route.scope, route.target_cluster.as_str()), (None, "c"));
    let fault = |list: &[&str]| route_request(&opts(list)).unwrap_err();
    assert_eq!(fault(&all[2..]), "csi-route set requires --target-cluster NAME");
    assert_eq!(fault(&all[..2]), "csi-route set requires --gateway-endpoint HOST:PORT");
    assert_eq!(fault(&all[..4]), "csi-route set requires --spillover-tier NAME");
}

fn job() -> ReplicationJob {
    ReplicationJob {
        repl_id: "r1".to_string(),
        role: "send".to_string(),
        state: "running".to_string(),
        subject: "vol a".to_string(),
        peer: "h:1".to_string(),
        port: None,
        bytes: 10,
        bytes_limit: None,
        replication_mode: "async".to_string(),
        started_at_secs: 5,
        started_at_millis: 0,
        updated_at_millis: 0,
        finished_at_secs: None,
        finished_at_millis: None,
        error: None,
        target_cluster: None,
        gateway_endpoint: None,
        spillover_tier: None,
    }
}

#[test]
fn jobs_are_described() {
    let head = "repl_id=r1 role=send state=running subject=vol_a peer=h:1 bytes=10 \
                replication_mode=async started_at_secs=5";
    assert_eq!(status_fields(&job()), head);
    let full = ReplicationJob {
        port: Some(7),
        bytes_limit: Some(4),
        started_at_millis: 1,
        updated_at_millis: 2,
        finished_at_secs: Some(3),
        finished_at_millis: Some(4),
        error: said("no space"),
        target_cluster: said("c"),
        gateway_endpoint: said("g"),
        spillover_tier: said("t"),
        ..job()
    };
    assert_eq!(
        status_fields(&full),
        format!(
            "{head} port=7 bytes_limit=4 bytes_remaining=0 started_at_millis=1 \
             updated_at_millis=2 finished_at_secs=3 finished_at_millis=4 error=no_space \
             target_cluster=c gateway_endpoint=g spillover_tier=t"
        )
    );
    assert_eq!(csi_status(&said("r9"), &vec![]), args(&["ERR repl_id r9 not found"]));
    assert_eq!(csi_status(&said("r1"), &vec![job()]), vec![format!("OK {head}")]);
    assert_eq!(
        csi_status(&None, &vec![job()]),
        vec!["OK jobs=1".to_string(), format!("JOB {head}")]
    );
}

#[test]
fn policies_and_routes_are_described() {
    let policy = || ReplicationMode {
        scope: "vol a".to_string(),
        mode: "sync".to_string(),
        generation: 2,
        updated_at_secs: 3,
    };
    let text = "scope=vol_a mode=sync generation=2 updated_at_secs=3";
    assert_eq!(mode_fields(&policy()), text);
    assert_eq!(csi_mode(&said("vol a"), &vec![policy()]), vec![format!("OK {text}")]);
    assert_eq!(csi_mode(&said("vol b"), &vec![policy()]), args(&["ERR scope vol_b not found"]));
    assert_eq!(
        csi_mode(&None, &vec![policy()]),
        vec!["OK policies=1".to_string(), format!("POLICY {text}")]
    );
    let route = || ReplicationRoute {
        scope: "s".to_string(),
        target_cluster: "c".to_string(),
        gateway_endpoint: "g:1".to_string(),
        spillover_tier: "t".to_string(),
        generation: 4,
        updated_at_secs: 5,
    };
    let text = "scope=s target_cluster=c gateway_endpoint=g:1 spillover_tier=t generation=4 \
                updated_at_secs=5";
    assert_eq!(route_fields(&route()), text);
    assert_eq!(csi_route(&said("s"), &vec![route()]), vec![format!("OK {text}")]);
    assert_eq!(csi_route(&said("q"), &vec![]), args(&["ERR scope q not found"]));
    assert_eq!(
        csi_route(&None, &vec![route()]),
        vec!["OK routes=1".to_string(), format!("ROUTE {text}")]
    );
    let mut fields = "x".to_string();
    append_route_response_fields(&mut fields, Some("a b"), None, Some("t"));
    assert_eq!(fields, "x target_cluster=a_b spillover_tier=t");
}

#[test]
fn started_transfers_are_described() {
    let receive = ReceiveResponse {
        repl_id: "r".to_string(),
        role: "recv".to_string(),
        volume_id: "v".to_string(),
        target: "/t x".to_string(),
        listen: "l".to_string(),
        port: 4,
        token: "k".to_string(),
        replication_mode: "async".to_string(),
        target_cluster: said("c"),
        gateway_endpoint: None,
        spillover_tier: None,
    };
    assert_eq!(
        receive_fields(&receive),
        "OK repl_id=r role=recv volume=v target=/t_x listen=l port=4 token=k \
         replication_mode=async target_cluster=c"
    );
    let sent = SendResponse {
        repl_id: "r".to_string(),
        role: "send".to_string(),
        source: "/s".to_string(),
        peer: "h".to_string(),
        port: 4,
        bytes_limit: 9,
        replication_mode: "sync".to_string(),
        target_cluster: None,
        gateway_endpoint: None,
        spillover_tier: said("t"),
    };
    assert_eq!(
        send_fields(&sent),
        "OK repl_id=r role=send source=/s peer=h port=4 bytes_limit=9 replication_mode=sync \
         spillover_tier=t"
    );
}

#[test]
fn a_bounded_writer_takes_no_more_than_its_limit() {
    let mut writer = BoundedWriter::new((), 10);
    assert!(writer.allows(10).is_ok());
    writer.took(6);
    assert_eq!(writer.remaining, 4);
    let error = writer.allows(5).unwrap_err();
    assert_eq!(
        (error.kind, error.message.as_str()),
        (ErrorKind::InvalidData, "replication byte limit exceeded")
    );
    writer.took(9);
    assert_eq!(writer.remaining, 0);
    assert!(writer.allows(0).is_ok());
}
