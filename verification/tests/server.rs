//! The service: who is let in, and what is answered.
use proglog::auth::authorizer::{decide, Authorizer, PolicyError};
use proglog::auth::matcher::{harmless, known_effect};
use proglog::error::LogError;
use proglog::log::config::{Config, SegmentConfig};
use proglog::log::Log;
use proglog::record::Record;
use proglog::server::certificate::{extract_subject_name, first_name};
use proglog::server::commit::CommitLog;
use proglog::server::status::{Code, Status};
use proglog::server::{
    auth_reply, consume_next, consume_step, produce_step, ConsumeRequest, ConsumeResponse,
    ConsumeStep, LogServerService, ProduceRequest, ProduceResponse, ServerConfig, CONSUME_ACTION,
    OBJECT_WILDCARD, PRODUCE_ACTION,
};

const MODEL: &str = "
[request_definition]
r = sub, obj, act

[policy_definition]
p = sub, obj, act

[policy_effect]
e = some(where (p.eft == allow))

[matchers]
m = r.sub == p.sub && r.obj == p.obj && r.act == p.act
";

const POLICY: &str = "
p, root, *, produce
p, root, *, consume
";

/// A policy by which `root` may produce and consume.
fn authorizer() -> Authorizer {
    Authorizer::new(MODEL, POLICY).unwrap()
}

/// A policy that asks for more than it is given.
fn failing_authorizer() -> Authorizer {
    let model = MODEL.replace("r = sub, obj, act", "r = sub, obj, act, when");
    Authorizer::new(&model, POLICY).unwrap()
}

fn der(tag: u8, parts: &[Vec<u8>]) -> Vec<u8> {
    let content: Vec<u8> = parts.concat();
    let mut bytes = vec![tag];
    let len = content.len();
    if len < 128 {
        bytes.push(len as u8);
    } else if len < 256 {
        bytes.extend_from_slice(&[0x81, len as u8]);
    } else {
        bytes.extend_from_slice(&[0x82, (len / 256) as u8, (len % 256) as u8]);
    }
    bytes.extend_from_slice(&content);
    bytes
}

/// A name made of these common names.
fn name(common_names: &[&str]) -> Vec<u8> {
    let parts: Vec<Vec<u8>> = common_names
        .iter()
        .map(|text| {
            let oid = der(0x06, &[vec![0x55, 0x04, 0x03]]);
            let value = der(0x0c, &[text.as_bytes().to_vec()]);
            der(0x31, &[der(0x30, &[oid, value])])
        })
        .collect();
    der(0x30, &parts)
}

/// A certificate whose subject has these common names.
fn certificate(common_names: &[&str]) -> Vec<u8> {
    let ed25519 = der(0x30, &[der(0x06, &[vec![0x2b, 0x65, 0x70]])]);
    let time = |text: &str| der(0x17, &[text.as_bytes().to_vec()]);
    let key = der(0x03, &[vec![0; 33]]);
    let body = der(
        0x30,
        &[
            der(0xa0, &[der(0x02, &[vec![2]])]),
            der(0x02, &[vec![1]]),
            ed25519.clone(),
            name(&["issuer"]),
            der(0x30, &[time("250101000000Z"), time("350101000000Z")]),
            name(common_names),
            der(0x30, &[ed25519.clone(), key]),
        ],
    );
    let signature = der(0x03, &[vec![0; 65]]);
    der(0x30, &[body, ed25519, signature])
}

fn root() -> Option<Vec<Vec<u8>>> {
    Some(vec![certificate(&["root"])])
}

fn nobody() -> Option<Vec<Vec<u8>>> {
    Some(vec![certificate(&["nobody"])])
}

fn service() -> LogServerService<Log> {
    let log = Log::new("dir".to_string(), Config::default(), Vec::new());
    LogServerService::new(ServerConfig::new(log, authorizer()))
}

fn create_record(value: Vec<u8>, offset: u64) -> Record {
    Record { value, offset }
}

#[test]
fn test_produce_consume() {
    let mut service = service();
    let record = create_record("hello world".into(), 0);
    let request = ProduceRequest {
        record: Some(record.clone()),
    };
    let produce = service.produce(&root(), request).unwrap().unwrap();
    let consume_req = ConsumeRequest {
        offset: produce.offset,
    };
    let consume_res = service.consume(&root(), consume_req).unwrap();
    let consume = consume_res.record.unwrap();
    assert_eq!(consume.value, record.value);
    assert_eq!(consume.offset, record.offset);
}

#[test]
fn test_consume_past_boundry() {
    let mut service = service();
    let record = create_record("hello world".into(), 0);
    let produce_req = ProduceRequest {
        record: Some(record.clone()),
    };
    let produce = service.produce(&root(), produce_req).unwrap().unwrap();
    let consume_req = ConsumeRequest {
        offset: produce.offset + 1,
    };
    let status = service.consume(&root(), consume_req).unwrap_err();
    assert_eq!(status, Status::new(Code::OutOfRange, "record not found"));
}

#[test]
fn test_produce_consume_stream() {
    let mut service = service();
    let messages = ["message1", "message2"];
    let records: Vec<Record> = messages
        .iter()
        .enumerate()
        .map(|(i, x)| create_record((*x).into(), i as u64))
        .collect();

    for rec in records.clone() {
        let req = ProduceRequest {
            record: Some(rec.clone()),
        };
        let r = service.produce_stream(&root(), Ok(req)).unwrap().unwrap();
        assert!(
            r.offset == rec.offset,
            "Wanted offset: {}, got: {}",
            rec.offset,
            r.offset
        );
    }
    let mut req = ConsumeRequest { offset: 0 };
    for rec in records {
        let response = match service.consume_stream(&root(), req) {
            ConsumeStep::Send(response) => response,
            _ => panic!("a record should be sent"),
        };
        let record = response.record.unwrap();
        assert!(
            record.offset == rec.offset,
            "Wanted offset: {}, got: {}",
            rec.offset,
            record.offset,
        );
        assert!(
            record.value == rec.value,
            "Wanted value: {:?}, got: {:?}",
            rec.value,
            record.value,
        );
        req = consume_next(req, true).unwrap();
    }
    assert!(matches!(
        service.consume_stream(&root(), req),
        ConsumeStep::Retry
    ));
    assert_eq!(consume_next(req, false), None);
}

#[test]
fn test_unauthorized() {
    let mut service = service();
    let record = create_record("hello world".into(), 0);
    let produce_req = ProduceRequest {
        record: Some(record.clone()),
    };
    let refused = Status::new(Code::Unauthenticated, "certificate authentication failed");
    let reply = service.produce(&nobody(), produce_req).unwrap();
    assert_eq!(reply, Err(Status::new(Code::Unauthenticated, "certificate authentication failed")));
    let consume_req = ConsumeRequest { offset: 0 };
    assert_eq!(service.consume(&nobody(), consume_req).unwrap_err(), refused);
    assert_eq!(service.config.commit_log.highest_offset(), 0);
    assert_eq!(service.config.commit_log.segments[0].store.size, 0);
}

#[test]
fn no_certificate_is_refused() {
    let mut service = service();
    let record = create_record(vec![1], 0);
    let reply = service.produce(
        &None,
        ProduceRequest {
            record: Some(record),
        },
    );
    let refused = Status::new(Code::Unauthenticated, "No certificate provided");
    assert_eq!(reply, Ok(Err(refused)));
    let status = service
        .consume(&None, ConsumeRequest { offset: 0 })
        .unwrap_err();
    assert_eq!(status.message, "No certificate provided");
    let status = service.produce(&Some(vec![]), ProduceRequest { record: None });
    assert_eq!(status.unwrap().unwrap_err().message, "certificate authentication failed");
}

#[test]
fn one_good_certificate_is_enough() {
    let service = service();
    let certs = vec![vec![1, 2, 3], certificate(&["nobody"]), certificate(&["root"])];
    assert_eq!(service.auth(&certs, OBJECT_WILDCARD, PRODUCE_ACTION), Ok(()));
    assert!(service.auth(&certs, "thing", PRODUCE_ACTION).is_err());
    assert!(service.auth(&certs, OBJECT_WILDCARD, "delete").is_err());
    assert_eq!(auth_reply(true), Ok(()));
    assert_eq!(auth_reply(false).unwrap_err().code, Code::Unauthenticated);
}

#[test]
fn request_without_a_record_is_invalid() {
    let mut service = service();
    let reply = service.produce(&root(), ProduceRequest { record: None });
    let invalid = Status::new(Code::InvalidArgument, "Invalid record provided");
    assert_eq!(reply, Ok(Err(invalid)));
}

#[test]
fn failure_of_the_log_is_given() {
    let config = Config {
        segment: SegmentConfig {
            max_store_bytes: 1024,
            max_index_bytes: 13,
            initial_offset: 0,
        },
    };
    let log = Log::new("dir".to_string(), config, Vec::new());
    let mut service = LogServerService::new(ServerConfig::new(log, authorizer()));
    let request = || ProduceRequest {
        record: Some(create_record(vec![1], 0)),
    };
    assert_eq!(
        service.produce(&root(), request()),
        Ok(Ok(ProduceResponse { offset: 0 }))
    );
    assert_eq!(
        service.produce(&root(), request()),
        Err(LogError::UnexpectedEof)
    );
    assert_eq!(service.config.commit_log.read(0).unwrap().value, vec![1]);
}

#[test]
fn authorizer_decides() {
    let authorizer = authorizer();
    let ask = |subject: &str, action: &str| {
        authorizer.clone().authorize(
            subject.to_string(),
            OBJECT_WILDCARD.to_string(),
            action.to_string(),
        )
    };
    assert_eq!(ask("root", CONSUME_ACTION), Ok(()));
    let denied = Status::new(Code::PermissionDenied, "permission denied");
    assert_eq!(ask("nobody", CONSUME_ACTION), Err(denied));
    let failed = failing_authorizer().authorize(
        "root".to_string(),
        OBJECT_WILDCARD.to_string(),
        CONSUME_ACTION.to_string(),
    );
    assert_eq!(failed, Err(Status::new(Code::Unknown, "unknown enforcer error")));
}

/// A model with this matcher.
fn model_with(matcher: &str) -> String {
    let at = MODEL.find("m = ").unwrap();
    format!("{}m = {}\n", &MODEL[..at], matcher)
}

fn refused(result: Result<Authorizer, PolicyError>) -> PolicyError {
    match result {
        Ok(_) => panic!("there should be no authorizer"),
        Err(error) => error,
    }
}

#[test]
fn policies_that_can_fail_are_unsupported() {
    let model = model_with("keyMatch(r.sub, p.sub) && r.act == p.act");
    assert_eq!(refused(Authorizer::new(&model, POLICY)), PolicyError::Unsupported);
    let model = MODEL.replace("some(where (p.eft == allow))", "any(p.eft)");
    assert_eq!(refused(Authorizer::new(&model, POLICY)), PolicyError::Unsupported);
    match refused(Authorizer::new("no model", POLICY)) {
        PolicyError::Refused(reason) => assert!(reason.contains("no model"), "{}", reason),
        PolicyError::Unsupported => panic!("the model should be refused"),
    }
    let model = model_with("r.sub == ");
    match refused(Authorizer::new(&model, POLICY)) {
        PolicyError::Refused(reason) => assert!(reason.contains("'m'"), "{}", reason),
        PolicyError::Unsupported => panic!("the model should be refused"),
    }
}

#[test]
fn roles_and_groups_are_supported() {
    let model = model_with("(g(r.sub, p.sub) || r.sub == \"admin\") && !(r.act != p.act)");
    let model = format!("[role_definition]\ng = _, _\n{}", model);
    let policy = format!("{}g, alice, root\n", POLICY);
    let authorizer = Authorizer::new(&model, &policy).unwrap();
    let ask = |subject: &str, action: &str| {
        authorizer
            .authorize(subject.to_string(), "*".to_string(), action.to_string())
            .is_ok()
    };
    assert!(ask("root", "produce"));
    assert!(ask("alice", "produce"));
    assert!(ask("admin", "consume"));
    assert!(!ask("bob", "produce"));
    assert!(!ask("alice", "delete"));
}

#[test]
fn arrays_and_strings_are_supported() {
    let model = model_with("r.sub in [\"root\", \"a\\\"b(\"] && r.act == p.act");
    let authorizer = Authorizer::new(&model, POLICY).unwrap();
    let ask = |subject: &str| {
        authorizer
            .authorize(subject.to_string(), "*".to_string(), "produce".to_string())
            .is_ok()
    };
    assert!(ask("root"));
    assert!(ask("a\"b("));
    assert!(!ask("bob"));
    let model = model_with("keyGet2(r.sub, \"/:id\", \"id\") == \"7\"");
    let authorizer = Authorizer::new(&model, POLICY).unwrap();
    let path = |subject: &str| {
        authorizer
            .authorize(subject.to_string(), "*".to_string(), "produce".to_string())
            .is_ok()
    };
    assert!(path("/7"));
    assert!(!path("/é"));
}

#[test]
fn deep_matchers_are_evaluated() {
    // As many levels as there can be, of each kind.
    let deepest = [
        format!("{}true{}", "(".repeat(32), ")".repeat(32)),
        format!("r.sub{}", " == r.sub".repeat(32)),
        format!("r.sub{}", " in r.sub".repeat(32)),
        format!("{}true", "!".repeat(32)),
        format!("true{}", " && true".repeat(32)),
    ];
    for matcher in deepest {
        let model = model_with(&matcher);
        match Authorizer::new(&model, POLICY) {
            Ok(authorizer) => {
                let _ = authorizer.authorize("a".to_string(), "b".to_string(), "c".to_string());
            }
            Err(error) => assert!(error != PolicyError::Unsupported, "{}", matcher),
        }
    }
}

#[test]
fn harmless_matchers() {
    let is_harmless = |text: &str| harmless(&text.to_string());
    for text in [
        "",
        "r_sub == p_sub && r_obj == p_obj && r_act == p_act",
        "g(r_sub, p_sub) && (r_act == p_act || p_act == \"*\")",
        "g2 (r_sub, p_sub)",
        "!(r_sub == p_sub) && !g(r_sub, p_sub)",
        "r_sub < p_sub",
        "r_sub in [\"a\", \"b\"] && r_act in (p_act)",
        "r_sub == \"a b(c) + d/é!!. \\\" x(\"",
    ] {
        assert!(is_harmless(text), "{}", text);
    }
    for text in [
        "keyMatch(r_sub, p_sub)",
        "keyMatch (r_sub, p_sub)",
        "keyMatch!(r_sub, p_sub)",
        "keyMatch ! (r_sub, p_sub)",
        "eval(p_rule)",
        "xg(r_sub)",
        "1 / 0 == 1",
        "1 << 99 == 1",
        "r_sub == `a`",
        "r_sub.len == 1",
        "r_sub[0] == 1",
        "r_sub == \"a\" + \"b\"",
    ] {
        assert!(!is_harmless(text), "{}", text);
    }
    // Every level counts, of whatever kind.
    let nested = |n: usize| format!("{}a{}", "(".repeat(n), ")".repeat(n));
    assert!(is_harmless(&nested(32)) && !is_harmless(&nested(33)));
    for step in ["a == ", "a in ", "!", "if ", "a & ", "switch ", "["] {
        assert!(is_harmless(&step.repeat(32)), "{}", step);
        assert!(!is_harmless(&step.repeat(33)), "{}", step);
    }
    assert!(is_harmless(&"a".repeat(5000)));
}

#[test]
fn known_effects() {
    let is_known = |text: &str| known_effect(&text.to_string());
    assert!(is_known("some(where (p_eft == allow))"));
    assert!(is_known("!some(where (p_eft == deny))"));
    assert!(is_known("some(where (p_eft == allow)) && !some(where (p_eft == deny))"));
    assert!(is_known("priority(p_eft) || deny"));
    assert!(!is_known("some(where (p_eft == deny))"));
}

#[test]
fn turns_on_a_log_in_files() {
    let mut service = service();
    let item = |value: u8| {
        Ok(ProduceRequest {
            record: Some(create_record(vec![value], 0)),
        })
    };
    let replies: Vec<_> = [item(1), Err("broken".to_string()), item(2)]
        .into_iter()
        .map(|item| service.produce_turn(&root(), item).unwrap().unwrap())
        .collect();
    assert_eq!(replies[0], Ok(ProduceResponse { offset: 0 }));
    assert_eq!(replies[1], Err(Status::new(Code::Unknown, "broken")));
    assert_eq!(replies[2], Ok(ProduceResponse { offset: 1 }));
    let step = service.consume_turn(&root(), ConsumeRequest { offset: 1 });
    assert!(matches!(step, Some(ConsumeStep::Send(_))));

    // There is no offset left.
    service.config.commit_log.segments[0].next_offset = u64::MAX;
    assert_eq!(service.produce_turn(&root(), item(3)), None);
    let reply = service.produce_turn(&nobody(), item(3)).unwrap().unwrap();
    assert_eq!(reply.unwrap_err().code, Code::Unknown);
    // The index is gone.
    service.config.commit_log.segments[0].index.mmap.clear();
    let request = ConsumeRequest { offset: 1 };
    assert!(service.consume_turn(&root(), request).is_none());
    let step = service.consume_turn(&nobody(), request);
    assert!(matches!(step, Some(ConsumeStep::Stop(_))));
}

#[test]
fn outcomes_are_decided() {
    assert_eq!(decide(Some(true)), Ok(()));
    assert_eq!(decide(Some(false)).unwrap_err().code, Code::PermissionDenied);
    assert_eq!(decide(None).unwrap_err().code, Code::Unknown);
}

#[test]
fn first_common_name_counts() {
    let name = extract_subject_name(&certificate(&["root", "other"]));
    assert_eq!(name, Some("root".to_string()));
    assert_eq!(extract_subject_name(&certificate(&[])), None);
    assert_eq!(extract_subject_name(b"no certificate"), None);
    assert_eq!(first_name(None), None);
    assert_eq!(first_name(Some(vec![])), None);
    assert_eq!(first_name(Some(vec![None, Some("b".to_string())])), None);
    assert_eq!(
        first_name(Some(vec![Some("a".to_string()), None])),
        Some("a".to_string())
    );
}

#[test]
fn streams_send_failures_on() {
    let mut service = service();
    let text = "status: Unauthenticated, message: \"certificate authentication failed\", \
                details: [], metadata: MetadataMap { headers: {} }";
    let reply = service.produce_stream(&nobody(), Ok(ProduceRequest { record: None }));
    assert_eq!(reply, Ok(Err(Status::new(Code::Unknown, text))));
    match service.consume_stream(&nobody(), ConsumeRequest { offset: 0 }) {
        ConsumeStep::Stop(status) => assert_eq!(status, Status::new(Code::Unknown, text)),
        _ => panic!("the stream should end"),
    }
    let reply = service.produce_stream(&root(), Err("broken".to_string()));
    assert_eq!(reply, Ok(Err(Status::new(Code::Unknown, "broken"))));
}

#[test]
fn steps_follow_on_replies() {
    let gone = Status::new(Code::OutOfRange, "record not found");
    assert!(matches!(consume_step(Err(gone)), ConsumeStep::Retry));
    let response = ConsumeResponse { record: None };
    match consume_step(Ok(response)) {
        ConsumeStep::Send(sent) => assert_eq!(sent, ConsumeResponse { record: None }),
        _ => panic!("the response should be sent"),
    }
    let reply = ProduceResponse { offset: 4 };
    assert_eq!(produce_step(Ok(reply)), Ok(reply));
    let sent = produce_step(Err(Status::new(Code::InvalidArgument, "m"))).unwrap_err();
    assert_eq!(sent.code, Code::Unknown);
    assert!(sent.message.starts_with("status: InvalidArgument, message: \"m\""));
}
