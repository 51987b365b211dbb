use tigron_sms::client::{render_items, SoapClient};
use tigron_sms::facade::{SendFlow, SendPhase, TigronSms};
use tigron_sms::reader::{parse, value};

const NS: &str = "https://www.tigron.net/ns/";
const BASE: &str = "https://api.tigron.net/soap";

fn test_client() -> SoapClient {
    SoapClient {
        url: BASE.to_string(),
        ns: NS.to_string(),
        credentials: ("u".to_string(), "p".to_string()),
    }
}

fn envelope(username: &str, password: &str, procedure: &str) -> String {
    format!(
        "<?xml version=\"1.0\"?><soap:Envelope xmlns:soap=\"http://schemas.xmlsoap.org/soap/envelope/\" soap:encodingStyle=\"http://www.w3.org/2003/05/soap-encoding\"><soap:Header><authenticate_user xmlns=\"{NS}\"><username>{username}</username><password>{password}</password></authenticate_user></soap:Header><soap:Body>{procedure}</soap:Body></soap:Envelope>"
    )
}

#[test]
fn user_id_extraction() {
    let body = "<return><item><key>id</key><value>42</value></item><item><key>name</key><value>alice</value></item></return>";
    let pairs = parse(body);
    assert_eq!(
        pairs,
        vec![
            ("id".to_string(), "42".to_string()),
            ("name".to_string(), "alice".to_string()),
        ]
    );
    assert_eq!(value(&pairs, "id"), "42");
    assert_eq!(value(&pairs, "missing"), "");
}

#[test]
fn empty_parameter_list() {
    let client = test_client();
    let procedure = client.cmd_and_params_to_wsdl("info", &Vec::new());
    assert_eq!(procedure, format!("<info xmlns=\"{NS}\"></info>"));
    let request = client.request("user", "info", &None);
    assert_eq!(request.url, format!("{BASE}/user?WSDL"));
    assert_eq!(request.body, envelope("u", "p", &format!("<info xmlns=\"{NS}\"></info>")));
}

#[test]
fn parameter_order_preserved() {
    let client = test_client();
    let params = vec![
        ("user_id".to_string(), "42".to_string()),
        ("from".to_string(), "+32.111111111".to_string()),
        ("to".to_string(), "+32.222222222".to_string()),
        ("message".to_string(), "hi".to_string()),
    ];
    let procedure = client.cmd_and_params_to_wsdl("send_sms", &params);
    assert_eq!(
        procedure,
        format!(
            "<send_sms xmlns=\"{NS}\"><user_id>42</user_id><from>+32.111111111</from><to>+32.222222222</to><message>hi</message></send_sms>"
        )
    );
    let mut reversed = params.clone();
    reversed.reverse();
    let procedure = client.cmd_and_params_to_wsdl("send_sms", &reversed);
    assert_eq!(
        procedure,
        format!(
            "<send_sms xmlns=\"{NS}\"><message>hi</message><to>+32.222222222</to><from>+32.111111111</from><user_id>42</user_id></send_sms>"
        )
    );
}

#[test]
fn url_per_service() {
    let client = test_client();
    let request = client.request("sms", "send_sms", &None);
    assert_eq!(request.url, "https://api.tigron.net/soap/sms?WSDL");
    let request = client.request("user", "info", &None);
    assert_eq!(request.url, "https://api.tigron.net/soap/user?WSDL");
}

#[test]
fn two_call_orchestration() {
    let sms = TigronSms {
        credentials: ("u".to_string(), "p".to_string()),
    };
    let (mut flow, first) = SendFlow::begin(&sms, "+32.2".to_string(), "+32.1".to_string(), "hi".to_string());
    assert!(matches!(flow.phase, SendPhase::Authenticating));
    assert_eq!(first.url, format!("{BASE}/user?WSDL"));
    assert_eq!(first.body, envelope("u", "p", &format!("<info xmlns=\"{NS}\"></info>")));

    let auth_response = "<return><item><key>id</key><value>42</value></item><item><key>name</key><value>alice</value></item></return>";
    let second = flow.on_response(auth_response).expect("a second request");
    assert!(matches!(flow.phase, SendPhase::Sending));
    assert_eq!(second.url, format!("{BASE}/sms?WSDL"));
    assert_eq!(
        second.body,
        envelope(
            "u",
            "p",
            &format!(
                "<send_sms xmlns=\"{NS}\"><user_id>42</user_id><from>+32.1</from><to>+32.2</to><message>hi</message></send_sms>"
            )
        )
    );

    assert!(flow.on_response("<whatever/>").is_none());
    assert!(matches!(flow.phase, SendPhase::Done));
    assert!(flow.on_response("<again/>").is_none());
    assert!(matches!(flow.phase, SendPhase::Done));
}

#[test]
fn credentials_routed() {
    let sms = TigronSms {
        credentials: ("u".to_string(), "p".to_string()),
    };
    let (mut flow, first) = SendFlow::begin(&sms, "a".to_string(), "b".to_string(), "c".to_string());
    assert!(first.body.contains("<username>u</username><password>p</password>"));
    let second = flow
        .on_response("<return><item><key>id</key><value>7</value></item></return>")
        .expect("a second request");
    assert!(second.body.contains("<username>u</username><password>p</password>"));
}

#[test]
fn one_auth_element_per_body() {
    let sms = TigronSms {
        credentials: ("user_a".to_string(), "secret_b".to_string()),
    };
    let (mut flow, first) = SendFlow::begin(&sms, "+1.1".to_string(), "+2.2".to_string(), "m".to_string());
    let second = flow
        .on_response("<return><item><key>id</key><value>9</value></item></return>")
        .expect("a second request");
    for body in [&first.body, &second.body] {
        assert_eq!(body.matches("<authenticate_user").count(), 1);
        assert_eq!(body.matches("<username>user_a</username>").count(), 1);
        assert_eq!(body.matches("<password>secret_b</password>").count(), 1);
    }
}

#[test]
fn empty_user_id_still_proceeds() {
    let sms = TigronSms {
        credentials: ("u".to_string(), "p".to_string()),
    };
    let (mut flow, _) = SendFlow::begin(&sms, "+1.1".to_string(), "+2.2".to_string(), "m".to_string());
    let second = flow.on_response("<return></return>").expect("a second request");
    assert!(second.body.contains("<user_id></user_id>"));
}

#[test]
fn duplicate_keys_first_match() {
    let pairs = parse("<return><item><key>k</key><value>a</value></item><item><key>k</key><value>b</value></item></return>");
    assert_eq!(
        pairs,
        vec![
            ("k".to_string(), "a".to_string()),
            ("k".to_string(), "b".to_string()),
        ]
    );
    assert_eq!(value(&pairs, "k"), "a");
}

#[test]
fn round_trip() {
    let pairs = vec![
        ("id".to_string(), "42".to_string()),
        ("name".to_string(), "alice".to_string()),
        ("id".to_string(), "43".to_string()),
    ];
    let rendered = render_items(&pairs);
    assert_eq!(
        rendered,
        "<return><item><key>id</key><value>42</value></item><item><key>name</key><value>alice</value></item><item><key>id</key><value>43</value></item></return>"
    );
    assert_eq!(parse(&rendered), pairs);
}

#[test]
fn tokenizer_fault_keeps_prefix() {
    let truncated = "<return><item><key>k</key><value>a</value></item><item><key";
    assert_eq!(parse(truncated), vec![("k".to_string(), "a".to_string())]);
    let malformed = "<return><item><key>k</key><value>a</value></item><<";
    assert_eq!(parse(malformed), vec![("k".to_string(), "a".to_string())]);
}

#[test]
fn empty_value_element_emits_no_pair() {
    // An empty <value> carries no character data, so no pair is
    // emitted; absence and emptiness are indistinguishable here.
    let pairs = parse("<return><item><key>k</key><value></value></item></return>");
    assert_eq!(pairs, Vec::new());
}

#[test]
fn stray_pairs_outside_wrapper_are_captured() {
    // Emission is not gated on the <return> wrapper.
    let pairs = parse("<top><key>k</key><value>v</value></top>");
    assert_eq!(pairs, vec![("k".to_string(), "v".to_string())]);
}
