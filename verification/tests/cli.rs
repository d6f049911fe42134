use detour::cli::auth::{
    get_gcp_identity_token, identity_token_arguments, resolve_auth_token, TokenSource,
};
use detour::cli::env::{
    extract_container_env, gcloud_arguments, load_cloud_run_profile, parse_env_var, run_cloud_run,
    shell_escape, CloudRunEnvArgs, CloudRunProfile, EnvVar,
};
use detour::cli::gcloud::CommandOutput;
use detour::cli::run::{
    agent_config, child_environment, connect_failure, env_request, exit_code, layer_candidates,
    layer_file_name, plan_run, prepend_env_path, resolve_layer_path, run_banner, skipped_note,
    spawn_failure, CloudRunRunArgs,
};
use detour::cli::start::{
    parse_route, plan_start, start_banner, start_report, stop_report, wait_until_connected,
    StartArgs,
};
use detour::cli::status::{status_report, status_url, StatusArgs};
use detour::cli::tun::{ensure_supported, InterceptMode};
use detour::json::{from_value, parse, Json};
use detour::model::config::ServiceRoute;
use detour::model::session::{AuthMode, SessionId, TunnelStatus};
use detour::model::text_map::TextMap;

const SESSION: &str = "11111111-1111-4111-8111-111111111111";

fn json(text: &str) -> Json {
    parse(text.as_bytes()).unwrap()
}

fn map(pairs: &[(&str, &str)]) -> TextMap {
    let mut map = TextMap::new();
    for (name, value) in pairs {
        map.set(name.to_string(), value.to_string());
    }
    map
}

fn strings(all: &[&str]) -> Vec<String> {
    all.iter().map(|s| s.to_string()).collect()
}

fn output(success: bool, stdout: &str, stderr: &str) -> CommandOutput {
    CommandOutput {
        success,
        stdout: stdout.as_bytes().to_vec(),
        stderr: stderr.as_bytes().to_vec(),
    }
}

// ── JSON ──────────────────────────────────────────────────────────────────────

#[test]
fn json_is_taken_apart() {
    let value = serde_json::from_str("[null, true, 5, -5, 1.5, \"s\", {\"b\": 1, \"a\": []}]").unwrap();
    let Json::List(items) = from_value(value) else {
        panic!("expected a list");
    };
    assert!(matches!(items[0], Json::Null));
    assert!(matches!(items[1], Json::Bool(true)));
    assert!(matches!(items[2], Json::Number(Some(5))));
    assert!(matches!(items[3], Json::Number(None)));
    assert!(matches!(items[4], Json::Number(None)));
    assert_eq!(items[5].as_str(), Some("s"));
    assert!(items[6].get("a").unwrap().as_array().unwrap().is_empty());
    assert!(matches!(items[6].get("b"), Some(Json::Number(Some(1)))));
    assert!(items[6].get("c").is_none());
    assert!(items[5].get("a").is_none());
    assert!(items[6].as_str().is_none() && items[6].as_array().is_none());
    assert_eq!(json("{\"a\": 1, \"a\": 2}").get("a").map(|v| matches!(v, Json::Number(Some(2)))), Some(true));
    assert!(parse(b"{").unwrap_err().contains("EOF"));
}

// ── Environment ───────────────────────────────────────────────────────────────

#[test]
fn chooses_app_container_over_detour_sidecar() {
    let service = json(
        r#"{
            "template": {
                "containers": [
                    {"name": "detour-sidecar", "env": []},
                    {"name": "app", "env": [{"name": "PORT", "value": "8080"}]}
                ]
            }
        }"#,
    );

    let (name, vars) = extract_container_env(&service, None).unwrap();
    assert_eq!(name, "app");
    assert_eq!(vars.len(), 1);
    assert_eq!(vars[0].name, "PORT");
    assert_eq!(vars[0].value.as_deref(), Some("8080"));
}

#[test]
fn containers_are_found_by_name_or_in_order() {
    let service = json(
        r#"{"spec": {"template": {"spec": {"containers": [
            {"name": "detour-sidecar"},
            {"image": "x", "env": [{"value": "no name"}, {"name": "A"}, {"name": 5}]}
        ]}}}}"#,
    );
    let (name, vars) = extract_container_env(&service, None).unwrap();
    assert_eq!((name.as_str(), vars.len()), ("<unnamed>", 1));
    let (name, vars) = extract_container_env(&service, Some("detour-sidecar")).unwrap();
    assert_eq!((name.as_str(), vars.len()), ("detour-sidecar", 0));
    let missing = extract_container_env(&service, Some("it's \"me\"")).unwrap_err();
    assert_eq!(missing.message, "container \"it's \\\"me\\\"\" not found in Cloud Run service");
    let only = json(r#"{"template": {"containers": [{"name": "detour-sidecar"}]}}"#);
    assert_eq!(extract_container_env(&only, None).unwrap().0, "detour-sidecar");
    let none = json(r#"{"template": {"containers": []}}"#);
    assert_eq!(
        extract_container_env(&none, None).unwrap_err().message,
        "Cloud Run service has no containers"
    );
    let odd = json(r#"{"template": {"containers": 5}, "spec": {"template": {"spec": {"containers": []}}}}"#);
    assert_eq!(
        extract_container_env(&odd, None).unwrap_err().message,
        "could not find containers in Cloud Run service description"
    );
}

#[test]
fn parses_secret_backed_env_as_unresolved() {
    let var = parse_env_var(&json(
        r#"{
            "name": "DB_PASSWORD",
            "valueSource": {
                "secretKeyRef": {
                    "secret": "db-password",
                    "version": "5"
                }
            }
        }"#,
    ))
    .unwrap();

    assert_eq!(var.name, "DB_PASSWORD");
    assert!(var.value.is_none());
    assert_eq!(var.source.as_deref(), Some("secret:db-password:5"));
}

#[test]
fn secrets_are_named_in_either_version() {
    let source = |text: &str| parse_env_var(&json(text)).unwrap().source;
    assert_eq!(
        source(r#"{"name":"A","valueSource":{"secretKeyRef":{"secret":"s"}}}"#).as_deref(),
        Some("secret:s:latest")
    );
    assert_eq!(
        source(r#"{"name":"A","valueFrom":{"secretKeyRef":{"name":"s"}}}"#).as_deref(),
        Some("secret:s")
    );
    assert_eq!(source(r#"{"name":"A","value":"v"}"#), None);
    assert!(parse_env_var(&json(r#"{"value":"v"}"#)).is_none());
}

#[test]
fn shell_escape_wraps_single_quotes() {
    assert_eq!(shell_escape("abc"), "'abc'");
    assert_eq!(shell_escape("a'b"), "'a'\"'\"'b'");
}

#[test]
fn shell_escape_keeps_everything_else() {
    assert_eq!(shell_escape(""), "''");
    assert_eq!(shell_escape("$x `y` \"z\"\n\\"), "'$x `y` \"z\"\n\\'");
    assert_eq!(shell_escape("''"), "''\"'\"''\"'\"''");
}

fn env_args(output: &str) -> CloudRunEnvArgs {
    CloudRunEnvArgs {
        service: "svc".into(),
        region: "r".into(),
        project: Some("p".into()),
        container: None,
        output: output.into(),
    }
}

#[test]
fn gcloud_is_asked_for_the_service() {
    assert_eq!(
        gcloud_arguments(&env_args("shell")),
        strings(&["run", "services", "describe", "svc", "--region", "r", "--format=json", "--project", "p"])
    );
    let failed = load_cloud_run_profile(&env_args("shell"), &output(false, "", " denied \n"));
    assert_eq!(failed.unwrap_err().message, "gcloud run services describe failed: denied");
    let broken = load_cloud_run_profile(&env_args("shell"), &output(true, "{", "")).unwrap_err();
    assert_eq!(broken.message, "failed to parse gcloud JSON output");
    assert!(broken.cause.unwrap().contains("EOF"));
    let text = r#"{"template":{"containers":[{"name":"app","env":[{"name":"A","value":"1"}]}]}}"#;
    let profile = load_cloud_run_profile(&env_args("shell"), &output(true, text, "")).unwrap();
    assert_eq!((profile.service.as_str(), profile.region.as_str()), ("svc", "r"));
    assert_eq!(profile.project.as_deref(), Some("p"));
    assert_eq!(profile.container_name, "app");
    assert_eq!(profile.env_vars[0].value.as_deref(), Some("1"));
}

fn var(name: &str, value: Option<&str>, source: Option<&str>) -> EnvVar {
    EnvVar {
        name: name.into(),
        value: value.map(str::to_string),
        source: source.map(str::to_string),
    }
}

fn profile() -> CloudRunProfile {
    CloudRunProfile {
        service: "svc".into(),
        region: "r".into(),
        project: None,
        container_name: "app".into(),
        env_vars: vec![
            var("A", Some("it's"), None),
            var("S", None, Some("secret:s:1")),
            var("PORT", Some("8080"), None),
            var("T", None, None),
            var("A", Some("2"), None),
        ],
    }
}

#[test]
fn environments_are_printed_for_a_shell() {
    let report = run_cloud_run(&env_args("shell"), &profile()).unwrap();
    assert_eq!(
        report.lines,
        strings(&["export A='it'\"'\"'s'", "export PORT='8080'", "export A='2'"])
    );
    assert!(report.body.is_none());
    assert_eq!(
        report.notes,
        strings(&[
            "",
            "Skipped 2 unresolved env var(s) from container app.",
            "These are usually secret-backed values that Cloud Run does not return via describe.",
            "  S (secret:s:1)",
            "  T (unknown source)",
        ])
    );
    let mut full = profile();
    full.env_vars.retain(|v| v.value.is_some());
    assert!(run_cloud_run(&env_args("shell"), &full).unwrap().notes.is_empty());
}

#[test]
fn environments_are_printed_as_json() {
    let report = run_cloud_run(&env_args("json"), &profile()).unwrap();
    assert!(report.lines.is_empty());
    let body = report.body.unwrap();
    assert_eq!(body.get_str("service"), Some("svc"));
    assert_eq!(body.get_str("project"), Some("p"));
    assert_eq!(body.get_str("container"), Some("app"));
    let env = body.get("env").unwrap();
    assert_eq!(env.get_str("A"), Some("2"));
    assert_eq!(env.get_str("PORT"), Some("8080"));
    let Json::Object(members) = env else {
        panic!("expected an object");
    };
    assert_eq!(members.len(), 2);
    let unresolved = body.get("unresolved").unwrap().as_array().unwrap();
    assert_eq!(unresolved.len(), 2);
    assert_eq!(unresolved[0].get_str("source"), Some("secret:s:1"));
    assert!(matches!(unresolved[1].get("source"), Some(Json::Null)));

    let err = match run_cloud_run(&env_args("yaml"), &profile()) {
        Err(err) => err,
        Ok(_) => panic!("there is no such format"),
    };
    assert_eq!(err.message, "unsupported output format \"yaml\": expected shell or json");
}

// ── Tokens ────────────────────────────────────────────────────────────────────

#[test]
fn tokens_come_from_where_the_mode_says() {
    let none = map(&[]);
    assert!(matches!(
        resolve_auth_token(AuthMode::SessionId, &none, "b").unwrap(),
        TokenSource::NotNeeded
    ));
    let err = match resolve_auth_token(AuthMode::SignedToken, &none, "b") {
        Err(err) => err,
        Ok(_) => panic!("there is no token"),
    };
    assert_eq!(err.message, "signed-token mode requires DETOUR_AUTH_TOKEN to be set");
    assert!(matches!(
        resolve_auth_token(AuthMode::SignedToken, &map(&[("DETOUR_AUTH_TOKEN", "t")]), "b").unwrap(),
        TokenSource::Token(t) if t == "t"
    ));
    assert!(matches!(
        resolve_auth_token(AuthMode::GcpOidc, &none, "b").unwrap(),
        TokenSource::Gcloud { audience } if audience == "b"
    ));
    assert!(matches!(
        resolve_auth_token(AuthMode::GcpOidc, &map(&[("DETOUR_GCP_OIDC_AUDIENCE", "a")]), "b").unwrap(),
        TokenSource::Gcloud { audience } if audience == "a"
    ));
    assert_eq!(
        identity_token_arguments("a"),
        strings(&["auth", "print-identity-token", "--audiences", "a"])
    );
    assert_eq!(get_gcp_identity_token(&output(true, " tok\n", "")).unwrap(), "tok");
    assert_eq!(
        get_gcp_identity_token(&output(true, " \n", "")).unwrap_err().message,
        "gcloud returned an empty identity token"
    );
    let odd = CommandOutput { success: false, stdout: vec![], stderr: vec![b'x', 0xff] };
    assert_eq!(
        get_gcp_identity_token(&odd).unwrap_err().message,
        "gcloud auth print-identity-token failed: x\u{fffd}"
    );
}

// ── Starting ──────────────────────────────────────────────────────────────────

fn start_args(routes: &[&str], output: &str) -> StartArgs {
    StartArgs {
        routes: strings(routes),
        broker: "https://broker.example.com".into(),
        output: output.into(),
        auth_mode: "session-id".into(),
    }
}

#[test]
fn routes_have_a_service_and_a_port() {
    let route = parse_route("my-api:3000").unwrap();
    assert_eq!((route.service_name.as_str(), route.local_port), ("my-api", 3000));
    assert_eq!(parse_route("a:b:1").unwrap().service_name, "a:b");
    for (bad, message) in [
        ("my-api", "invalid route \"my-api\": expected SERVICE:PORT"),
        ("my-api:", "invalid port in route \"my-api:\""),
        ("my-api:65536", "invalid port in route \"my-api:65536\""),
        (":3000", "service name is empty in route \":3000\""),
        (":", "invalid port in route \":\""),
    ] {
        assert_eq!(parse_route(bad).unwrap_err().message, message);
    }
}

#[test]
fn starting_checks_its_arguments() {
    let plan = match plan_start(&start_args(&["a:1", "b:2"], "human")) {
        Ok(plan) => plan,
        Err(_) => panic!("the arguments are fine"),
    };
    assert_eq!(plan.auth_mode, AuthMode::SessionId);
    assert_eq!((plan.routes.len(), plan.routes[1].local_port), (2, 2));
    let message = |args: &StartArgs| match plan_start(args) {
        Err(err) => err.message,
        Ok(_) => panic!("the arguments are not fine"),
    };
    assert_eq!(
        message(&start_args(&[], "human")),
        "at least one --route SERVICE:PORT is required"
    );
    let mut args = start_args(&["bad"], "human");
    args.auth_mode = "x".into();
    assert_eq!(message(&args), "invalid auth mode: x");
    assert_eq!(
        message(&start_args(&["a:1", "bad", ":2"], "human")),
        "invalid route \"bad\": expected SERVICE:PORT"
    );
}

fn routes() -> Vec<ServiceRoute> {
    vec![
        ServiceRoute { service_name: "my-api".into(), local_port: 3000 },
        ServiceRoute { service_name: "b".into(), local_port: 2 },
    ]
}

fn sid() -> SessionId {
    SessionId::from_string(SESSION.to_string()).unwrap()
}

#[test]
fn starting_prints_the_header_to_send() {
    let args = start_args(&["my-api:3000"], "human");
    assert_eq!(
        start_banner(&args, "0.1.0"),
        strings(&["", "  Detour v0.1.0", "  Connecting to https://broker.example.com ..."])
    );
    let report = start_report(&args, &routes(), &sid(), true, 1);
    assert_eq!(
        report.lines,
        vec![
            "".to_string(),
            format!("  my-api  →  X-Route-To: {SESSION}  →  localhost:3000"),
            format!("  b  →  X-Route-To: {SESSION}  →  localhost:2"),
            "".to_string(),
            "  Status: connected".to_string(),
            "".to_string(),
        ]
    );
    assert!(report.event.is_none() && report.error.is_none());
    let failed = start_report(&args, &routes(), &sid(), false, 1);
    assert!(failed.lines.is_empty());
    assert_eq!(
        failed.error.as_deref(),
        Some("failed to connect to broker — check broker URL and network")
    );
    assert_eq!(stop_report(&args, 1).1, strings(&["  Tunnel stopped."]));
}

#[test]
fn starting_speaks_json() {
    let args = start_args(&["my-api:3000"], "json");
    assert!(start_banner(&args, "0.1.0").is_empty());
    let report = start_report(&args, &routes(), &sid(), true, 7);
    let event = report.event.unwrap();
    assert!(report.lines.is_empty() && report.error.is_none());
    assert_eq!(event.get_str("event"), Some("ready"));
    assert_eq!(event.get_str("ts"), Some("7Z"));
    assert_eq!(event.get_str("broker_url"), Some("https://broker.example.com"));
    let sessions = event.get("sessions").unwrap().as_array().unwrap();
    assert_eq!(sessions[0].get_str("service"), Some("my-api"));
    assert_eq!(sessions[1].get_str("session_id"), Some(SESSION));
    let failed = start_report(&args, &routes(), &sid(), false, 7);
    assert_eq!(failed.event.unwrap().get_str("event"), Some("error"));
    assert_eq!(failed.error.as_deref(), Some("failed to connect to broker"));
    let (event, lines) = stop_report(&args, 9);
    assert!(lines.is_empty());
    assert_eq!(event.unwrap().get_str("status"), Some("stopped"));
}

#[test]
fn waiting_ends_with_the_tunnel() {
    assert_eq!(wait_until_connected(&TunnelStatus::Connected), Some(true));
    assert_eq!(wait_until_connected(&TunnelStatus::Stopped), Some(false));
    assert_eq!(wait_until_connected(&TunnelStatus::Connecting), None);
    assert_eq!(wait_until_connected(&TunnelStatus::Error("x".into())), None);
}

// ── Running ───────────────────────────────────────────────────────────────────

fn run_args() -> CloudRunRunArgs {
    CloudRunRunArgs {
        service: "svc".into(),
        region: "r".into(),
        project: None,
        container: Some("app".into()),
        route: "my-api:3000".into(),
        broker: "http://b".into(),
        auth_mode: "session-id".into(),
        socks5_port: 1081,
        layer_path: None,
        no_remote_env: false,
        command: strings(&["npm", "start"]),
    }
}

#[test]
fn prepend_env_path_adds_existing_value() {
    assert_eq!(prepend_env_path(&Some("existing".into()), "/tmp/layer"), "/tmp/layer:existing");
}

#[test]
fn prepend_env_path_handles_empty_existing_value() {
    assert_eq!(prepend_env_path(&None, "/tmp/layer"), "/tmp/layer");
    assert_eq!(prepend_env_path(&Some(String::new()), "/tmp/layer"), "/tmp/layer");
}

#[test]
fn running_plans_an_agent() {
    let env = env_request(&run_args()).unwrap();
    assert_eq!((env.service.as_str(), env.output.as_str()), ("svc", "shell"));
    assert_eq!(env.container.as_deref(), Some("app"));
    let mut without = run_args();
    without.no_remote_env = true;
    assert!(env_request(&without).is_none());

    let plan = match plan_run(&run_args()) {
        Ok(plan) => plan,
        Err(_) => panic!("the arguments are fine"),
    };
    let config = agent_config(&run_args(), &plan, Some("t".into()));
    assert_eq!(config.broker_url, "http://b");
    assert_eq!((config.routes.len(), config.routes[0].local_port), (1, 3000));
    assert_eq!((config.auth_token.as_deref(), config.socks5_port), (Some("t"), 1081));
    let mut bad = run_args();
    bad.auth_mode = "x".into();
    assert_eq!(plan_run(&bad).map(|_| ()).unwrap_err().message, "invalid auth mode: x");
    bad.auth_mode = "gcp-oidc".into();
    bad.route = "x".into();
    assert_eq!(
        plan_run(&bad).map(|_| ()).unwrap_err().message,
        "invalid route \"x\": expected SERVICE:PORT"
    );
    assert_eq!(
        connect_failure(&TunnelStatus::Error("e".into())),
        "failed to connect to broker: e"
    );
    assert_eq!(connect_failure(&TunnelStatus::Stopped), "failed to connect to broker");
}

#[test]
fn the_layer_is_found() {
    let file = layer_file_name(false);
    assert_eq!(file, "libdetour_layer.so");
    assert_eq!(layer_file_name(true), "libdetour_layer.dylib");
    let paths = layer_candidates(&Some("/bin".into()), &Some("/w/".into()), file);
    assert_eq!(
        paths,
        strings(&[
            "/bin/libdetour_layer.so",
            "/bin/../libdetour_layer.so",
            "/w/target/debug/libdetour_layer.so",
            "/w/target/release/libdetour_layer.so",
        ])
    );
    assert!(layer_candidates(&None, &None, file).is_empty());
    let there = [false, true, false, true];
    assert_eq!(resolve_layer_path(None, false, &paths, &there, file).unwrap(), paths[1]);
    assert_eq!(
        resolve_layer_path(None, false, &paths, &[false; 4], file).unwrap_err().message,
        "could not locate libdetour_layer.so automatically; set DETOUR_LAYER_PATH or pass --layer-path"
    );
    assert_eq!(resolve_layer_path(Some("/x"), true, &paths, &there, file).unwrap(), "/x");
    assert_eq!(
        resolve_layer_path(Some("/x"), false, &paths, &there, file).unwrap_err().message,
        "detour layer library not found at /x"
    );
}

fn pair(name: &str, value: &str) -> (String, String) {
    (name.to_string(), value.to_string())
}

#[test]
fn processes_get_the_environment_of_the_service() {
    let route = &routes()[0];
    let env = map(&[("A", "mine"), ("LD_PRELOAD", "/old.so")]);
    assert_eq!(
        child_environment(&run_args(), route, &Some(profile()), &env, "/l.so", false),
        vec![
            pair("PORT", "8080"),
            pair("PORT", "3000"),
            pair("DETOUR_SOCKS5_PORT", "1081"),
            pair("LD_PRELOAD", "/l.so:/old.so"),
        ]
    );
    assert_eq!(
        child_environment(&run_args(), route, &None, &map(&[("PORT", "1")]), "/l.dylib", true),
        vec![
            pair("DETOUR_SOCKS5_PORT", "1081"),
            pair("DYLD_INSERT_LIBRARIES", "/l.dylib"),
            pair("DYLD_FORCE_FLAT_NAMESPACE", "1"),
        ]
    );
    let flat = map(&[("PORT", "1"), ("DYLD_FORCE_FLAT_NAMESPACE", "0")]);
    assert_eq!(child_environment(&run_args(), route, &None, &flat, "/l", true).len(), 2);
}

#[test]
fn running_says_what_it_does() {
    assert_eq!(
        run_banner(&run_args(), "0.1.0", &sid(), &routes()[0], &Some(profile()), "/l.so"),
        strings(&[
            "",
            "  Detour v0.1.0",
            "  Connecting to http://b ...",
            "",
            "  X-Route-To: 11111111-1111-4111-8111-111111111111",
            "",
            "  my-api  →  localhost:3000",
            "",
            "  Runtime: Cloud Run svc (app)",
            "  Env: 3 imported, 2 unresolved",
            "  Layer: /l.so",
            "",
        ])
    );
    assert_eq!(run_banner(&run_args(), "0.1.0", &sid(), &routes()[0], &None, "/l.so").len(), 9);
    assert_eq!(
        skipped_note(&Some(profile())).as_deref(),
        Some("Skipped 2 secret-backed env var(s) from Cloud Run; local overrides can still supply them.")
    );
    assert!(skipped_note(&None).is_none());
    assert_eq!(spawn_failure(&run_args()), "failed to start local process \"npm\"");
    assert_eq!(exit_code(true, Some(0)), None);
    assert_eq!(exit_code(false, Some(3)), Some(3));
    assert_eq!(exit_code(false, None), Some(1));
}

// ── Status ────────────────────────────────────────────────────────────────────

#[test]
fn agents_are_asked_how_they_fare() {
    let args = StatusArgs { port: 29876 };
    assert_eq!(status_url(&args), "http://127.0.0.1:29876/status");
    assert_eq!(
        status_report(&args, None),
        strings(&["Status: stopped (agent not running on port 29876)"])
    );
    assert_eq!(status_report(&args, Some(&json("{}"))), strings(&["Status: unknown"]));
    assert_eq!(
        status_report(&args, Some(&json(r#"{"status": "connecting"}"#))),
        strings(&["Status: connecting"])
    );
    let body = json(r#"{"status": "connected", "session_id": "s", "port": 3000, "broker_url": 1}"#);
    assert_eq!(
        status_report(&args, Some(&body)),
        strings(&[
            "Status:     connected",
            "Session ID: s",
            "Service:    -",
            "Port:       3000",
            "Broker:     -",
        ])
    );
}

// ── Interception ──────────────────────────────────────────────────────────────

#[test]
fn intercept_mode_defaults_to_preload() {
    assert_eq!(InterceptMode::default(), InterceptMode::Preload);
}

#[test]
fn intercept_mode_parses_known_values() {
    assert_eq!(InterceptMode::from_str("preload").unwrap(), InterceptMode::Preload);
    assert_eq!(InterceptMode::from_str("ld-preload").unwrap(), InterceptMode::Preload);
    assert_eq!(InterceptMode::from_str("tun").unwrap(), InterceptMode::Tun);
    assert_eq!(InterceptMode::from_str("TUN").unwrap(), InterceptMode::Tun);
    assert_eq!(InterceptMode::from_str(" Tun-Tap ").unwrap(), InterceptMode::Tun);
}

#[test]
fn intercept_mode_rejects_unknown_values() {
    let err = InterceptMode::from_str("iptables").unwrap_err();
    assert!(err.message.contains("expected 'preload' or 'tun'"));
    assert_eq!(err.message, "unknown --mode \"iptables\": expected 'preload' or 'tun'");
}

#[test]
fn tun_mode_needs_linux_or_macos() {
    assert!(ensure_supported("linux").is_ok());
    assert!(ensure_supported("macos").is_ok());
    assert_eq!(
        ensure_supported("windows").unwrap_err().message,
        "TUN mode is only supported on Linux and macOS"
    );
}
