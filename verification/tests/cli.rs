use heimdall::cli::{
    api_error, breaks, ttl_breaks_on, child_env, describe, flag, keys_of, login_token, parse_ttl, pick, printed, read_setup,
    required, run, scope, setup_body, token_line, usage, yaml_value, Command, Setup, Then,
};
use heimdall::json::Json;

fn args(line: &str) -> Vec<String> {
    line.split_whitespace().map(str::to_string).collect()
}

fn text(s: &str) -> Json {
    Json::Text(s.to_string())
}

fn object(members: Vec<(&str, Json)>) -> Json {
    Json::Object(members.into_iter().map(|(k, v)| (k.to_string(), v)).collect())
}

#[test]
fn flags_read_the_value_after_the_name() {
    let args = args("run --project bifrost --env dev -- echo hola");
    assert_eq!(flag(&args, "--project").unwrap(), "bifrost");
    assert_eq!(flag(&args, "--env").unwrap(), "dev");
    assert!(flag(&args, "--nada").is_none());
}

#[test]
fn flags_also_read_the_value_after_an_equals_sign() {
    let args = args("run --config=dev -- echo hola");
    assert_eq!(flag(&args, "--config").unwrap(), "dev");
}

#[test]
fn the_doppler_short_flags_work() {
    let args = args("run -p picsel -c dev -- echo hola");
    assert_eq!(pick(&args, &["--project", "-p"], None).unwrap(), "picsel");
    assert_eq!(pick(&args, &["--config", "-c"], None).unwrap(), "dev");
}

#[test]
fn a_flag_beats_the_setup_file() {
    let args = args("run -c prd -- echo hola");
    let env = pick(&args, &["--config", "-c"], Some("dev".to_string()));
    assert_eq!(env.unwrap(), "prd");
}

#[test]
fn the_setup_file_fills_what_the_flags_leave_out() {
    let args = args("run -- echo hola");
    let env = pick(&args, &["--config", "-c"], Some("dev".to_string()));
    assert_eq!(env.unwrap(), "dev");
}

#[test]
fn the_setup_file_gives_the_project_and_the_environment() {
    let text = "setup:\n  - project: picsel\n    config: dev\n";
    assert_eq!(yaml_value(text, "project").unwrap(), "picsel");
    assert_eq!(yaml_value(text, "config").unwrap(), "dev");
    assert!(yaml_value(text, "token").is_none());
}

#[test]
fn the_command_goes_after_the_separator() {
    let args = args("run --project bifrost --env dev -- echo hola mundo");
    let separator = args.iter().position(|arg| arg == "--").unwrap();
    assert_eq!(args[separator + 1..].join(" "), "echo hola mundo");
}

#[test]
fn a_repeated_flag_does_not_move_the_separator() {
    let args = args("run --preserve-env --preserve-env -- echo hola");
    let separator = args.iter().position(|arg| arg == "--").unwrap();
    assert_eq!(args[separator + 1..].join(" "), "echo hola");
}

#[test]
fn a_missing_flag_is_an_error() {
    assert!(flag(&args("ls"), "--project").is_none());
}

#[test]
fn ttl_units_become_seconds() {
    assert_eq!(parse_ttl("30s").unwrap(), 30);
    assert_eq!(parse_ttl("15m").unwrap(), 900);
    assert_eq!(parse_ttl("2h").unwrap(), 7200);
    assert_eq!(parse_ttl("7d").unwrap(), 604800);
}

#[test]
fn a_bad_ttl_is_an_error() {
    assert!(parse_ttl("2").is_err());
    assert!(parse_ttl("h").is_err());
    assert!(parse_ttl("2w").is_err());
    assert!(parse_ttl("dos-h").is_err());
}

#[test]
fn ttl_errors_say_what_is_wrong() {
    assert_eq!(parse_ttl("2").unwrap_err(), "«2»: usá un número y s, m, h o d");
    assert_eq!(parse_ttl("2w").unwrap_err(), "«2w»: usá s, m, h o d");
    assert_eq!(parse_ttl("dos-h").unwrap_err(), "«dos-h» no tiene un número adelante");
    assert_eq!(parse_ttl("-1m").unwrap(), -60);
    assert_eq!(parse_ttl("+3s").unwrap(), 3);
}

#[test]
fn a_ttl_past_the_range_or_cut_inside_a_character_breaks() {
    assert!(ttl_breaks_on("9223372036854775807d"));
    assert!(ttl_breaks_on("2é"));
    assert!(ttl_breaks_on("é"));
    assert!(!ttl_breaks_on("9223372036854775807s"));
    assert!(!ttl_breaks_on("9223372036854775808s"));
    assert_eq!(
        parse_ttl("9223372036854775808s").unwrap_err(),
        "«9223372036854775808s» no tiene un número adelante"
    );
    assert_eq!(parse_ttl("9223372036854775807s").unwrap(), i64::MAX);
    assert!(breaks(&args("token create --name a --admin --ttl 2é"), &None));
    assert!(!breaks(&args("token create --admin --ttl 2é"), &None));
    assert!(!breaks(&args("token create --name a --ttl 2é"), &None));
}

#[test]
fn required_names_the_missing_flag() {
    assert_eq!(required(&args("token revoke"), "--id").unwrap_err(), "falta --id");
    assert_eq!(required(&args("token revoke --id 7"), "--id").unwrap(), "7");
}

#[test]
fn a_flag_at_the_end_has_no_value() {
    assert!(flag(&args("ls --project"), "--project").is_none());
}

#[test]
fn setup_writes_what_the_setup_file_reads() {
    let body = setup_body("picsel", "dev");
    assert_eq!(body, "setup:\n  - project: picsel\n    config: dev\n");
    let file = read_setup(&body).unwrap();
    assert_eq!(file.project, "picsel");
    assert_eq!(file.env, "dev");
}

#[test]
fn a_setup_file_without_config_names_nothing() {
    assert!(read_setup("setup:\n  - project: picsel\n").is_none());
    assert_eq!(yaml_value("project: a\r\nconfig: b\r\n", "config").unwrap(), "b");
}

#[test]
fn the_scope_comes_from_the_flags_then_the_file() {
    let file = Some(Setup { project: "picsel".to_string(), env: "dev".to_string() });
    assert_eq!(
        scope(&args("ls --env prd"), &file).unwrap(),
        ("picsel".to_string(), "prd".to_string())
    );
    assert_eq!(
        scope(&args("ls"), &None).unwrap_err(),
        "falta el proyecto: pasá --project, o corré «heimdall setup»"
    );
    assert_eq!(
        scope(&args("ls -p x"), &None).unwrap_err(),
        "falta el entorno: pasá --config, o corré «heimdall setup»"
    );
}

#[test]
fn run_needs_the_separator_and_a_command() {
    assert_eq!(run(&args("run -p a -c b echo"), &None).unwrap_err(), "falta el -- antes del comando");
    assert_eq!(run(&args("run -p a -c b --"), &None).unwrap_err(), "falta el comando después del --");
    match run(&args("run -p a -c b -- echo hola mundo"), &None).unwrap() {
        Command::Run { path, program, args, unset } => {
            assert_eq!(path, "/v1/secrets?project=a&env=b");
            assert_eq!(program, "echo");
            assert_eq!(args, vec!["hola".to_string(), "mundo".to_string()]);
            assert_eq!(unset, vec!["HEIMDALL_TOKEN".to_string()]);
        }
        other => panic!("{other:?}"),
    }
}

#[test]
fn an_unknown_command_is_an_error() {
    assert_eq!(run(&args("volar"), &None).unwrap_err(), "no conozco «volar», mirá `heimdall help`");
    assert!(matches!(run(&args("help"), &None), Ok(Command::Help)));
    assert!(matches!(run(&args("logout"), &None), Ok(Command::Logout)));
    assert!(usage().starts_with("heimdall — secretos"));
}

#[test]
fn setup_asks_for_both_names() {
    assert_eq!(run(&args("setup --config dev"), &None).unwrap_err(), "falta --project");
    assert_eq!(run(&args("setup -p x"), &None).unwrap_err(), "falta --config");
    match run(&args("setup -p picsel -c dev --dir /tmp/x"), &None).unwrap() {
        Command::Setup { dir, text, project, env } => {
            assert_eq!(dir, Some("/tmp/x".to_string()));
            assert_eq!(text, "setup:\n  - project: picsel\n    config: dev\n");
            assert_eq!(project, "picsel");
            assert_eq!(env, "dev");
        }
        other => panic!("{other:?}"),
    }
}

#[test]
fn set_sends_the_pair() {
    assert_eq!(run(&args("set -p a -c b CLAVE"), &None).unwrap_err(), "esperaba CLAVE=valor");
    match run(&args("set STRIPE=sk=1 -p a -c b"), &None).unwrap() {
        Command::Call { method, path, body, then } => {
            assert_eq!(method, "PUT");
            assert_eq!(path, "/v1/secrets");
            let body = body.unwrap();
            assert_eq!(body.text_at("key").unwrap(), "STRIPE");
            assert_eq!(body.text_at("value").unwrap(), "sk=1");
            assert_eq!(body.text_at("project").unwrap(), "a");
            assert_eq!(body.text_at("env").unwrap(), "b");
            assert_eq!(
                then,
                Then::Saved { name: "STRIPE".to_string(), project: "a".to_string(), env: "b".to_string() }
            );
        }
        other => panic!("{other:?}"),
    }
}

#[test]
fn unset_and_keys_target_the_environment() {
    assert_eq!(run(&args("unset"), &Some(Setup { project: "a".into(), env: "b".into() })).unwrap_err(), "esperaba la clave a sacar");
    match run(&args("ls -p a -c b"), &None).unwrap() {
        Command::Call { method, path, body, then } => {
            assert_eq!(method, "GET");
            assert_eq!(path, "/v1/keys?project=a&env=b");
            assert!(body.is_none());
            assert_eq!(then, Then::Lines);
        }
        other => panic!("{other:?}"),
    }
}

#[test]
fn token_create_builds_the_request() {
    match run(&args("token create --name agente -p bifrost -c dev --keys A,,B --ttl 2h"), &None).unwrap() {
        Command::Call { method, path, body, then } => {
            assert_eq!(method, "POST");
            assert_eq!(path, "/v1/tokens");
            let body = body.unwrap();
            assert_eq!(body.text_at("name").unwrap(), "agente");
            assert_eq!(body.bool_at("admin"), Some(false));
            assert_eq!(body.text_at("project").unwrap(), "bifrost");
            assert_eq!(body.texts_at("keys").unwrap(), vec!["A".to_string(), "B".to_string()]);
            assert_eq!(body.i64_at("ttl"), Some(7200));
            assert_eq!(then, Then::Created);
        }
        other => panic!("{other:?}"),
    }
    match run(&args("token create --name root --admin"), &None).unwrap() {
        Command::Call { body, .. } => {
            let body = body.unwrap();
            assert_eq!(body.bool_at("admin"), Some(true));
            assert!(body.get("project").is_none());
        }
        other => panic!("{other:?}"),
    }
    assert_eq!(run(&args("token create"), &None).unwrap_err(), "falta --name");
    assert_eq!(run(&args("token volar"), &None).unwrap_err(), "no conozco `token volar`");
    assert!(matches!(
        run(&args("token"), &None),
        Ok(Command::Call { then: Then::TokenList, .. })
    ));
}

#[test]
fn the_keys_flag_drops_empty_names() {
    assert_eq!(keys_of(" A , B ,,"), vec!["A".to_string(), "B".to_string()]);
    assert!(keys_of("").is_empty());
}

#[test]
fn a_token_is_described_in_one_line() {
    let entry = object(vec![
        ("id", text("7")),
        ("name", text("agente")),
        ("project", text("bifrost")),
        ("env", text("dev")),
        ("keys", Json::Array(vec![text("A"), text("B")])),
        ("admin", Json::Bool(false)),
        ("expires_at", Json::PosInt(100)),
        ("last_used", Json::Null),
    ]);
    assert_eq!(describe(&entry), "agente  bifrost/dev  claves: A,B  vence 100  sin uso");
    assert_eq!(token_line(&entry), "7  agente  bifrost/dev  claves: A,B  vence 100  sin uso");
    let admin = object(vec![("name", text("root")), ("admin", Json::Bool(true)), ("last_used", Json::NegInt(-5))]);
    assert_eq!(describe(&admin), "root  admin  ve todo el entorno  último uso -5");
    let empty = object(vec![("name", text("x")), ("keys", Json::Array(vec![]))]);
    assert_eq!(describe(&empty), "x  /  sin claves: ve todo el entorno  sin uso");
}

#[test]
fn answers_print_as_lines() {
    let list = Json::Array(vec![text("a/dev"), Json::Null, text("b/prd")]);
    let (out, err) = printed(&Then::Lines, &list);
    assert_eq!(out, vec!["a/dev".to_string(), "b/prd".to_string()]);
    assert!(err.is_empty());
    let created = object(vec![("id", text("9")), ("token", text("hd_x"))]);
    let (out, err) = printed(&Then::Created, &created);
    assert_eq!(out, vec!["hd_x".to_string()]);
    assert_eq!(err, vec!["guardalo: no se vuelve a mostrar. id 9.".to_string()]);
    let (out, _) = printed(&Then::Revoked { id: "9".to_string() }, &object(vec![]));
    assert_eq!(out, vec!["revocado 9".to_string()]);
    let row = object(vec![
        ("at", Json::PosInt(12)),
        ("actor", text("admin")),
        ("action", text("set")),
        ("project", text("a")),
        ("env", text("b")),
        ("key", text("K")),
    ]);
    let (out, _) = printed(&Then::AuditLog, &Json::Array(vec![row]));
    assert_eq!(out, vec!["12  admin  set  a/b  K".to_string()]);
}

#[test]
fn the_child_gets_the_text_members() {
    let secrets = object(vec![("A", text("1")), ("B", Json::Null), ("C", text("3"))]);
    assert_eq!(
        child_env(&secrets, &vec![]),
        vec![("A".to_string(), "1".to_string()), ("C".to_string(), "3".to_string())]
    );
    assert!(child_env(&Json::Null, &vec![]).is_empty());
}

#[test]
fn the_child_keeps_what_it_inherits() {
    let secrets = object(vec![
        ("PATH", text("/nada")),
        ("HEIMDALL_TOKEN", text("hd_x")),
        ("A", text("1")),
    ]);
    let parent = vec!["PATH".to_string(), "HEIMDALL_TOKEN".to_string()];
    assert_eq!(child_env(&secrets, &parent), vec![("A".to_string(), "1".to_string())]);
}

#[test]
fn api_errors_carry_the_message() {
    assert_eq!(api_error(&Some(object(vec![("error", text("no está"))]))), "no está");
    assert_eq!(api_error(&Some(object(vec![]))), "la API contestó mal");
    assert_eq!(api_error(&None), "la API contestó mal");
}

#[test]
fn login_needs_a_token() {
    assert_eq!(login_token("hd_1".to_string()).unwrap(), "hd_1");
    assert_eq!(
        login_token(String::new()).unwrap_err(),
        "esperaba el token: `heimdall login --token T`, o pegámelo por stdin"
    );
    assert!(matches!(
        run(&args("login --token hd_1"), &None),
        Ok(Command::Login { token: Some(t) }) if t == "hd_1"
    ));
}
