use fshare::config::{
    parse_usize, ApplicationConfigurations, ServerConfiguration, COMMON_LOG_FORMAT, AuthStrategy, ConfigSection, UiConfiguration, UploadConfiguration,
    DEFAULT_MAX_SIZE,
};
use fshare::errors::AppError;

fn section(name: &str, props: &[(&str, &str)]) -> ConfigSection {
    ConfigSection {
        name: name.to_string(),
        properties: props.iter().map(|(k, v)| (k.to_string(), v.to_string())).collect(),
    }
}

#[test]
fn upload_section_values() {
    let cs = vec![section("upload", &[("max_size", "2048"), ("upload_directory", "/data")])];
    let c = UploadConfiguration::try_from(&cs, "/tmp".to_string()).unwrap();
    assert_eq!(c.max_size(), 2048);
    assert_eq!(c.upload_directory(), "/data");
}

#[test]
fn upload_section_defaults() {
    let cs = vec![section("upload", &[("max_size", "lots")])];
    let c = UploadConfiguration::try_from(&cs, "/tmp".to_string()).unwrap();
    assert_eq!(c.max_size(), DEFAULT_MAX_SIZE);
    assert_eq!(c.upload_directory(), "/tmp");
}

#[test]
fn upload_section_missing() {
    let cs = vec![section("ui", &[])];
    assert!(matches!(
        UploadConfiguration::try_from(&cs, "/tmp".to_string()),
        Err(AppError::InitError(_))
    ));
}

#[test]
fn ui_section() {
    let cs = vec![section("ui", &[("tera_templates", "templates")])];
    assert_eq!(UiConfiguration::try_from(&cs).unwrap().tera_templates(), "templates");
    let cs = vec![section("ui", &[])];
    assert!(matches!(UiConfiguration::try_from(&cs), Err(AppError::InitError(_))));
    assert!(matches!(UiConfiguration::try_from(&Vec::new()), Err(AppError::InitError(_))));
}

#[test]
fn auth_strategy_file_and_pam() {
    let cs = vec![section("server", &[])];
    assert!(matches!(AuthStrategy::try_from(&cs), Ok(AuthStrategy::File(p)) if p == "users.txt"));
    let cs = vec![
        section("server", &[("auth_strategy", "auth_file")]),
        section("auth_file", &[("user_pass_file", "/etc/fshare/users")]),
    ];
    assert!(matches!(AuthStrategy::try_from(&cs), Ok(AuthStrategy::File(p)) if p == "/etc/fshare/users"));
    let cs = vec![
        section("server", &[("auth_strategy", "pam")]),
        section("pam", &[("pam_module_name", "login")]),
    ];
    assert!(matches!(AuthStrategy::try_from(&cs), Ok(AuthStrategy::PamModule(m)) if m == "login"));
    let cs = vec![section("server", &[("auth_strategy", "pam")])];
    assert!(matches!(AuthStrategy::try_from(&cs), Err(AppError::InitError(_))));
}

#[test]
fn decimal_parsing() {
    assert_eq!(parse_usize("0"), Some(0));
    assert_eq!(parse_usize("1000000000"), Some(1000000000));
    assert_eq!(parse_usize("+12"), Some(12));
    assert_eq!(parse_usize(""), None);
    assert_eq!(parse_usize("+"), None);
    assert_eq!(parse_usize("-1"), None);
    assert_eq!(parse_usize("12a"), None);
    assert_eq!(parse_usize(&usize::MAX.to_string()), Some(usize::MAX));
    assert_eq!(parse_usize("99999999999999999999999"), None);
    for s in ["7", "42", "+9", "x", " 1"] {
        assert_eq!(parse_usize(s), s.parse::<usize>().ok());
    }
}

#[test]
fn server_section() {
    let cs = vec![
        section("server", &[("host", "127.0.0.1"), ("port", "8080"), ("workers", "4")]),
        section("upload", &[("max_size", "10")]),
        section("ui", &[("tera_templates", "tpl")]),
    ];
    let s = ServerConfiguration::try_from(&cs, true).unwrap();
    assert_eq!(s.host(), "127.0.0.1");
    assert_eq!(s.port(), 8080);
    assert_eq!(s.number_thread(), 4);
    assert_eq!(s.log_format(), COMMON_LOG_FORMAT);
    assert!(matches!(s.auth_strategy(), AuthStrategy::File(_)));
    let all = ApplicationConfigurations::try_from(&cs, true, "/tmp".to_string()).unwrap();
    assert_eq!(all.upload_configs().max_size(), 10);
    assert_eq!(all.ui_configs().tera_templates(), "tpl");
    assert_eq!(all.server_configs().port(), 8080);

    let bad_port = vec![section("server", &[("host", "::1"), ("port", "70000")])];
    assert!(matches!(ServerConfiguration::try_from(&bad_port, true), Err(AppError::InitError(_))));
    let no_host = vec![section("server", &[("port", "80")])];
    assert!(matches!(ServerConfiguration::try_from(&no_host, true), Err(AppError::InitError(_))));
    let defaults = vec![section("server", &[("host", "::1"), ("port", "80"), ("workers", "x")])];
    let s = ServerConfiguration::try_from(&defaults, true).unwrap();
    assert_eq!(s.number_thread(), 1);
}

#[test]
fn server_host_must_be_an_address() {
    let cs = vec![section("server", &[("host", "foo"), ("port", "80")])];
    let host = ServerConfiguration::host_setting(&cs).unwrap();
    assert_eq!(host, "foo");
    assert!(matches!(
        ServerConfiguration::try_from(&cs, false),
        Err(AppError::InitError(_))
    ));
    let cs = vec![
        section("server", &[("host", "::1"), ("port", "80"), ("auth_strategy", "pam")]),
        section("pam", &[("pam_module_name", "login")]),
    ];
    let s = ServerConfiguration::try_from(&cs, true).unwrap();
    assert!(matches!(s.auth_strategy(), AuthStrategy::PamModule(m) if m == "login"));
}
