use httpc::CliRequest;
use httpc::CommandSpec;
use httpc::HttpMethod;
use httpc::ParsedCommand;
use httpc::RequestDispatcher;
use httpc::UrlValidator;
use httpc::UsageError;

fn argv(parts: &[&str]) -> Vec<String> {
    parts.iter().map(|p| p.to_string()).collect()
}

#[test]
fn url_validator_rejects_string_without_scheme() {
    let r = UrlValidator::validate("not a url");
    assert!(matches!(r, Err(UsageError::InvalidUrl(ref s)) if s == "not a url"));
}

#[test]
fn url_validator_rejects_relative_path() {
    assert!(UrlValidator::validate("/relative/path").is_err());
}

#[test]
fn url_validator_passes_absolute_url_through_unchanged() {
    let v = UrlValidator::validate("https://example.test/x?q=1").unwrap();
    assert_eq!(v.as_str(), "https://example.test/x?q=1");
}

#[test]
fn parse_get_with_long_flag() {
    let r = CommandSpec::parse(&argv(&["get", "--url", "https://example.test/"]));
    match r {
        Ok(CliRequest::Run(ParsedCommand::Get { url })) => {
            assert_eq!(url.as_str(), "https://example.test/");
        }
        _ => panic!("expected a GET command"),
    }
}

#[test]
fn parse_get_with_short_flag() {
    let r = CommandSpec::parse(&argv(&["get", "-u", "http://example.test"]));
    assert!(matches!(r, Ok(CliRequest::Run(ParsedCommand::Get { .. }))));
}

#[test]
fn parse_post_builds_body_mapping() {
    let r = CommandSpec::parse(&argv(&[
        "post",
        "--url",
        "https://example.test/x",
        "--body",
        "name=Alice,age=30",
    ]));
    match r {
        Ok(CliRequest::Run(ParsedCommand::Post { url, body })) => {
            assert_eq!(url.as_str(), "https://example.test/x");
            assert_eq!(body.len(), 2);
            assert_eq!(body.get("name"), Some(&"Alice".to_string()));
            assert_eq!(body.get("age"), Some(&"30".to_string()));
        }
        _ => panic!("expected a POST command"),
    }
}

#[test]
fn post_dispatches_json_object_of_body() {
    let r = CommandSpec::parse(&argv(&[
        "post",
        "--url",
        "https://example.test/x",
        "--body",
        "name=Alice,age=30",
    ]));
    let cmd = match r {
        Ok(CliRequest::Run(c)) => c,
        _ => panic!("expected a command"),
    };
    let req = RequestDispatcher::plan(&cmd);
    assert_eq!(req.method, HttpMethod::Post);
    assert_eq!(req.url, "https://example.test/x");
    assert_eq!(req.body.as_deref(), Some("{\"name\":\"Alice\",\"age\":\"30\"}"));
}

#[test]
fn get_dispatches_without_body() {
    let r = CommandSpec::parse(&argv(&["get", "-u", "https://example.test/"]));
    let cmd = match r {
        Ok(CliRequest::Run(c)) => c,
        _ => panic!("expected a command"),
    };
    let req = RequestDispatcher::plan(&cmd);
    assert_eq!(req.method, HttpMethod::Get);
    assert_eq!(req.url, "https://example.test/");
    assert!(req.body.is_none());
}

#[test]
fn missing_subcommand_is_an_error() {
    let r = CommandSpec::parse(&argv(&[]));
    assert!(matches!(r, Err(UsageError::MissingSubcommand)));
}

#[test]
fn unknown_subcommand_is_an_error() {
    let r = CommandSpec::parse(&argv(&["put", "-u", "http://example.test"]));
    assert!(matches!(r, Err(UsageError::UnknownSubcommand(ref s)) if s == "put"));
}

#[test]
fn missing_url_flag_is_an_error() {
    let r = CommandSpec::parse(&argv(&["get"]));
    assert!(matches!(r, Err(UsageError::MissingUrl)));
}

#[test]
fn invalid_url_is_an_error_before_any_request() {
    let r = CommandSpec::parse(&argv(&["get", "--url", "not-a-url"]));
    match r {
        Err(UsageError::InvalidUrl(s)) => {
            assert_eq!(s, "not-a-url");
            let msg = UsageError::InvalidUrl(s).message();
            assert_eq!(msg, "invalid URL: not-a-url");
        }
        _ => panic!("expected an invalid-URL error"),
    }
}

#[test]
fn missing_body_for_post_is_an_error() {
    let r = CommandSpec::parse(&argv(&["post", "-u", "http://example.test"]));
    assert!(matches!(r, Err(UsageError::MissingBody)));
}

#[test]
fn flag_without_value_is_an_error() {
    let r = CommandSpec::parse(&argv(&["get", "--url"]));
    assert!(matches!(r, Err(UsageError::MissingValue(ref f)) if f == "--url"));
}

#[test]
fn body_flag_is_unknown_to_get() {
    let r = CommandSpec::parse(&argv(&["get", "-u", "http://example.test", "-b", "a=1"]));
    assert!(matches!(r, Err(UsageError::UnknownArgument(ref a)) if a == "-b"));
}

#[test]
fn unknown_flag_is_an_error() {
    let r = CommandSpec::parse(&argv(&["post", "--verbose"]));
    assert!(matches!(r, Err(UsageError::UnknownArgument(ref a)) if a == "--verbose"));
}

#[test]
fn repeated_url_flag_keeps_last_value() {
    let r = CommandSpec::parse(&argv(&["get", "-u", "not-a-url", "-u", "http://ok.test"]));
    match r {
        Ok(CliRequest::Run(ParsedCommand::Get { url })) => {
            assert_eq!(url.as_str(), "http://ok.test");
        }
        _ => panic!("expected a GET command"),
    }
}

#[test]
fn help_at_top_level() {
    assert!(matches!(
        CommandSpec::parse(&argv(&["--help"])),
        Ok(CliRequest::Help)
    ));
    assert!(matches!(
        CommandSpec::parse(&argv(&["-h"])),
        Ok(CliRequest::Help)
    ));
}

#[test]
fn help_and_version_inside_a_subcommand() {
    assert!(matches!(
        CommandSpec::parse(&argv(&["get", "--help"])),
        Ok(CliRequest::Help)
    ));
    assert!(matches!(
        CommandSpec::parse(&argv(&["post", "-u", "http://x.test", "--version"])),
        Ok(CliRequest::Version)
    ));
}

#[test]
fn version_at_top_level() {
    assert!(matches!(
        CommandSpec::parse(&argv(&["--version"])),
        Ok(CliRequest::Version)
    ));
    assert!(matches!(
        CommandSpec::parse(&argv(&["-V"])),
        Ok(CliRequest::Version)
    ));
}

#[test]
fn usage_and_version_texts() {
    assert!(CommandSpec::usage().starts_with("usage: httpc"));
    assert_eq!(CommandSpec::version_text(), "httpc 0.1.0");
}

#[test]
fn usage_error_messages() {
    assert_eq!(
        UsageError::MissingSubcommand.message(),
        "missing subcommand: expected `get` or `post`"
    );
    assert_eq!(
        UsageError::UnknownSubcommand("put".to_string()).message(),
        "unknown subcommand: put"
    );
    assert_eq!(UsageError::MissingUrl.message(), "missing required flag `--url`");
    assert_eq!(UsageError::MissingBody.message(), "missing required flag `--body`");
    assert_eq!(
        UsageError::MissingValue("-u".to_string()).message(),
        "missing value for flag -u"
    );
    assert_eq!(
        UsageError::UnknownArgument("-x".to_string()).message(),
        "unknown argument: -x"
    );
}
