use p2pssh::config::{
    authorized_keys_path_or_default, default_authorized_keys_path, default_key_path, is_root,
    key_path_or_default, parse_args, ArgError, Command, CommandKind, HelpTopic, Invocation,
    Meaning, Setting, Settings, ALPN, DEFAULT_RELAY, FORWARD_BUF_SIZE,
};
use p2pssh::lexer::{Argument, LexError};
use p2pssh::text::NumberError;

fn parse(args: &[&str]) -> Result<Invocation, ArgError> {
    parse_args(args.iter().map(|s| s.to_string()).collect())
}

fn command(args: &[&str]) -> Command {
    match parse(args) {
        Ok(Invocation::Run { command }) => command,
        other => panic!("expected a command, got {:?}", other),
    }
}

fn fault(args: &[&str]) -> ArgError {
    match parse(args) {
        Err(e) => e,
        Ok(other) => panic!("expected an error, got {:?}", other),
    }
}

fn topic(args: &[&str]) -> HelpTopic {
    match parse(args) {
        Ok(Invocation::Help { topic }) => topic,
        other => panic!("expected help, got {:?}", other),
    }
}

fn key_of(args: &[&str]) -> Option<String> {
    match command(args) {
        Command::Id { key_path } => key_path,
        other => panic!("expected id, got {:?}", other),
    }
}

#[test]
fn test_is_root_does_not_panic() {
    // Just ensure it doesn't panic on any platform
    let _ = is_root(1000);
}

#[test]
fn root_is_user_zero() {
    assert!(is_root(0));
    assert!(!is_root(1));
    assert!(!is_root(u32::MAX));
}

#[test]
fn test_default_key_path_non_root() {
    // When not root, path should end with .config/p2pssh/secret.key
    let path = default_key_path(false, None, Some("/home/user"));
    assert!(path.contains("p2pssh"));
    assert!(path.ends_with("secret.key"));
    assert!(path.ends_with(".config/p2pssh/secret.key"));
}

#[test]
fn default_paths_follow_the_environment() {
    assert_eq!(default_key_path(true, Some("/x"), Some("/y")), "/etc/p2pssh/secret.key");
    assert_eq!(
        default_authorized_keys_path(true, None, None),
        "/etc/p2pssh/authorized_keys"
    );
    assert_eq!(
        default_key_path(false, Some("/x"), Some("/home/u")),
        "/x/p2pssh/secret.key"
    );
    assert_eq!(
        default_key_path(false, Some("/x/"), Some("/home/u")),
        "/x/p2pssh/secret.key"
    );
    assert_eq!(
        default_key_path(false, Some(""), Some("/home/u")),
        "/home/u/.config/p2pssh/secret.key"
    );
    assert_eq!(
        default_authorized_keys_path(false, None, Some("/home/u")),
        "/home/u/.config/p2pssh/authorized_keys"
    );
    assert_eq!(default_key_path(false, None, Some("")), ".config/p2pssh/secret.key");
    assert_eq!(default_key_path(false, None, Some("/")), "/.config/p2pssh/secret.key");
    assert_eq!(default_key_path(false, None, None), "./p2pssh/secret.key");
}

#[test]
fn a_given_path_comes_before_the_default() {
    let given = Some("/my/key".to_string());
    assert_eq!(key_path_or_default(given.clone(), true, None, None), "/my/key");
    assert_eq!(
        key_path_or_default(None, false, None, Some("/home/u")),
        "/home/u/.config/p2pssh/secret.key"
    );
    assert_eq!(authorized_keys_path_or_default(given, false, None, None), "/my/key");
    assert_eq!(
        authorized_keys_path_or_default(None, true, None, None),
        "/etc/p2pssh/authorized_keys"
    );
}

#[test]
fn paths_join_like_the_standard_library() {
    for home in ["", "/", "/home/u", "/home/u/", "rel", "a/b//"] {
        let expected = std::path::PathBuf::from(home)
            .join(".config")
            .join("p2pssh")
            .join("secret.key");
        assert_eq!(
            default_key_path(false, None, Some(home)),
            expected.to_str().unwrap()
        );
    }
}

#[test]
fn test_parse_args_id() {
    // The command enum structure
    let cmd = Command::Id { key_path: None };
    match cmd {
        Command::Id { .. } => {}
        _ => panic!("Expected Id command"),
    }
}

#[test]
fn test_serve_command_defaults() {
    let cmd = Command::Serve {
        ssh_host: "127.0.0.1:22".to_string(),
        key_path: None,
        bind: "0.0.0.0:0".to_string(),
        relay_url: None,
        mdns: false,
        authorized_keys: None,
        max_connections: 100,
    };
    match cmd {
        Command::Serve {
            max_connections, ..
        } => {
            assert_eq!(max_connections, 100);
        }
        _ => panic!("Expected Serve command"),
    }
}

#[test]
fn serve_without_options_has_the_defaults() {
    match command(&["serve"]) {
        Command::Serve {
            ssh_host,
            key_path,
            bind,
            relay_url,
            mdns,
            authorized_keys,
            max_connections,
        } => {
            assert_eq!(ssh_host, "127.0.0.1:22");
            assert_eq!(key_path, None);
            assert_eq!(bind, "0.0.0.0:0");
            assert_eq!(relay_url, Some("https://relay.punkeel.com".to_string()));
            assert!(!mdns);
            assert_eq!(authorized_keys, None);
            assert_eq!(max_connections, 100);
        }
        other => panic!("expected serve, got {:?}", other),
    }
}

#[test]
fn serve_takes_every_option() {
    match command(&[
        "serve",
        "--ssh-host",
        "10.0.0.1:2222",
        "--bind=1.2.3.4:5",
        "-k",
        "/k",
        "--relay-url",
        "https://relay.example.com",
        "--mdns",
        "--authorized-keys",
        "/etc/p2pssh/authorized_keys",
        "--max-connections",
        "50",
    ]) {
        Command::Serve {
            ssh_host,
            key_path,
            bind,
            relay_url,
            mdns,
            authorized_keys,
            max_connections,
        } => {
            assert_eq!(ssh_host, "10.0.0.1:2222");
            assert_eq!(key_path, Some("/k".to_string()));
            assert_eq!(bind, "1.2.3.4:5");
            assert_eq!(relay_url, Some("https://relay.example.com".to_string()));
            assert!(mdns);
            assert_eq!(authorized_keys, Some("/etc/p2pssh/authorized_keys".to_string()));
            assert_eq!(max_connections, 50);
        }
        other => panic!("expected serve, got {:?}", other),
    }
}

#[test]
fn connect_takes_a_peer_id_and_its_options() {
    match command(&["connect", "abc", "--mdns", "--bind", "0.0.0.0:1", "--key=/k"]) {
        Command::Connect {
            peer_id,
            key_path,
            bind,
            relay_url,
            mdns,
        } => {
            assert_eq!(peer_id, "abc");
            assert_eq!(key_path, Some("/k".to_string()));
            assert_eq!(bind, "0.0.0.0:1");
            assert_eq!(relay_url, Some(DEFAULT_RELAY.to_string()));
            assert!(mdns);
        }
        other => panic!("expected connect, got {:?}", other),
    }
}

#[test]
fn an_option_can_be_written_in_several_ways() {
    assert_eq!(key_of(&["id"]), None);
    for args in [
        &["id", "--key", "/k"][..],
        &["id", "--key=/k"],
        &["id", "-k", "/k"],
        &["id", "-k=/k"],
        &["id", "-k/k"],
    ] {
        assert_eq!(key_of(args), Some("/k".to_string()));
    }
    assert_eq!(key_of(&["id", "--key="]), Some("".to_string()));
    assert_eq!(key_of(&["id", "-k="]), Some("".to_string()));
    assert_eq!(key_of(&["id", "-k", "--help"]), Some("--help".to_string()));
    assert_eq!(key_of(&["id", "--key", "--"]), Some("--".to_string()));
    assert_eq!(key_of(&["id", "--key", "a=b"]), Some("a=b".to_string()));
    assert_eq!(key_of(&["id", "--key=a=b"]), Some("a=b".to_string()));
    assert_eq!(key_of(&["id", "-kµ"]), Some("µ".to_string()));
}

#[test]
fn the_last_of_several_values_counts() {
    assert_eq!(
        key_of(&["id", "-k", "a", "--key", "b", "-kc"]),
        Some("c".to_string())
    );
}

#[test]
fn an_option_at_the_end_counts_whatever_form_the_others_have() {
    for line in [
        &["serve", "--bind=a", "-kx", "--mdns"][..],
        &["serve", "-k=x", "--bind", "b", "--mdns", "--bind=c"],
        &["serve", "-k", "--", "--mdns"],
    ] {
        for last in [&["--bind", "z"][..], &["--bind=z"]] {
            let args: Vec<&str> = line.iter().chain(last).copied().collect();
            match (command(line), command(&args)) {
                (
                    Command::Serve { key_path: before, .. },
                    Command::Serve { key_path, bind, mdns, .. },
                ) => {
                    assert_eq!(bind, "z");
                    assert_eq!(key_path, before);
                    assert!(mdns);
                }
                other => panic!("expected serve, got {:?}", other),
            }
        }
        let args: Vec<&str> = line.iter().chain(&["--max-connections", "x"]).copied().collect();
        assert!(matches!(fault(&args), ArgError::MaxConnections { .. }));
    }
    // After two dashes there are no options.
    assert!(matches!(
        fault(&["serve", "--", "--bind", "z"]),
        ArgError::Unexpected { .. }
    ));
}

#[test]
fn there_is_always_a_relay_that_was_accepted() {
    for (args, expected) in [
        (&["connect", "abc"][..], DEFAULT_RELAY),
        (&["connect", "abc", "--relay-url", "https://a.example"], "https://a.example"),
        (
            &["serve", "--relay-url=https://a.example", "--relay-url", "https://b.example"],
            "https://b.example",
        ),
    ] {
        match command(args) {
            Command::Serve { relay_url, .. } | Command::Connect { relay_url, .. } => {
                assert_eq!(relay_url, Some(expected.to_string()));
            }
            other => panic!("expected a relay, got {:?}", other),
        }
    }
}

#[test]
fn the_order_of_options_makes_no_difference() {
    let one = format!("{:?}", command(&["serve", "--bind", "a", "--ssh-host", "b"]));
    let two = format!("{:?}", command(&["serve", "--ssh-host", "b", "--bind", "a"]));
    assert_eq!(one, two);
}

#[test]
fn help_is_found_after_options() {
    assert_eq!(topic(&["help"]), HelpTopic::General);
    assert_eq!(topic(&["--", "--help"]), HelpTopic::General);
    assert_eq!(topic(&["--", "-h"]), HelpTopic::General);
    assert_eq!(topic(&["id", "-h"]), HelpTopic::Id);
    assert_eq!(topic(&["id", "--help", "rubbish"]), HelpTopic::Id);
    assert_eq!(topic(&["serve", "--mdns", "-h"]), HelpTopic::Serve);
    assert_eq!(topic(&["connect", "abc", "--help"]), HelpTopic::Connect);
    assert_eq!(topic(&["id", "-hk"]), HelpTopic::Id);
}

#[test]
fn help_can_be_asked_for_at_once() {
    for help in ["-h", "--help"] {
        for tail in [&[][..], &["rubbish"], &["serve", "--bind"]] {
            for (words, expected) in [
                (&[][..], HelpTopic::General),
                (&["id"], HelpTopic::Id),
                (&["serve"], HelpTopic::Serve),
                (&["connect"], HelpTopic::Connect),
            ] {
                let args: Vec<&str> = words.iter().chain(&[help]).chain(tail).copied().collect();
                assert_eq!(topic(&args), expected);
            }
        }
    }
}

#[test]
fn a_missing_command_shows_the_general_help() {
    assert_eq!(fault(&[]).help(), Some(HelpTopic::General));
    assert_eq!(fault(&["--mdns"]).help(), Some(HelpTopic::General));
    for args in [
        &["fly"][..],
        &["connect"],
        &["id", "x"],
        &["id", "-k"],
        &["serve", "--relay-url", "x"],
        &["serve", "--max-connections", "x"],
    ] {
        assert_eq!(fault(args).help(), None);
    }
}

#[test]
fn help_texts_are_those_of_the_commands() {
    assert!(HelpTopic::General.text().starts_with("p2pssh - Privacy-first P2P SSH tunnel"));
    assert!(HelpTopic::General
        .text()
        .ends_with("Run 'p2pssh <COMMAND> --help' for more information on a command."));
    assert!(HelpTopic::Id.text().starts_with("p2pssh-id - Show your peer ID\n\nUSAGE:"));
    assert!(HelpTopic::Serve
        .text()
        .contains("--max-connections <N>       Maximum concurrent connections [default: 100]"));
    assert!(HelpTopic::Connect.text().contains("<PEER_ID>    Peer ID to connect to"));
}

#[test]
fn no_command_is_an_error() {
    assert!(matches!(fault(&[]), ArgError::NoCommand));
    assert!(matches!(fault(&["--"]), ArgError::NoCommand));
    assert!(matches!(fault(&["-k", "x"]), ArgError::NoCommand));
    assert!(matches!(fault(&["--mdns", "--help"]), ArgError::NoCommand));
    assert_eq!(fault(&[]).message(), "No command specified");
}

#[test]
fn an_unknown_command_is_an_error() {
    assert!(matches!(fault(&["fly"]), ArgError::UnknownCommand { name } if name == "fly"));
    assert!(matches!(fault(&["-"]), ArgError::UnknownCommand { name } if name == "-"));
    assert!(matches!(fault(&[""]), ArgError::UnknownCommand { name } if name.is_empty()));
    assert_eq!(
        fault(&["fly"]).message(),
        "Unknown command: fly. Use '-h' for usage information."
    );
}

#[test]
fn connect_without_a_peer_id_is_an_error() {
    assert!(matches!(fault(&["connect"]), ArgError::MissingPeerId));
    assert!(matches!(fault(&["connect", "--"]), ArgError::MissingPeerId));
    assert!(matches!(fault(&["connect", "--mdns", "abc"]), ArgError::MissingPeerId));
    assert_eq!(fault(&["connect"]).message(), "Missing peer ID argument");
}

#[test]
fn a_peer_id_may_follow_two_dashes() {
    match command(&["connect", "--", "-abc"]) {
        Command::Connect { peer_id, .. } => assert_eq!(peer_id, "-abc"),
        other => panic!("expected connect, got {:?}", other),
    }
}

#[test]
fn unexpected_arguments_are_errors() {
    assert!(matches!(
        fault(&["id", "--mdns"]),
        ArgError::Unexpected { argument: Argument::Long(name) } if name == "mdns"
    ));
    assert!(matches!(
        fault(&["id", "x"]),
        ArgError::Unexpected { argument: Argument::Value(v) } if v == "x"
    ));
    assert!(matches!(
        fault(&["id", "-x"]),
        ArgError::Unexpected { argument: Argument::Short('x') }
    ));
    assert!(matches!(
        fault(&["id", "-="]),
        ArgError::Unexpected { argument: Argument::Short('=') }
    ));
    assert!(matches!(
        fault(&["connect", "abc", "--max-connections", "1"]),
        ArgError::Unexpected { argument: Argument::Long(name) } if name == "max-connections"
    ));
    assert!(matches!(
        fault(&["id", "---"]),
        ArgError::Unexpected { argument: Argument::Long(name) } if name == "-"
    ));
    assert_eq!(fault(&["id", "--mdns"]).message(), "Unexpected argument: Long(\"mdns\")");
    assert_eq!(fault(&["id", "x"]).message(), "Unexpected argument: Value(\"x\")");
    assert_eq!(fault(&["id", "-x"]).message(), "Unexpected argument: Short('x')");
}

#[test]
fn nothing_may_follow_two_dashes() {
    assert_eq!(key_of(&["id", "--"]), None);
    assert!(matches!(
        fault(&["id", "--", "-k", "x"]),
        ArgError::Unexpected { argument: Argument::Value(v) } if v == "-k"
    ));
}

#[test]
fn a_missing_value_is_an_error() {
    assert!(matches!(
        fault(&["id", "-k"]),
        ArgError::Shape { error: LexError::MissingValue { option: Some(o) } } if o == "-k"
    ));
    assert!(matches!(
        fault(&["serve", "--mdns", "--bind"]),
        ArgError::Shape { error: LexError::MissingValue { option: Some(o) } } if o == "--bind"
    ));
    assert_eq!(
        fault(&["id", "--key"]).message(),
        "missing argument for option '--key'"
    );
}

#[test]
fn a_switch_takes_no_value() {
    assert!(matches!(
        fault(&["serve", "--mdns=yes"]),
        ArgError::Shape { error: LexError::UnexpectedValue { option, value } }
            if option == "--mdns" && value == "yes"
    ));
    assert_eq!(
        fault(&["serve", "--mdns=yes"]).message(),
        "unexpected argument for option '--mdns': \"yes\""
    );
}

#[test]
fn a_relay_url_must_be_a_url() {
    assert!(matches!(
        fault(&["serve", "--relay-url", "not a url"]),
        ArgError::RelayUrl { url, .. } if url == "not a url"
    ));
    assert_eq!(
        fault(&["connect", "abc", "--relay-url=relay.example.com"]).message(),
        "Failed to parse relay URL"
    );
    // The relay that is used by default is one.
    assert!(parse(&["serve", "--relay-url", DEFAULT_RELAY]).is_ok());
}

#[test]
fn a_verdict_on_a_relay_url_decides() {
    let mut settings = Settings::new();
    assert!(settings.set_relay_url("u".to_string(), Ok(())).is_ok());
    assert_eq!(settings.relay_url, Some("u".to_string()));
    match settings.set_relay_url("v".to_string(), Err("bad".to_string())) {
        Err(ArgError::RelayUrl { url, reason }) => {
            assert_eq!(url, "v");
            assert_eq!(reason, "bad");
        }
        other => panic!("expected an error, got {:?}", other),
    }
    assert_eq!(settings.relay_url, Some("u".to_string()));
}

#[test]
fn max_connections_must_be_a_number() {
    assert!(matches!(
        fault(&["serve", "--max-connections", ""]),
        ArgError::MaxConnections { error: NumberError::Empty }
    ));
    assert!(matches!(
        fault(&["serve", "--max-connections", "many"]),
        ArgError::MaxConnections { error: NumberError::InvalidDigit }
    ));
    assert!(matches!(
        fault(&["serve", "--max-connections", "99999999999999999999999"]),
        ArgError::MaxConnections { error: NumberError::TooLarge }
    ));
    for text in ["", "x", "99999999999999999999999"] {
        assert_eq!(
            fault(&["serve", "--max-connections", text]).message(),
            text.parse::<usize>().unwrap_err().to_string()
        );
    }
}

#[test]
fn commands_know_their_options() {
    let bind = Argument::Long("bind".to_string());
    assert_eq!(CommandKind::Id.meaning(&bind), Meaning::Unknown);
    assert_eq!(
        CommandKind::Connect.meaning(&bind),
        Meaning::Sets { setting: Setting::Bind }
    );
    assert_eq!(CommandKind::Id.meaning(&Argument::Short('h')), Meaning::Help);
    assert_eq!(
        CommandKind::Serve.meaning(&Argument::Value("key".to_string())),
        Meaning::Unknown
    );
    assert!(CommandKind::Serve.accepts(Setting::MaxConnections));
    assert!(!CommandKind::Connect.accepts(Setting::AuthorizedKeys));
}

#[test]
fn the_protocol_is_named() {
    assert_eq!(&ALPN, b"p2pssh/1");
    assert_eq!(FORWARD_BUF_SIZE, 65536);
}
