//! The command line and the defaults behind it.

use vstd::prelude::*;

use crate::lexer::{
    lex_next, lex_start, lex_value, lexer_state, new_parser, next_argument,
    option_value, texts, Argument, LexError, LexFault, LexMode, LexState, Token,
};
use crate::text::{number_of, opt_str, opt_text, parse_number, same_text, NumberError};

verus! {

/// The application protocol that server and client agree on: `p2pssh/1`.
pub const ALPN: [u8; 8] = [0x70, 0x32, 0x70, 0x73, 0x73, 0x68, 0x2f, 0x31];

/// The size of the buffer that forwarding reads into.
pub const FORWARD_BUF_SIZE: usize = 65536;

/// The relay that is used where none is named.
pub const DEFAULT_RELAY: &'static str = "https://relay.punkeel.com";

/// The address of the SSH server where none is named.
pub const DEFAULT_SSH_HOST: &'static str = "127.0.0.1:22";

/// The address that the endpoint binds to where none is named.
pub const DEFAULT_BIND: &'static str = "0.0.0.0:0";

/// How many connections a server handles at once where nothing is said.
pub const DEFAULT_MAX_CONNECTIONS: usize = 100;

/// What the program is asked to do.
#[derive(Debug)]
pub enum Command {
    /// Show the peer ID.
    Id { key_path: Option<String> },
    /// Forward incoming connections to an SSH server.
    Serve {
        ssh_host: String,
        key_path: Option<String>,
        bind: String,
        relay_url: Option<String>,
        mdns: bool,
        authorized_keys: Option<String>,
        max_connections: usize,
    },
    /// Connect standard input and output to a peer.
    Connect {
        peer_id: String,
        key_path: Option<String>,
        bind: String,
        relay_url: Option<String>,
        mdns: bool,
    },
}

/// What a [`Command`] says.
pub enum CommandView {
    Id { key_path: Option<Seq<char>> },
    Serve {
        ssh_host: Seq<char>,
        key_path: Option<Seq<char>>,
        bind: Seq<char>,
        relay_url: Option<Seq<char>>,
        mdns: bool,
        authorized_keys: Option<Seq<char>>,
        max_connections: usize,
    },
    Connect {
        peer_id: Seq<char>,
        key_path: Option<Seq<char>>,
        bind: Seq<char>,
        relay_url: Option<Seq<char>>,
        mdns: bool,
    },
}

impl View for Command {
    type V = CommandView;

    open spec fn view(&self) -> CommandView {
        match *self {
            Command::Id { key_path } => CommandView::Id { key_path: opt_text(key_path) },
            Command::Serve {
                ssh_host,
                key_path,
                bind,
                relay_url,
                mdns,
                authorized_keys,
                max_connections,
            } => CommandView::Serve {
                ssh_host: ssh_host@,
                key_path: opt_text(key_path),
                bind: bind@,
                relay_url: opt_text(relay_url),
                mdns,
                authorized_keys: opt_text(authorized_keys),
                max_connections,
            },
            Command::Connect { peer_id, key_path, bind, relay_url, mdns } => CommandView::Connect {
                peer_id: peer_id@,
                key_path: opt_text(key_path),
                bind: bind@,
                relay_url: opt_text(relay_url),
                mdns,
            },
        }
    }
}

/// Which help text is asked for.
#[derive(Clone, Copy, Debug, PartialEq, Eq, Structural)]
pub enum HelpTopic {
    General,
    Id,
    Serve,
    Connect,
}

/// What a command line that is in order asks for.
#[derive(Debug)]
pub enum Invocation {
    /// To run a command.
    Run { command: Command },
    /// To show a help text, and no more.
    Help { topic: HelpTopic },
}

/// What an [`Invocation`] says.
pub enum InvocationView {
    Run { command: CommandView },
    Help { topic: HelpTopic },
}

impl View for Invocation {
    type V = InvocationView;

    open spec fn view(&self) -> InvocationView {
        match *self {
            Invocation::Run { command } => InvocationView::Run { command: command@ },
            Invocation::Help { topic } => InvocationView::Help { topic },
        }
    }
}

/// What is wrong with a command line.
#[derive(Debug)]
#[allow(inconsistent_fields)]
pub enum ArgError {
    /// The first argument is not a command (or there is none).
    NoCommand,
    /// There is no such command.
    UnknownCommand { name: String },
    /// `connect` is not followed by a peer ID.
    MissingPeerId,
    /// The command does not know this argument.
    Unexpected { argument: Argument },
    /// An option lacks its value, or has one that it does not take.
    Shape { error: LexError },
    /// The value of `--relay-url` is not a URL.
    RelayUrl { url: String, reason: String },
    /// The value of `--max-connections` is not a number.
    MaxConnections { error: NumberError },
}

/// What an [`ArgError`] says.
#[allow(inconsistent_fields)]
pub enum ArgFault {
    NoCommand,
    UnknownCommand { name: Seq<char> },
    MissingPeerId,
    Unexpected { argument: Token },
    Shape { error: LexFault },
    RelayUrl { url: Seq<char>, reason: Seq<char> },
    MaxConnections { error: NumberError },
}

impl View for ArgError {
    type V = ArgFault;

    open spec fn view(&self) -> ArgFault {
        match *self {
            ArgError::NoCommand => ArgFault::NoCommand,
            ArgError::UnknownCommand { name } => ArgFault::UnknownCommand { name: name@ },
            ArgError::MissingPeerId => ArgFault::MissingPeerId,
            ArgError::Unexpected { argument } => ArgFault::Unexpected { argument: argument@ },
            ArgError::Shape { error } => ArgFault::Shape { error: error@ },
            ArgError::RelayUrl { url, reason } => ArgFault::RelayUrl { url: url@, reason: reason@ },
            ArgError::MaxConnections { error } => ArgFault::MaxConnections { error },
        }
    }
}

/// The commands that take options.
#[derive(Clone, Copy, Debug, PartialEq, Eq, Structural)]
pub enum CommandKind {
    Id,
    Serve,
    Connect,
}

/// Which command it is.
pub open spec fn kind_of(command: CommandView) -> CommandKind {
    match command {
        CommandView::Id { .. } => CommandKind::Id,
        CommandView::Serve { .. } => CommandKind::Serve,
        CommandView::Connect { .. } => CommandKind::Connect,
    }
}

impl Command {
    /// Which command it is.
    pub fn kind(&self) -> (r: CommandKind)
        ensures
            r == kind_of(self@),
    {
        match self {
            Command::Id { .. } => CommandKind::Id,
            Command::Serve { .. } => CommandKind::Serve,
            Command::Connect { .. } => CommandKind::Connect,
        }
    }
}

/// The things that options set.
#[derive(Clone, Copy, Debug, PartialEq, Eq, Structural)]
pub enum Setting {
    SshHost,
    Key,
    Bind,
    RelayUrl,
    Mdns,
    AuthorizedKeys,
    MaxConnections,
}

/// What an argument after the command means.
#[derive(Clone, Copy, Debug, PartialEq, Eq, Structural)]
pub enum Meaning {
    /// It sets something.
    Sets { setting: Setting },
    /// It asks for help.
    Help,
    /// The command does not know it.
    Unknown,
}

/// The settings that a command's options leave behind.
#[derive(Debug)]
pub struct Settings {
    pub ssh_host: String,
    pub key_path: Option<String>,
    pub bind: String,
    pub relay_url: Option<String>,
    pub mdns: bool,
    pub authorized_keys: Option<String>,
    pub max_connections: usize,
}

/// What [`Settings`] say.
pub struct SettingsView {
    pub ssh_host: Seq<char>,
    pub key_path: Option<Seq<char>>,
    pub bind: Seq<char>,
    pub relay_url: Option<Seq<char>>,
    pub mdns: bool,
    pub authorized_keys: Option<Seq<char>>,
    pub max_connections: usize,
}

impl View for Settings {
    type V = SettingsView;

    open spec fn view(&self) -> SettingsView {
        SettingsView {
            ssh_host: self.ssh_host@,
            key_path: opt_text(self.key_path),
            bind: self.bind@,
            relay_url: opt_text(self.relay_url),
            mdns: self.mdns,
            authorized_keys: opt_text(self.authorized_keys),
            max_connections: self.max_connections,
        }
    }
}

/// The settings before any option.
pub open spec fn default_settings() -> SettingsView {
    SettingsView {
        ssh_host: DEFAULT_SSH_HOST@,
        key_path: None,
        bind: DEFAULT_BIND@,
        relay_url: Some(DEFAULT_RELAY@),
        mdns: false,
        authorized_keys: None,
        max_connections: DEFAULT_MAX_CONNECTIONS,
    }
}

/// What an option sets, if it is one that some command knows.
pub open spec fn setting_of(t: Token) -> Option<Setting> {
    match t {
        Token::Short(c) => if c == 'k' {
            Some(Setting::Key)
        } else {
            None
        },
        Token::Long(name) => if name == "key"@ {
            Some(Setting::Key)
        } else if name == "ssh-host"@ {
            Some(Setting::SshHost)
        } else if name == "bind"@ {
            Some(Setting::Bind)
        } else if name == "relay-url"@ {
            Some(Setting::RelayUrl)
        } else if name == "mdns"@ {
            Some(Setting::Mdns)
        } else if name == "authorized-keys"@ {
            Some(Setting::AuthorizedKeys)
        } else if name == "max-connections"@ {
            Some(Setting::MaxConnections)
        } else {
            None
        },
        Token::Value(_) => None,
    }
}

/// `-h` or `--help`.
pub open spec fn asks_help(t: Token) -> bool {
    match t {
        Token::Short(c) => c == 'h',
        Token::Long(name) => name == "help"@,
        Token::Value(_) => false,
    }
}

/// Which settings a command takes.
pub open spec fn takes(kind: CommandKind, setting: Setting) -> bool {
    match kind {
        CommandKind::Id => setting is Key,
        CommandKind::Serve => true,
        CommandKind::Connect => setting is Key || setting is Bind || setting is RelayUrl
            || setting is Mdns,
    }
}

/// What an argument means to a command.
pub open spec fn meaning_of(kind: CommandKind, t: Token) -> Meaning {
    match setting_of(t) {
        Some(setting) if takes(kind, setting) => Meaning::Sets { setting },
        _ => if asks_help(t) {
            Meaning::Help
        } else {
            Meaning::Unknown
        },
    }
}

/// Whether a text is the URL of a relay, that is, whether `iroh::RelayUrl`'s
/// `FromStr` accepts it.
pub uninterp spec fn is_relay_url(url: Seq<char>) -> bool;

/// The settings once an option has set one of them. The value of `Mdns`, a plain
/// switch, does not matter.
pub open spec fn assign(s: SettingsView, setting: Setting, value: Seq<char>) -> Result<
    SettingsView,
    ArgFault,
> {
    match setting {
        Setting::SshHost => Ok(SettingsView { ssh_host: value, ..s }),
        Setting::Key => Ok(SettingsView { key_path: Some(value), ..s }),
        Setting::Bind => Ok(SettingsView { bind: value, ..s }),
        Setting::RelayUrl => if is_relay_url(value) {
            Ok(SettingsView { relay_url: Some(value), ..s })
        } else {
            Err(ArgFault::RelayUrl { url: value, reason: "Failed to parse relay URL"@ })
        },
        Setting::Mdns => Ok(SettingsView { mdns: true, ..s }),
        Setting::AuthorizedKeys => Ok(SettingsView { authorized_keys: Some(value), ..s }),
        Setting::MaxConnections => match number_of(value) {
            Ok(max_connections) => Ok(SettingsView { max_connections, ..s }),
            Err(error) => Err(ArgFault::MaxConnections { error }),
        },
    }
}

/// How much of the arguments is left within the one being read.
pub open spec fn left_within(s: LexState) -> nat {
    match s.mode {
        LexMode::Cluster(c) => c.len(),
        _ => 0,
    }
}

/// The settings that a command's options leave behind, read from left to right;
/// nothing, where an option asks for help.
pub open spec fn read_options(kind: CommandKind, lex: LexState, s: SettingsView) -> Result<
    Option<SettingsView>,
    ArgFault,
>
    decreases lex.rest.len(), left_within(lex),
{
    match lex_next(lex) {
        (Err(error), _) => Err(ArgFault::Shape { error }),
        (Ok(None), _) => Ok(Some(s)),
        (Ok(Some(t)), after) => match meaning_of(kind, t) {
            Meaning::Unknown => Err(ArgFault::Unexpected { argument: t }),
            Meaning::Help => Ok(None),
            Meaning::Sets { setting: Setting::Mdns } => read_options(
                kind,
                after,
                SettingsView { mdns: true, ..s },
            ),
            Meaning::Sets { setting } => match lex_value(after) {
                (Err(error), _) => Err(ArgFault::Shape { error }),
                (Ok(value), beyond) => match assign(s, setting, value) {
                    Err(fault) => Err(fault),
                    Ok(next) => read_options(kind, beyond, next),
                },
            },
        },
    }
}

/// The command that settings make up.
pub open spec fn command_of(kind: CommandKind, peer_id: Seq<char>, s: SettingsView) -> CommandView {
    match kind {
        CommandKind::Id => CommandView::Id { key_path: s.key_path },
        CommandKind::Serve => CommandView::Serve {
            ssh_host: s.ssh_host,
            key_path: s.key_path,
            bind: s.bind,
            relay_url: s.relay_url,
            mdns: s.mdns,
            authorized_keys: s.authorized_keys,
            max_connections: s.max_connections,
        },
        CommandKind::Connect => CommandView::Connect {
            peer_id,
            key_path: s.key_path,
            bind: s.bind,
            relay_url: s.relay_url,
            mdns: s.mdns,
        },
    }
}

/// The help text of a command.
pub open spec fn topic_of(kind: CommandKind) -> HelpTopic {
    match kind {
        CommandKind::Id => HelpTopic::Id,
        CommandKind::Serve => HelpTopic::Serve,
        CommandKind::Connect => HelpTopic::Connect,
    }
}

/// What the options after a command (and its peer ID) make of it.
pub open spec fn command_line(kind: CommandKind, peer_id: Seq<char>, lex: LexState) -> Result<
    InvocationView,
    ArgFault,
> {
    match read_options(kind, lex, default_settings()) {
        Err(fault) => Err(fault),
        Ok(None) => Ok(InvocationView::Help { topic: topic_of(kind) }),
        Ok(Some(s)) => Ok(InvocationView::Run { command: command_of(kind, peer_id, s) }),
    }
}

/// What the arguments ask for.
pub open spec fn invocation_of(args: Seq<Seq<char>>) -> Result<InvocationView, ArgFault> {
    match lex_next(lex_start(args)) {
        (Ok(Some(Token::Value(name))), after) => if name == "id"@ {
            command_line(CommandKind::Id, Seq::empty(), after)
        } else if name == "serve"@ {
            command_line(CommandKind::Serve, Seq::empty(), after)
        } else if name == "connect"@ {
            match lex_next(after) {
                (Ok(Some(Token::Value(peer_id))), beyond) => command_line(
                    CommandKind::Connect,
                    peer_id,
                    beyond,
                ),
                (Ok(Some(t)), _) if asks_help(t) => Ok(
                    InvocationView::Help { topic: HelpTopic::Connect },
                ),
                (Ok(_), _) => Err(ArgFault::MissingPeerId),
                (Err(error), _) => Err(ArgFault::Shape { error }),
            }
        } else if name == "help"@ || name == "--help"@ || name == "-h"@ {
            Ok(InvocationView::Help { topic: HelpTopic::General })
        } else {
            Err(ArgFault::UnknownCommand { name })
        },
        (Ok(Some(t)), _) if asks_help(t) => Ok(InvocationView::Help { topic: HelpTopic::General }),
        (Ok(_), _) => Err(ArgFault::NoCommand),
        (Err(error), _) => Err(ArgFault::Shape { error }),
    }
}

/// `iroh::RelayUrl`'s `FromStr`: whether a text is the URL of a relay, and if
/// not, the error as text, which is always the same. What it accepts is whatever
/// `iroh` accepts.
#[verifier::external_body]
fn check_relay_url(url: &str) -> (r: Result<(), String>)
    ensures
        match r {
            Ok(_) => is_relay_url(url@),
            Err(e) => !is_relay_url(url@) && e@ == "Failed to parse relay URL"@,
        },
{
    match url.parse::<iroh::RelayUrl>() {
        Ok(_) => Ok(()),
        Err(e) => Err(e.to_string()),
    }
}

impl Settings {
    /// The settings before any option.
    pub fn new() -> (r: Settings)
        ensures
            r@ == default_settings(),
    {
        Settings {
            ssh_host: DEFAULT_SSH_HOST.to_owned(),
            key_path: None,
            bind: DEFAULT_BIND.to_owned(),
            relay_url: Some(DEFAULT_RELAY.to_owned()),
            mdns: false,
            authorized_keys: None,
            max_connections: DEFAULT_MAX_CONNECTIONS,
        }
    }

    /// Sets the relay, given the verdict on its URL.
    pub fn set_relay_url(&mut self, url: String, verdict: Result<(), String>) -> (r: Result<
        (),
        ArgError,
    >)
        ensures
            match verdict {
                Ok(_) => r is Ok && final(self)@ == (SettingsView {
                    relay_url: Some(url@),
                    ..old(self)@
                }),
                Err(e) => (r matches Err(f) && f@ == (ArgFault::RelayUrl {
                    url: url@,
                    reason: e@,
                })) && *final(self) == *old(self),
            },
    {
        match verdict {
            Ok(_) => {
                self.relay_url = Some(url);
                Ok(())
            },
            Err(reason) => Err(ArgError::RelayUrl { url, reason }),
        }
    }

    /// Sets what an option names, as [`assign`] says; on an error nothing.
    pub fn set(&mut self, setting: Setting, value: String) -> (r: Result<(), ArgError>)
        ensures
            match assign(old(self)@, setting, value@) {
                Ok(s) => r is Ok && final(self)@ == s,
                Err(f) => (r matches Err(e) && e@ == f) && *final(self) == *old(self),
            },
    {
        match setting {
            Setting::SshHost => {
                self.ssh_host = value;
            },
            Setting::Key => {
                self.key_path = Some(value);
            },
            Setting::Bind => {
                self.bind = value;
            },
            Setting::RelayUrl => {
                let verdict: Result<(), String> = check_relay_url(value.as_str());
                return self.set_relay_url(value, verdict);
            },
            Setting::Mdns => {
                self.mdns = true;
            },
            Setting::AuthorizedKeys => {
                self.authorized_keys = Some(value);
            },
            Setting::MaxConnections => {
                match parse_number(value.as_str()) {
                    Ok(n) => {
                        self.max_connections = n;
                    },
                    Err(error) => {
                        return Err(ArgError::MaxConnections { error });
                    },
                }
            },
        }
        Ok(())
    }
}

/// What a long option sets, if it is one that some command knows.
fn long_setting(name: &str) -> (r: Option<Setting>)
    ensures
        r == setting_of(Token::Long(name@)),
{
    if same_text(name, "key") {
        Some(Setting::Key)
    } else if same_text(name, "ssh-host") {
        Some(Setting::SshHost)
    } else if same_text(name, "bind") {
        Some(Setting::Bind)
    } else if same_text(name, "relay-url") {
        Some(Setting::RelayUrl)
    } else if same_text(name, "mdns") {
        Some(Setting::Mdns)
    } else if same_text(name, "authorized-keys") {
        Some(Setting::AuthorizedKeys)
    } else if same_text(name, "max-connections") {
        Some(Setting::MaxConnections)
    } else {
        None
    }
}

/// Whether an argument asks for help.
fn is_help(argument: &Argument) -> (r: bool)
    ensures
        r == asks_help(argument@),
{
    match argument {
        Argument::Short(c) => *c == 'h',
        Argument::Long(name) => same_text(name.as_str(), "help"),
        Argument::Value(_) => false,
    }
}

impl CommandKind {
    /// Whether the command takes a setting.
    pub fn accepts(self, setting: Setting) -> (r: bool)
        ensures
            r == takes(self, setting),
    {
        match self {
            CommandKind::Id => matches!(setting, Setting::Key),
            CommandKind::Serve => true,
            CommandKind::Connect => matches!(
                setting,
                Setting::Key | Setting::Bind | Setting::RelayUrl | Setting::Mdns
            ),
        }
    }

    /// What an argument means to the command.
    pub fn meaning(self, argument: &Argument) -> (r: Meaning)
        ensures
            r == meaning_of(self, argument@),
    {
        let setting: Option<Setting> = match argument {
            Argument::Short(c) => if *c == 'k' {
                Some(Setting::Key)
            } else {
                None
            },
            Argument::Long(name) => long_setting(name.as_str()),
            Argument::Value(_) => None,
        };
        if let Some(setting) = setting {
            if self.accepts(setting) {
                return Meaning::Sets { setting };
            }
        }
        if is_help(argument) {
            Meaning::Help
        } else {
            Meaning::Unknown
        }
    }

    /// The help text of the command.
    pub fn topic(self) -> (r: HelpTopic)
        ensures
            r == topic_of(self),
    {
        match self {
            CommandKind::Id => HelpTopic::Id,
            CommandKind::Serve => HelpTopic::Serve,
            CommandKind::Connect => HelpTopic::Connect,
        }
    }

    /// The command that settings make up.
    pub fn command(self, peer_id: String, settings: Settings) -> (r: Command)
        ensures
            r@ == command_of(self, peer_id@, settings@),
    {
        match self {
            CommandKind::Id => Command::Id { key_path: settings.key_path },
            CommandKind::Serve => Command::Serve {
                ssh_host: settings.ssh_host,
                key_path: settings.key_path,
                bind: settings.bind,
                relay_url: settings.relay_url,
                mdns: settings.mdns,
                authorized_keys: settings.authorized_keys,
                max_connections: settings.max_connections,
            },
            CommandKind::Connect => Command::Connect {
                peer_id,
                key_path: settings.key_path,
                bind: settings.bind,
                relay_url: settings.relay_url,
                mdns: settings.mdns,
            },
        }
    }
}

/// Reads a command's options into its settings; `false` where one asks for help.
fn take_options(
    kind: CommandKind,
    parser: &mut lexopt::Parser,
    settings: &mut Settings,
) -> (r: Result<bool, ArgError>)
    requires
        lexer_state(*old(parser)) is Some,
    ensures
        match read_options(kind, lexer_state(*old(parser))->0, old(settings)@) {
            Ok(Some(s)) => r == Ok::<bool, ArgError>(true) && final(settings)@ == s,
            Ok(None) => r == Ok::<bool, ArgError>(false),
            Err(f) => r matches Err(e) && e@ == f,
        },
{
    loop
        invariant
            lexer_state(*parser) is Some,
            read_options(kind, lexer_state(*parser)->0, settings@) == read_options(
                kind,
                lexer_state(*old(parser))->0,
                old(settings)@,
            ),
        decreases lexer_state(*parser)->0.rest.len(), left_within(lexer_state(*parser)->0),
    {
        match next_argument(parser) {
            Err(error) => {
                return Err(ArgError::Shape { error });
            },
            Ok(None) => {
                return Ok(true);
            },
            Ok(Some(argument)) => match kind.meaning(&argument) {
                Meaning::Unknown => {
                    return Err(ArgError::Unexpected { argument });
                },
                Meaning::Help => {
                    return Ok(false);
                },
                Meaning::Sets { setting: Setting::Mdns } => {
                    settings.mdns = true;
                },
                Meaning::Sets { setting } => match option_value(parser) {
                    Err(error) => {
                        return Err(ArgError::Shape { error });
                    },
                    Ok(value) => match settings.set(setting, value) {
                        Err(fault) => {
                            return Err(fault);
                        },
                        Ok(_) => {},
                    },
                },
            },
        }
    }
}

/// Reads the options after a command (and its peer ID).
fn take_command(kind: CommandKind, peer_id: String, parser: &mut lexopt::Parser) -> (r: Result<
    Invocation,
    ArgError,
>)
    requires
        lexer_state(*old(parser)) is Some,
    ensures
        match command_line(kind, peer_id@, lexer_state(*old(parser))->0) {
            Ok(i) => r matches Ok(x) && x@ == i,
            Err(f) => r matches Err(e) && e@ == f,
        },
{
    let mut settings: Settings = Settings::new();
    match take_options(kind, parser, &mut settings) {
        Err(fault) => Err(fault),
        Ok(true) => Ok(Invocation::Run { command: kind.command(peer_id, settings) }),
        Ok(false) => Ok(Invocation::Help { topic: kind.topic() }),
    }
}

/// Reads the command line (without the program's name).
///
/// The first argument is a command: `id`, `serve`, `connect` (which a peer ID
/// follows) or `help`. Its options come after it. Each may come more than once,
/// and the last one counts. `-h` or `--help` asks for the help of the command
/// that it follows (in place of the peer ID, too), and for the general help where
/// it comes first.
pub fn parse_args(args: Vec<String>) -> (r: Result<Invocation, ArgError>)
    ensures
        match invocation_of(texts(args@)) {
            Ok(i) => r matches Ok(x) && x@ == i,
            Err(f) => r matches Err(e) && e@ == f,
        },
{
    let mut parser: lexopt::Parser = new_parser(args);
    let name: String = match next_argument(&mut parser) {
        Ok(Some(Argument::Value(name))) => name,
        Ok(Some(argument)) if is_help(&argument) => {
            return Ok(Invocation::Help { topic: HelpTopic::General });
        },
        Ok(_) => {
            return Err(ArgError::NoCommand);
        },
        Err(error) => {
            return Err(ArgError::Shape { error });
        },
    };
    if same_text(name.as_str(), "id") {
        take_command(CommandKind::Id, String::new(), &mut parser)
    } else if same_text(name.as_str(), "serve") {
        take_command(CommandKind::Serve, String::new(), &mut parser)
    } else if same_text(name.as_str(), "connect") {
        match next_argument(&mut parser) {
            Ok(Some(Argument::Value(peer_id))) => take_command(
                CommandKind::Connect,
                peer_id,
                &mut parser,
            ),
            Ok(Some(argument)) if is_help(&argument) => Ok(
                Invocation::Help { topic: HelpTopic::Connect },
            ),
            Ok(_) => Err(ArgError::MissingPeerId),
            Err(error) => Err(ArgError::Shape { error }),
        }
    } else if same_text(name.as_str(), "help") || same_text(name.as_str(), "--help")
        || same_text(name.as_str(), "-h") {
        Ok(Invocation::Help { topic: HelpTopic::General })
    } else {
        Err(ArgError::UnknownCommand { name })
    }
}

/// The help text of the program.
pub const HELP: &'static str = "p2pssh - Privacy-first P2P SSH tunnel using iroh

USAGE:
    p2pssh <COMMAND>

COMMANDS:
    id         Show your peer ID
    serve      Listen for incoming SSH connections
    connect    Connect to a peer (for use as SSH ProxyCommand)

OPTIONS:
    -h, --help    Print help information

Run 'p2pssh <COMMAND> --help' for more information on a command.";

/// The help text of `id`.
pub const ID_HELP: &'static str = "p2pssh-id - Show your peer ID

USAGE:
    p2pssh id [OPTIONS]

OPTIONS:
    -k, --key <PATH>    Path to secret key file
    -h, --help          Print help information";

/// The help text of `serve`.
pub const SERVE_HELP: &'static str = "p2pssh-serve - Listen for incoming SSH connections

USAGE:
    p2pssh serve [OPTIONS]

OPTIONS:
    --ssh-host <ADDR>           SSH server address to forward to [default: 127.0.0.1:22]
    -k, --key <PATH>            Path to secret key file
    --bind <ADDR>               Bind address for the endpoint [default: 0.0.0.0:0]
    --relay-url <URL>           Custom relay URL (e.g. https://relay.example.com)
    --mdns                      Enable mDNS discovery on local network
    --authorized-keys <PATH>    Path to file with authorized client public keys (z32 format)
    --max-connections <N>       Maximum concurrent connections [default: 100]
    -h, --help                  Print help information";

/// The help text of `connect`.
pub const CONNECT_HELP: &'static str = "p2pssh-connect - Connect to a peer

USAGE:
    p2pssh connect <PEER_ID> [OPTIONS]

ARGS:
    <PEER_ID>    Peer ID to connect to

OPTIONS:
    -k, --key <PATH>     Path to secret key file
    --bind <ADDR>        Bind address for the endpoint [default: 0.0.0.0:0]
    --relay-url <URL>    Custom relay URL (e.g. https://relay.example.com)
    --mdns               Enable mDNS discovery on local network
    -h, --help           Print help information";

/// A help text.
pub open spec fn help_of(topic: HelpTopic) -> Seq<char> {
    match topic {
        HelpTopic::General => HELP@,
        HelpTopic::Id => ID_HELP@,
        HelpTopic::Serve => SERVE_HELP@,
        HelpTopic::Connect => CONNECT_HELP@,
    }
}

impl HelpTopic {
    /// The help text.
    pub fn text(self) -> (r: &'static str)
        ensures
            r@ == help_of(self),
    {
        match self {
            HelpTopic::General => HELP,
            HelpTopic::Id => ID_HELP,
            HelpTopic::Serve => SERVE_HELP,
            HelpTopic::Connect => CONNECT_HELP,
        }
    }
}

/// How `lexopt::Arg` shows itself with `{:?}`.
pub uninterp spec fn arg_debug(t: Token) -> Seq<char>;

/// `lexopt::Arg`'s `Debug`: an argument as it is shown to programmers. How it
/// quotes and escapes is `lexopt`'s affair.
#[verifier::external_body]
fn argument_text(argument: &Argument) -> (r: String)
    ensures
        r@ == arg_debug(argument@),
{
    match argument {
        Argument::Short(c) => format!("{:?}", lexopt::Arg::Short(*c)),
        Argument::Long(s) => format!("{:?}", lexopt::Arg::Long(s.as_str())),
        Argument::Value(s) => format!("{:?}", lexopt::Arg::Value(s.into())),
    }
}

/// How `lexopt::Error::UnexpectedValue` shows itself with `{}`.
pub uninterp spec fn unexpected_value_display(option: Seq<char>, value: Seq<char>) -> Seq<char>;

/// `lexopt::Error`'s `Display`, for an option with a value that it does not take.
/// How it quotes and escapes the value is `lexopt`'s affair.
#[verifier::external_body]
fn unexpected_value_text(option: &str, value: &str) -> (r: String)
    ensures
        r@ == unexpected_value_display(option@, value@),
{
    lexopt::Error::UnexpectedValue { option: option.into(), value: value.into() }.to_string()
}

impl ArgFault {
    /// What the error says.
    pub open spec fn says(self) -> Seq<char> {
        match self {
            ArgFault::NoCommand => "No command specified"@,
            ArgFault::UnknownCommand { name } => "Unknown command: "@ + name
                + ". Use '-h' for usage information."@,
            ArgFault::MissingPeerId => "Missing peer ID argument"@,
            ArgFault::Unexpected { argument } => "Unexpected argument: "@ + arg_debug(argument),
            ArgFault::Shape { error } => match error {
                LexFault::MissingValue { option: None } => "missing argument"@,
                LexFault::MissingValue { option: Some(option) } => "missing argument for option '"@
                    + option + "'"@,
                LexFault::UnexpectedValue { option, value } => unexpected_value_display(
                    option,
                    value,
                ),
                LexFault::Other { message } => message,
            },
            ArgFault::RelayUrl { reason, .. } => reason,
            ArgFault::MaxConnections { error } => match error {
                NumberError::Empty => "cannot parse integer from empty string"@,
                NumberError::InvalidDigit => "invalid digit found in string"@,
                NumberError::TooLarge => "number too large to fit in target type"@,
            },
        }
    }
}

impl ArgError {
    /// The help that is shown along with the error: where no command is given, the
    /// general help.
    pub fn help(&self) -> (r: Option<HelpTopic>)
        ensures
            r == (if self@ is NoCommand {
                Some(HelpTopic::General)
            } else {
                None
            }),
    {
        match self {
            ArgError::NoCommand => Some(HelpTopic::General),
            _ => None,
        }
    }

    /// The error in words.
    pub fn message(&self) -> (r: String)
        ensures
            r@ == self@.says(),
    {
        match self {
            ArgError::NoCommand => "No command specified".to_owned(),
            ArgError::UnknownCommand { name } => "Unknown command: ".to_owned().concat(
                name.as_str(),
            ).concat(". Use '-h' for usage information."),
            ArgError::MissingPeerId => "Missing peer ID argument".to_owned(),
            ArgError::Unexpected { argument } => "Unexpected argument: ".to_owned().concat(
                argument_text(argument).as_str(),
            ),
            ArgError::Shape { error } => match error {
                LexError::MissingValue { option: None } => "missing argument".to_owned(),
                LexError::MissingValue { option: Some(option) } => {
                    "missing argument for option '".to_owned().concat(option.as_str()).concat("'")
                },
                LexError::UnexpectedValue { option, value } => unexpected_value_text(
                    option.as_str(),
                    value.as_str(),
                ),
                LexError::Other { message } => message.clone(),
            },
            ArgError::RelayUrl { reason, .. } => reason.clone(),
            ArgError::MaxConnections { error } => match error {
                NumberError::Empty => "cannot parse integer from empty string".to_owned(),
                NumberError::InvalidDigit => "invalid digit found in string".to_owned(),
                NumberError::TooLarge => "number too large to fit in target type".to_owned(),
            },
        }
    }
}

/// Whether a user is root: the user number 0.
pub fn is_root(uid: u32) -> (r: bool)
    ensures
        r == (uid == 0),
{
    uid == 0
}

/// A path, and a name within it.
pub open spec fn joined(base: Seq<char>, name: Seq<char>) -> Seq<char> {
    if base.len() == 0 || base.last() == '/' {
        base + name
    } else {
        base + "/"@ + name
    }
}

/// Joins a path and a name within it.
fn join(base: &str, name: &str) -> (r: String)
    ensures
        r@ == joined(base@, name@),
{
    let n: usize = base.unicode_len();
    if n == 0 || base.get_char(n - 1) == '/' {
        base.to_owned().concat(name)
    } else {
        base.to_owned().concat("/").concat(name)
    }
}

/// Where users keep their configuration: `$XDG_CONFIG_HOME` unless it is empty,
/// else `$HOME/.config`, else the working directory.
pub open spec fn user_config_dir(xdg_config_home: Option<Seq<char>>, home: Option<Seq<char>>) -> Seq<
    char,
> {
    match xdg_config_home {
        Some(dir) if dir.len() > 0 => dir,
        _ => match home {
            Some(dir) => joined(dir, ".config"@),
            None => "."@,
        },
    }
}

/// The directory of this program's files: `/etc/p2pssh` for root, else `p2pssh`
/// within the user's configuration.
pub open spec fn program_dir(
    root: bool,
    xdg_config_home: Option<Seq<char>>,
    home: Option<Seq<char>>,
) -> Seq<char> {
    if root {
        "/etc/p2pssh"@
    } else {
        joined(user_config_dir(xdg_config_home, home), "p2pssh"@)
    }
}

/// The directory of this program's files.
fn find_program_dir(root: bool, xdg_config_home: Option<&str>, home: Option<&str>) -> (r: String)
    ensures
        r@ == program_dir(root, opt_str(xdg_config_home), opt_str(home)),
{
    if root {
        return "/etc/p2pssh".to_owned();
    }
    if let Some(dir) = xdg_config_home {
        if !dir.is_empty() {
            return join(dir, "p2pssh");
        }
    }
    let base: String = match home {
        Some(dir) => join(dir, ".config"),
        None => ".".to_owned(),
    };
    join(base.as_str(), "p2pssh")
}

/// Where the secret key is kept where nothing is said. The variables are those
/// of the environment, where they are set.
pub fn default_key_path(root: bool, xdg_config_home: Option<&str>, home: Option<&str>) -> (r: String)
    ensures
        r@ == joined(
            program_dir(root, opt_str(xdg_config_home), opt_str(home)),
            "secret.key"@,
        ),
{
    join(find_program_dir(root, xdg_config_home, home).as_str(), "secret.key")
}

/// Where the authorized keys are kept where nothing is said.
pub fn default_authorized_keys_path(
    root: bool,
    xdg_config_home: Option<&str>,
    home: Option<&str>,
) -> (r: String)
    ensures
        r@ == joined(
            program_dir(root, opt_str(xdg_config_home), opt_str(home)),
            "authorized_keys"@,
        ),
{
    join(find_program_dir(root, xdg_config_home, home).as_str(), "authorized_keys")
}

/// Where the secret key is kept: where the user says, else at the default path.
pub fn key_path_or_default(
    given: Option<String>,
    root: bool,
    xdg_config_home: Option<&str>,
    home: Option<&str>,
) -> (r: String)
    ensures
        r@ == (match opt_text(given) {
            Some(path) => path,
            None => joined(
                program_dir(root, opt_str(xdg_config_home), opt_str(home)),
                "secret.key"@,
            ),
        }),
{
    match given {
        Some(path) => path,
        None => default_key_path(root, xdg_config_home, home),
    }
}

/// Where the authorized keys are kept: where the user says, else at the default
/// path.
pub fn authorized_keys_path_or_default(
    given: Option<String>,
    root: bool,
    xdg_config_home: Option<&str>,
    home: Option<&str>,
) -> (r: String)
    ensures
        r@ == (match opt_text(given) {
            Some(path) => path,
            None => joined(
                program_dir(root, opt_str(xdg_config_home), opt_str(home)),
                "authorized_keys"@,
            ),
        }),
{
    match given {
        Some(path) => path,
        None => default_authorized_keys_path(root, xdg_config_home, home),
    }
}

/// The default paths, whatever the environment: both files are in one directory,
/// and that directory is called `p2pssh`.
pub proof fn law_default_paths(
    root: bool,
    xdg_config_home: Option<Seq<char>>,
    home: Option<Seq<char>>,
)
    ensures
        joined(program_dir(root, xdg_config_home, home), "secret.key"@) == program_dir(
            root,
            xdg_config_home,
            home,
        ) + "/secret.key"@,
        joined(program_dir(root, xdg_config_home, home), "authorized_keys"@) == program_dir(
            root,
            xdg_config_home,
            home,
        ) + "/authorized_keys"@,
        "/p2pssh"@.is_suffix_of(program_dir(root, xdg_config_home, home)),
{
    reveal_strlit("/etc/p2pssh");
    reveal_strlit("p2pssh");
    reveal_strlit("/p2pssh");
    reveal_strlit(".config");
    reveal_strlit(".");
    reveal_strlit("/");
    reveal_strlit("secret.key");
    reveal_strlit("/secret.key");
    reveal_strlit("authorized_keys");
    reveal_strlit("/authorized_keys");
    let dir = program_dir(root, xdg_config_home, home);
    assert("/"@ + "secret.key"@ =~= "/secret.key"@);
    assert("/"@ + "authorized_keys"@ =~= "/authorized_keys"@);
    assert(dir.last() == 'h');
    assert(dir + "/"@ + "secret.key"@ =~= dir + "/secret.key"@);
    assert(dir + "/"@ + "authorized_keys"@ =~= dir + "/authorized_keys"@);
    assert(dir.len() >= 7 && dir[dir.len() - 7] == '/');
    assert(dir.subrange(dir.len() - 7, dir.len() as int) =~= "/p2pssh"@);
}

/// A directory's name, and a name within it behind a directory called `p2pssh`.
proof fn lemma_program_file(
    root: bool,
    xdg_config_home: Option<Seq<char>>,
    home: Option<Seq<char>>,
    name: Seq<char>,
)
    ensures
        joined(program_dir(root, xdg_config_home, home), name) == (if root {
            "/etc"@
        } else {
            match (xdg_config_home, home) {
                (Some(dir), _) if dir.len() > 0 => if dir.last() == '/' {
                    dir.drop_last()
                } else {
                    dir
                },
                (_, Some(dir)) => dir + if dir.len() == 0 || dir.last() == '/' {
                    ".config"@
                } else {
                    "/.config"@
                },
                _ => "."@,
            }
        }) + "/p2pssh/"@ + name,
{
    reveal_strlit("/etc");
    reveal_strlit("/etc/p2pssh");
    reveal_strlit("/p2pssh/");
    reveal_strlit("p2pssh");
    reveal_strlit("/");
    reveal_strlit(".config");
    reveal_strlit("/.config");
    reveal_strlit(".");
    let dir = program_dir(root, xdg_config_home, home);
    assert(dir.last() == 'h');
    assert("/etc/p2pssh"@ + "/"@ =~= "/etc"@ + "/p2pssh/"@);
    if !root {
        let base = user_config_dir(xdg_config_home, home);
        assert(base.len() > 0);
        if base.last() == '/' {
            assert(base + "p2pssh"@ + "/"@ =~= base.drop_last() + "/p2pssh/"@);
        } else {
            assert(base + "/"@ + "p2pssh"@ + "/"@ =~= base + "/p2pssh/"@);
        }
        if let Some(h) = home {
            assert(h + "/"@ + ".config"@ =~= h + "/.config"@);
            assert(joined(h, ".config"@).last() == 'g');
        }
    }
}

/// Where files are kept where nothing is said: for root in `/etc/p2pssh`; for other
/// users in the directory `p2pssh` of `$XDG_CONFIG_HOME` if that is set and not
/// empty, else of `$HOME/.config` if `$HOME` is set, else of the working directory.
/// The secret key is called `secret.key`, and the authorized keys are called
/// `authorized_keys`.
pub proof fn law_default_files(
    root: bool,
    xdg_config_home: Option<&str>,
    home: Option<&str>,
    key: String,
    authorized: String,
)
    requires
        call_ensures(default_key_path, (root, xdg_config_home, home), key),
        call_ensures(default_authorized_keys_path, (root, xdg_config_home, home), authorized),
    ensures
        ({
            let place = if root {
                "/etc"@
            } else {
                match (xdg_config_home, home) {
                    (Some(dir), _) if dir@.len() > 0 => if dir@.last() == '/' {
                        dir@.drop_last()
                    } else {
                        dir@
                    },
                    (_, Some(dir)) => dir@ + if dir@.len() == 0 || dir@.last() == '/' {
                        ".config"@
                    } else {
                        "/.config"@
                    },
                    _ => "."@,
                }
            };
            &&& key@ == place + "/p2pssh/"@ + "secret.key"@
            &&& authorized@ == place + "/p2pssh/"@ + "authorized_keys"@
        }),
{
    lemma_program_file(root, opt_str(xdg_config_home), opt_str(home), "secret.key"@);
    lemma_program_file(root, opt_str(xdg_config_home), opt_str(home), "authorized_keys"@);
}

/// A path that is given comes before the default one, whatever the environment.
pub proof fn law_given_path_counts(
    given: Option<String>,
    root: bool,
    xdg_config_home: Option<&str>,
    home: Option<&str>,
    key: String,
    default_key: String,
    authorized: String,
    default_authorized: String,
)
    requires
        call_ensures(key_path_or_default, (given, root, xdg_config_home, home), key),
        call_ensures(default_key_path, (root, xdg_config_home, home), default_key),
        call_ensures(
            authorized_keys_path_or_default,
            (given, root, xdg_config_home, home),
            authorized,
        ),
        call_ensures(
            default_authorized_keys_path,
            (root, xdg_config_home, home),
            default_authorized,
        ),
    ensures
        match given {
            Some(path) => key@ == path@ && authorized@ == path@,
            None => key@ == default_key@ && authorized@ == default_authorized@,
        },
{
}

/// Root is the user number 0, and nobody else is.
pub proof fn law_root(uid: u32, r: bool)
    requires
        call_ensures(is_root, (uid,), r),
    ensures
        r <==> uid == 0,
{
}

/// The settings before any option, one by one.
pub proof fn law_default_settings(r: Settings)
    requires
        call_ensures(Settings::new, (), r),
    ensures
        r.ssh_host@ == "127.0.0.1:22"@,
        r.key_path is None,
        r.bind@ == "0.0.0.0:0"@,
        r.relay_url matches Some(url) && url@ == "https://relay.punkeel.com"@,
        !r.mdns,
        r.authorized_keys is None,
        r.max_connections == 100,
{
}

/// An option sets one setting, to the value that is given, and leaves all others as
/// they are. The value of `--relay-url` must be the URL of a relay and that of
/// `--max-connections` a number; any other value is refused, with what is wrong.
pub proof fn law_option_sets_one(s: SettingsView, setting: Setting, value: Seq<char>)
    ensures
        assign(s, setting, value) is Err <==> (setting is RelayUrl && !is_relay_url(value)) || (
        setting is MaxConnections && number_of(value) is Err),
        setting is RelayUrl ==> (assign(s, setting, value) matches Err(fault) ==> fault == (
        ArgFault::RelayUrl { url: value, reason: "Failed to parse relay URL"@ })),
        setting is MaxConnections ==> (assign(s, setting, value) matches Err(fault) ==> fault == (
        ArgFault::MaxConnections { error: number_of(value)->Err_0 })),
        assign(s, setting, value) matches Ok(t) ==> {
            &&& t.ssh_host == if setting is SshHost {
                value
            } else {
                s.ssh_host
            }
            &&& t.key_path == if setting is Key {
                Some(value)
            } else {
                s.key_path
            }
            &&& t.bind == if setting is Bind {
                value
            } else {
                s.bind
            }
            &&& t.relay_url == if setting is RelayUrl {
                Some(value)
            } else {
                s.relay_url
            }
            &&& t.mdns == (s.mdns || setting is Mdns)
            &&& t.authorized_keys == if setting is AuthorizedKeys {
                Some(value)
            } else {
                s.authorized_keys
            }
            &&& if setting is MaxConnections {
                number_of(value) == Ok::<usize, NumberError>(t.max_connections)
            } else {
                t.max_connections == s.max_connections
            }
        },
{
}

/// Whether two optional texts are the same.
pub open spec fn same_option(a: Option<String>, b: Option<String>) -> bool {
    match (a, b) {
        (Some(x), Some(y)) => x@ == y@,
        (None, None) => true,
        _ => false,
    }
}

/// A command has what its settings say, each under its own name, and `connect` has
/// the peer ID besides.
pub proof fn law_command_has_its_settings(
    kind: CommandKind,
    peer: String,
    s: Settings,
    r: Command,
)
    requires
        call_ensures(CommandKind::command, (kind, peer, s), r),
    ensures
        match kind {
            CommandKind::Id => r matches Command::Id { key_path } && same_option(
                key_path,
                s.key_path,
            ),
            CommandKind::Serve => r matches Command::Serve {
                ssh_host,
                key_path,
                bind,
                relay_url,
                mdns,
                authorized_keys,
                max_connections,
            } && ssh_host@ == s.ssh_host@ && same_option(key_path, s.key_path) && bind@ == s.bind@
                && same_option(relay_url, s.relay_url) && mdns == s.mdns && same_option(
                authorized_keys,
                s.authorized_keys,
            ) && max_connections == s.max_connections,
            CommandKind::Connect => r matches Command::Connect {
                peer_id,
                key_path,
                bind,
                relay_url,
                mdns,
            } && peer_id@ == peer@ && same_option(key_path, s.key_path) && bind@ == s.bind@
                && same_option(relay_url, s.relay_url) && mdns == s.mdns,
        },
{
}

/// A command is of its own kind, and its help is its own.
pub proof fn law_kinds(command: Command, kind: CommandKind, topic: HelpTopic)
    requires
        call_ensures(Command::kind, (&command,), kind),
        call_ensures(CommandKind::topic, (kind,), topic),
    ensures
        command is Id <==> kind == CommandKind::Id,
        command is Serve <==> kind == CommandKind::Serve,
        command is Connect <==> kind == CommandKind::Connect,
        kind == CommandKind::Id <==> topic == HelpTopic::Id,
        kind == CommandKind::Serve <==> topic == HelpTopic::Serve,
        kind == CommandKind::Connect <==> topic == HelpTopic::Connect,
{
}

/// The errors of the command line in words: each names what it is about.
pub proof fn law_argument_messages(error: ArgError, text: String)
    requires
        call_ensures(ArgError::message, (&error,), text),
    ensures
        match error {
            ArgError::NoCommand => text@ == "No command specified"@,
            ArgError::UnknownCommand { name } => text@ == "Unknown command: "@ + name@
                + ". Use '-h' for usage information."@,
            ArgError::MissingPeerId => text@ == "Missing peer ID argument"@,
            ArgError::Unexpected { argument } => text@ == "Unexpected argument: "@ + arg_debug(
                argument@,
            ),
            ArgError::Shape { error: LexError::MissingValue { option: None } } => text@
                == "missing argument"@,
            ArgError::Shape { error: LexError::MissingValue { option: Some(option) } } => text@
                == "missing argument for option '"@ + option@ + "'"@,
            ArgError::Shape { error: LexError::UnexpectedValue { option, value } } => text@
                == unexpected_value_display(option@, value@),
            ArgError::Shape { error: LexError::Other { message } } => text@ == message@,
            ArgError::RelayUrl { reason, .. } => text@ == reason@,
            ArgError::MaxConnections { error: NumberError::Empty } => text@
                == "cannot parse integer from empty string"@,
            ArgError::MaxConnections { error: NumberError::InvalidDigit } => text@
                == "invalid digit found in string"@,
            ArgError::MaxConnections { error: NumberError::TooLarge } => text@
                == "number too large to fit in target type"@,
        },
{
}

/// The general help is shown along with an error where no command is given, and
/// nowhere else.
pub proof fn law_help_with_error(error: ArgError, r: Option<HelpTopic>)
    requires
        call_ensures(ArgError::help, (&error,), r),
    ensures
        r == Some(HelpTopic::General) <==> error is NoCommand,
        r is None <==> !(error is NoCommand),
{
}

/// Whether a text stands somewhere in another.
pub open spec fn mentions(text: Seq<char>, part: Seq<char>) -> bool {
    exists|i: int| stands_at(text, part, i)
}

/// Whether a text stands at a place of another.
pub open spec fn stands_at(text: Seq<char>, part: Seq<char>, i: int) -> bool {
    0 <= i && i + part.len() <= text.len() && text.subrange(i, i + part.len()) == part
}

proof fn lemma_help_text()
    ensures
        mentions(HELP@, "p2pssh <COMMAND>"@),
        mentions(HELP@, "    id  "@),
        mentions(HELP@, "    serve  "@),
        mentions(HELP@, "    connect  "@),
        mentions(HELP@, "-h, --help"@),
        mentions(HELP@, "Run 'p2pssh <COMMAND> --help'"@),
{
    reveal_strlit(
        "p2pssh - Privacy-first P2P SSH tunnel using iroh

USAGE:
    p2pssh <COMMAND>

COMMANDS:
    id         Show your peer ID
    serve      Listen for incoming SSH connections
    connect    Connect to a peer (for use as SSH ProxyCommand)

OPTIONS:
    -h, --help    Print help information

Run 'p2pssh <COMMAND> --help' for more information on a command.",
    );
    reveal_strlit("p2pssh <COMMAND>");
    reveal_strlit("    id  ");
    reveal_strlit("    serve  ");
    reveal_strlit("    connect  ");
    reveal_strlit("-h, --help");
    reveal_strlit("Run 'p2pssh <COMMAND> --help'");
    assert(stands_at(HELP@, "p2pssh <COMMAND>"@, 61)) by {
        assert(HELP@.subrange(61, 77) =~= "p2pssh <COMMAND>"@);
    }
    assert(stands_at(HELP@, "    id  "@, 89)) by {
        assert(HELP@.subrange(89, 97) =~= "    id  "@);
    }
    assert(stands_at(HELP@, "    serve  "@, 122)) by {
        assert(HELP@.subrange(122, 133) =~= "    serve  "@);
    }
    assert(stands_at(HELP@, "    connect  "@, 173)) by {
        assert(HELP@.subrange(173, 186) =~= "    connect  "@);
    }
    assert(stands_at(HELP@, "-h, --help"@, 250)) by {
        assert(HELP@.subrange(250, 260) =~= "-h, --help"@);
    }
    assert(stands_at(HELP@, "Run 'p2pssh <COMMAND> --help'"@, 288)) by {
        assert(HELP@.subrange(288, 317) =~= "Run 'p2pssh <COMMAND> --help'"@);
    }
}

proof fn lemma_id_help_text()
    ensures
        mentions(ID_HELP@, "p2pssh id [OPTIONS]"@),
        mentions(ID_HELP@, "-k, --key <PATH>"@),
        mentions(ID_HELP@, "-h, --help"@),
{
    reveal_strlit(
        "p2pssh-id - Show your peer ID

USAGE:
    p2pssh id [OPTIONS]

OPTIONS:
    -k, --key <PATH>    Path to secret key file
    -h, --help          Print help information",
    );
    reveal_strlit("p2pssh id [OPTIONS]");
    reveal_strlit("-k, --key <PATH>");
    reveal_strlit("-h, --help");
    assert(stands_at(ID_HELP@, "p2pssh id [OPTIONS]"@, 42)) by {
        assert(ID_HELP@.subrange(42, 61) =~= "p2pssh id [OPTIONS]"@);
    }
    assert(stands_at(ID_HELP@, "-k, --key <PATH>"@, 76)) by {
        assert(ID_HELP@.subrange(76, 92) =~= "-k, --key <PATH>"@);
    }
    assert(stands_at(ID_HELP@, "-h, --help"@, 124)) by {
        assert(ID_HELP@.subrange(124, 134) =~= "-h, --help"@);
    }
}

proof fn lemma_serve_help_text()
    ensures
        mentions(SERVE_HELP@, "p2pssh serve [OPTIONS]"@),
        mentions(SERVE_HELP@, "--ssh-host <ADDR>"@),
        mentions(SERVE_HELP@, "-k, --key <PATH>"@),
        mentions(SERVE_HELP@, "--bind <ADDR>"@),
        mentions(SERVE_HELP@, "--relay-url <URL>"@),
        mentions(SERVE_HELP@, "--mdns"@),
        mentions(SERVE_HELP@, "--authorized-keys <PATH>"@),
        mentions(SERVE_HELP@, "--max-connections <N>"@),
        mentions(SERVE_HELP@, "-h, --help"@),
{
    reveal_strlit(
        "p2pssh-serve - Listen for incoming SSH connections

USAGE:
    p2pssh serve [OPTIONS]

OPTIONS:
    --ssh-host <ADDR>           SSH server address to forward to [default: 127.0.0.1:22]
    -k, --key <PATH>            Path to secret key file
    --bind <ADDR>               Bind address for the endpoint [default: 0.0.0.0:0]
    --relay-url <URL>           Custom relay URL (e.g. https://relay.example.com)
    --mdns                      Enable mDNS discovery on local network
    --authorized-keys <PATH>    Path to file with authorized client public keys (z32 format)
    --max-connections <N>       Maximum concurrent connections [default: 100]
    -h, --help                  Print help information",
    );
    reveal_strlit("p2pssh serve [OPTIONS]");
    reveal_strlit("--ssh-host <ADDR>");
    reveal_strlit("-k, --key <PATH>");
    reveal_strlit("--bind <ADDR>");
    reveal_strlit("--relay-url <URL>");
    reveal_strlit("--mdns");
    reveal_strlit("--authorized-keys <PATH>");
    reveal_strlit("--max-connections <N>");
    reveal_strlit("-h, --help");
    assert(stands_at(SERVE_HELP@, "p2pssh serve [OPTIONS]"@, 63)) by {
        assert(SERVE_HELP@.subrange(63, 85) =~= "p2pssh serve [OPTIONS]"@);
    }
    assert(stands_at(SERVE_HELP@, "--ssh-host <ADDR>"@, 100)) by {
        assert(SERVE_HELP@.subrange(100, 117) =~= "--ssh-host <ADDR>"@);
    }
    assert(stands_at(SERVE_HELP@, "-k, --key <PATH>"@, 189)) by {
        assert(SERVE_HELP@.subrange(189, 205) =~= "-k, --key <PATH>"@);
    }
    assert(stands_at(SERVE_HELP@, "--bind <ADDR>"@, 245)) by {
        assert(SERVE_HELP@.subrange(245, 258) =~= "--bind <ADDR>"@);
    }
    assert(stands_at(SERVE_HELP@, "--relay-url <URL>"@, 328)) by {
        assert(SERVE_HELP@.subrange(328, 345) =~= "--relay-url <URL>"@);
    }
    assert(stands_at(SERVE_HELP@, "--mdns"@, 410)) by {
        assert(SERVE_HELP@.subrange(410, 416) =~= "--mdns"@);
    }
    assert(stands_at(SERVE_HELP@, "--authorized-keys <PATH>"@, 481)) by {
        assert(SERVE_HELP@.subrange(481, 505) =~= "--authorized-keys <PATH>"@);
    }
    assert(stands_at(SERVE_HELP@, "--max-connections <N>"@, 574)) by {
        assert(SERVE_HELP@.subrange(574, 595) =~= "--max-connections <N>"@);
    }
    assert(stands_at(SERVE_HELP@, "-h, --help"@, 652)) by {
        assert(SERVE_HELP@.subrange(652, 662) =~= "-h, --help"@);
    }
}

proof fn lemma_connect_help_text()
    ensures
        mentions(CONNECT_HELP@, "p2pssh connect <PEER_ID> [OPTIONS]"@),
        mentions(CONNECT_HELP@, "-k, --key <PATH>"@),
        mentions(CONNECT_HELP@, "--bind <ADDR>"@),
        mentions(CONNECT_HELP@, "--relay-url <URL>"@),
        mentions(CONNECT_HELP@, "--mdns"@),
        mentions(CONNECT_HELP@, "-h, --help"@),
{
    reveal_strlit(
        "p2pssh-connect - Connect to a peer

USAGE:
    p2pssh connect <PEER_ID> [OPTIONS]

ARGS:
    <PEER_ID>    Peer ID to connect to

OPTIONS:
    -k, --key <PATH>     Path to secret key file
    --bind <ADDR>        Bind address for the endpoint [default: 0.0.0.0:0]
    --relay-url <URL>    Custom relay URL (e.g. https://relay.example.com)
    --mdns               Enable mDNS discovery on local network
    -h, --help           Print help information",
    );
    reveal_strlit("p2pssh connect <PEER_ID> [OPTIONS]");
    reveal_strlit("-k, --key <PATH>");
    reveal_strlit("--bind <ADDR>");
    reveal_strlit("--relay-url <URL>");
    reveal_strlit("--mdns");
    reveal_strlit("-h, --help");
    assert(stands_at(CONNECT_HELP@, "p2pssh connect <PEER_ID> [OPTIONS]"@, 47)) by {
        assert(CONNECT_HELP@.subrange(47, 81) =~= "p2pssh connect <PEER_ID> [OPTIONS]"@);
    }
    assert(stands_at(CONNECT_HELP@, "-k, --key <PATH>"@, 142)) by {
        assert(CONNECT_HELP@.subrange(142, 158) =~= "-k, --key <PATH>"@);
    }
    assert(stands_at(CONNECT_HELP@, "--bind <ADDR>"@, 191)) by {
        assert(CONNECT_HELP@.subrange(191, 204) =~= "--bind <ADDR>"@);
    }
    assert(stands_at(CONNECT_HELP@, "--relay-url <URL>"@, 267)) by {
        assert(CONNECT_HELP@.subrange(267, 284) =~= "--relay-url <URL>"@);
    }
    assert(stands_at(CONNECT_HELP@, "--mdns"@, 342)) by {
        assert(CONNECT_HELP@.subrange(342, 348) =~= "--mdns"@);
    }
    assert(stands_at(CONNECT_HELP@, "-h, --help"@, 406)) by {
        assert(CONNECT_HELP@.subrange(406, 416) =~= "-h, --help"@);
    }
}

/// The help of a topic is its own, and tells how it is used: the general help names
/// the commands, and the help of a command every option that the command knows.
pub proof fn law_help_texts(topic: HelpTopic, text: &'static str)
    requires
        call_ensures(HelpTopic::text, (topic,), text),
    ensures
        mentions(text@, "-h, --help"@),
        topic == HelpTopic::General ==> {
            &&& mentions(text@, "p2pssh <COMMAND>"@)
            &&& mentions(text@, "    id  "@)
            &&& mentions(text@, "    serve  "@)
            &&& mentions(text@, "    connect  "@)
            &&& mentions(text@, "Run 'p2pssh <COMMAND> --help'"@)
        },
        topic == HelpTopic::Id ==> {
            &&& mentions(text@, "p2pssh id [OPTIONS]"@)
            &&& mentions(text@, "-k, --key <PATH>"@)
        },
        topic == HelpTopic::Serve ==> {
            &&& mentions(text@, "p2pssh serve [OPTIONS]"@)
            &&& mentions(text@, "--ssh-host <ADDR>"@)
            &&& mentions(text@, "-k, --key <PATH>"@)
            &&& mentions(text@, "--bind <ADDR>"@)
            &&& mentions(text@, "--relay-url <URL>"@)
            &&& mentions(text@, "--mdns"@)
            &&& mentions(text@, "--authorized-keys <PATH>"@)
            &&& mentions(text@, "--max-connections <N>"@)
        },
        topic == HelpTopic::Connect ==> {
            &&& mentions(text@, "p2pssh connect <PEER_ID> [OPTIONS]"@)
            &&& mentions(text@, "-k, --key <PATH>"@)
            &&& mentions(text@, "--bind <ADDR>"@)
            &&& mentions(text@, "--relay-url <URL>"@)
            &&& mentions(text@, "--mdns"@)
        },
{
    lemma_help_text();
    lemma_id_help_text();
    lemma_serve_help_text();
    lemma_connect_help_text();
}

} // verus!
