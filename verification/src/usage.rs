//! How the command line can be used: laws of [`crate::config::parse_args`].

use vstd::prelude::*;

use crate::config::{
    asks_help, assign, command_of, default_settings, invocation_of, is_relay_url, kind_of,
    left_within, meaning_of, parse_args, read_options, setting_of, takes, topic_of, ArgError,
    ArgFault, Command, CommandKind, CommandView, HelpTopic, Invocation, InvocationView, Meaning,
    Setting, SettingsView, DEFAULT_RELAY,
};
use crate::lexer::{
    is_cluster, is_long, lex_next, lex_start, lex_value, texts, Argument, LexFault, LexMode,
    LexState, Token,
};
use crate::text::number_of;

verus! {

/// The long name of the option for a setting.
pub open spec fn option_name(setting: Setting) -> Seq<char> {
    match setting {
        Setting::SshHost => "ssh-host"@,
        Setting::Key => "key"@,
        Setting::Bind => "bind"@,
        Setting::RelayUrl => "relay-url"@,
        Setting::Mdns => "mdns"@,
        Setting::AuthorizedKeys => "authorized-keys"@,
        Setting::MaxConnections => "max-connections"@,
    }
}

/// The option for a setting, as it is written.
pub open spec fn option_word(setting: Setting) -> Seq<char> {
    seq!['-', '-'] + option_name(setting)
}

/// The arguments that give a setting a value. `--mdns` takes none.
pub open spec fn option_args(setting: Setting, value: Seq<char>) -> Seq<Seq<char>> {
    if setting is Mdns {
        seq![option_word(setting)]
    } else {
        seq![option_word(setting), value]
    }
}

/// The arguments that give settings their values, one after the other.
pub open spec fn options_args(options: Seq<(Setting, Seq<char>)>) -> Seq<Seq<char>>
    decreases options.len(),
{
    if options.len() == 0 {
        Seq::empty()
    } else {
        option_args(options[0].0, options[0].1) + options_args(options.drop_first())
    }
}

/// The settings once values are given to them one after the other.
pub open spec fn assign_all(s: SettingsView, options: Seq<(Setting, Seq<char>)>) -> Result<
    SettingsView,
    ArgFault,
>
    decreases options.len(),
{
    if options.len() == 0 {
        Ok(s)
    } else {
        match assign(s, options[0].0, options[0].1) {
            Err(fault) => Err(fault),
            Ok(next) => assign_all(next, options.drop_first()),
        }
    }
}

/// An argument that is not taken for an option.
pub open spec fn is_plain(arg: Seq<char>) -> bool {
    arg != seq!['-', '-'] && !is_long(arg) && !is_cluster(arg)
}

proof fn lemma_option_word(setting: Setting)
    ensures
        is_long(option_word(setting)),
        option_word(setting) != seq!['-', '-'],
        option_word(setting).index_of_first('=') is None,
        option_word(setting).skip(2) == option_name(setting),
        setting_of(Token::Long(option_name(setting))) == Some(setting),
{
    reveal_strlit("ssh-host");
    reveal_strlit("key");
    reveal_strlit("bind");
    reveal_strlit("relay-url");
    reveal_strlit("mdns");
    reveal_strlit("authorized-keys");
    reveal_strlit("max-connections");
    let name = option_name(setting);
    let word = option_word(setting);
    assert(word.len() == name.len() + 2);
    assert(seq!['-', '-'].len() == 2);
    word.index_of_first_ensures('=');
    assert forall|i: int| 0 <= i < word.len() implies word[i] != '=' by {
        if i >= 2 {
            assert(word[i] == name[i - 2]);
        }
    }
    assert(word.skip(2) =~= name);
    assert("key"@.len() == 3);
    assert("bind"@.len() == 4);
    assert("mdns"@.len() == 4);
    assert("bind"@[0] == 'b');
    assert("mdns"@[0] == 'm');
    assert("ssh-host"@.len() == 8);
    assert("relay-url"@.len() == 9);
    assert("authorized-keys"@[0] == 'a');
    assert("max-connections"@[0] == 'm');
}

proof fn lemma_last_irrelevant(
    kind: CommandKind,
    rest: Seq<Seq<char>>,
    last: Option<Seq<char>>,
    s: SettingsView,
)
    ensures
        read_options(kind, LexState { rest, mode: LexMode::Idle, last }, s) == read_options(
            kind,
            lex_start(rest),
            s,
        ),
{
    let x = LexState { rest, mode: LexMode::Idle, last };
    let y = lex_start(rest);
    assert(lex_next(x).0 == lex_next(y).0);
    match lex_next(x).0 {
        Ok(Some(Token::Value(_))) => {},
        Ok(Some(_)) => {
            assert(lex_next(x).1 == lex_next(y).1);
        },
        _ => {},
    }
}

/// One option, and what follows it.
proof fn lemma_one_option(
    kind: CommandKind,
    setting: Setting,
    value: Seq<char>,
    tail: Seq<Seq<char>>,
    s: SettingsView,
)
    requires
        takes(kind, setting),
    ensures
        read_options(kind, lex_start(option_args(setting, value) + tail), s) == match assign(
            s,
            setting,
            value,
        ) {
            Err(fault) => Err(fault),
            Ok(next) => read_options(kind, lex_start(tail), next),
        },
{
    let args = option_args(setting, value) + tail;
    let word = option_word(setting);
    lemma_option_word(setting);
    assert(args[0] == word);
    let after = LexState { rest: args.drop_first(), mode: LexMode::Idle, last: Some(word) };
    assert(lex_next(lex_start(args)) == (
        Ok::<Option<Token>, LexFault>(Some(Token::Long(option_name(setting)))),
        after,
    ));
    assert(meaning_of(kind, Token::Long(option_name(setting))) == (Meaning::Sets { setting }));
    if setting is Mdns {
        assert(args.drop_first() =~= tail);
        lemma_last_irrelevant(kind, tail, Some(word), SettingsView { mdns: true, ..s });
    } else {
        assert(args.drop_first()[0] == value);
        assert(args.drop_first().drop_first() =~= tail);
        assert(lex_value(after) == (
            Ok::<Seq<char>, LexFault>(value),
            LexState { rest: tail, mode: LexMode::Idle, last: Some(word) },
        ));
        match assign(s, setting, value) {
            Ok(next) => {
                lemma_last_irrelevant(kind, tail, Some(word), next);
            },
            Err(_) => {},
        }
    }
}

/// Options take effect one after the other, whatever their values look like, and
/// whatever follows them is read on top of that.
pub proof fn law_options_in_turn(
    kind: CommandKind,
    options: Seq<(Setting, Seq<char>)>,
    tail: Seq<Seq<char>>,
    s: SettingsView,
)
    requires
        forall|i: int| 0 <= i < options.len() ==> takes(kind, (#[trigger] options[i]).0),
    ensures
        read_options(kind, lex_start(options_args(options) + tail), s) == match assign_all(
            s,
            options,
        ) {
            Err(fault) => Err(fault),
            Ok(next) => read_options(kind, lex_start(tail), next),
        },
    decreases options.len(),
{
    if options.len() == 0 {
        assert(options_args(options) + tail =~= tail);
    } else {
        let (setting, value) = options[0];
        let more = options.drop_first();
        assert(options_args(options) + tail =~= option_args(setting, value) + (options_args(more)
            + tail));
        lemma_one_option(kind, setting, value, options_args(more) + tail, s);
        match assign(s, setting, value) {
            Ok(next) => {
                assert forall|i: int| 0 <= i < more.len() implies takes(
                    kind,
                    (#[trigger] more[i]).0,
                ) by {
                    assert(more[i] == options[i + 1]);
                }
                law_options_in_turn(kind, more, tail, next);
            },
            Err(_) => {},
        }
    }
}

/// The name of a command.
pub open spec fn command_word(kind: CommandKind) -> Seq<char> {
    match kind {
        CommandKind::Id => "id"@,
        CommandKind::Serve => "serve"@,
        CommandKind::Connect => "connect"@,
    }
}

/// The arguments that name a command (and the peer that `connect` takes).
pub open spec fn command_args(kind: CommandKind, peer_id: Seq<char>) -> Seq<Seq<char>> {
    if kind is Connect {
        seq![command_word(kind), peer_id]
    } else {
        seq![command_word(kind)]
    }
}

/// Where a command's name leads.
proof fn lemma_command_word(kind: CommandKind, rest: Seq<Seq<char>>)
    ensures
        lex_next(lex_start(seq![command_word(kind)] + rest)) == (
            Ok::<Option<Token>, LexFault>(Some(Token::Value(command_word(kind)))),
            lex_start(rest),
        ),
        kind is Connect ==> command_word(kind) != "id"@ && command_word(kind) != "serve"@,
        kind is Serve ==> command_word(kind) != "id"@,
{
    reveal_strlit("id");
    reveal_strlit("serve");
    reveal_strlit("connect");
    assert("id"@.len() == 2 && "serve"@.len() == 5 && "connect"@.len() == 7);
    let all = seq![command_word(kind)] + rest;
    assert(all[0] == command_word(kind));
    assert(all.drop_first() =~= rest);
    assert(seq!['-', '-'][0] == '-');
    assert(all[0][0] != '-');
}

/// A command with options that it takes is run with the settings that they
/// leave behind, on top of the defaults; the first value that is not accepted
/// is the error.
pub proof fn law_command_with_options(
    kind: CommandKind,
    peer_id: Seq<char>,
    options: Seq<(Setting, Seq<char>)>,
)
    requires
        kind is Connect ==> is_plain(peer_id),
        forall|i: int| 0 <= i < options.len() ==> takes(kind, (#[trigger] options[i]).0),
    ensures
        invocation_of(command_args(kind, peer_id) + options_args(options)) == match assign_all(
            default_settings(),
            options,
        ) {
            Err(fault) => Err(fault),
            Ok(s) => Ok(InvocationView::Run { command: command_of(kind, peer_id, s) }),
        },
{
    let args = options_args(options);
    lemma_command(kind, peer_id, args);
    law_options_in_turn(kind, options, Seq::empty(), default_settings());
    assert(args + Seq::<Seq<char>>::empty() =~= args);
}

/// Where a command's name (and peer ID) leads.
proof fn lemma_command(kind: CommandKind, peer_id: Seq<char>, args: Seq<Seq<char>>)
    requires
        kind is Connect ==> is_plain(peer_id),
    ensures
        invocation_of(command_args(kind, peer_id) + args) == match read_options(
            kind,
            lex_start(args),
            default_settings(),
        ) {
            Err(fault) => Err(fault),
            Ok(None) => Ok(InvocationView::Help { topic: topic_of(kind) }),
            Ok(Some(s)) => Ok(InvocationView::Run { command: command_of(kind, peer_id, s) }),
        },
{
    let all = command_args(kind, peer_id) + args;
    let rest = all.drop_first();
    lemma_command_word(kind, rest);
    assert(all =~= seq![command_word(kind)] + rest);
    if kind is Connect {
        assert(rest[0] == peer_id);
        assert(rest.drop_first() =~= args);
        assert(lex_next(lex_start(rest)) == (
            Ok::<Option<Token>, LexFault>(Some(Token::Value(peer_id))),
            lex_start(args),
        ));
    } else {
        assert(rest =~= args);
    }
}

/// The first argument of a command line that asks for help.
proof fn lemma_help_word(help: Seq<char>, tail: Seq<Seq<char>>)
    requires
        help == "--help"@ || help == "-h"@,
    ensures
        lex_next(lex_start(seq![help] + tail)).0 matches Ok(Some(t)) && asks_help(t)
            && setting_of(t) is None,
{
    reveal_strlit("--help");
    reveal_strlit("-h");
    reveal_strlit("help");
    reveal_strlit("key");
    reveal_strlit("ssh-host");
    reveal_strlit("bind");
    reveal_strlit("relay-url");
    reveal_strlit("mdns");
    reveal_strlit("authorized-keys");
    reveal_strlit("max-connections");
    let lex = lex_start(seq![help] + tail);
    assert(lex.rest[0] == help);
    assert(seq!['-', '-'].len() == 2);
    help.index_of_first_ensures('=');
    if help == "--help"@ {
        assert(help.skip(2) =~= "help"@);
        assert("help"@.len() == 4 && "help"@[0] == 'h');
        assert("bind"@[0] == 'b' && "mdns"@[0] == 'm');
        assert("key"@.len() == 3 && "ssh-host"@.len() == 8 && "relay-url"@.len() == 9);
        assert("authorized-keys"@.len() == 15 && "max-connections"@.len() == 15);
        assert(lex_next(lex).0 == Ok::<Option<Token>, LexFault>(Some(Token::Long("help"@))));
    } else {
        assert(help[1] == 'h' && seq!['-', '-'][1] == '-');
        assert(lex_next(lex).0 == Ok::<Option<Token>, LexFault>(Some(Token::Short('h'))));
    }
}

/// Help can be asked for at once, whatever follows: `-h` or `--help` in the first
/// place shows the general help, and right after a command the help of that
/// command; `connect` needs no peer ID for it.
pub proof fn law_help_at_once(kind: CommandKind, help: Seq<char>, tail: Seq<Seq<char>>)
    requires
        help == "--help"@ || help == "-h"@,
    ensures
        invocation_of(seq![help] + tail) == Ok::<InvocationView, ArgFault>(
            InvocationView::Help { topic: HelpTopic::General },
        ),
        invocation_of(seq![command_word(kind), help] + tail) == Ok::<InvocationView, ArgFault>(
            InvocationView::Help { topic: topic_of(kind) },
        ),
{
    let rest = seq![help] + tail;
    lemma_help_word(help, tail);
    let all = seq![command_word(kind), help] + tail;
    lemma_command_word(kind, rest);
    assert(all =~= seq![command_word(kind)] + rest);
    if !(kind is Connect) {
        let t = lex_next(lex_start(rest)).0->Ok_0->0;
        assert(meaning_of(kind, t) == Meaning::Help);
        assert(read_options(kind, lex_start(rest), default_settings()) == Ok::<
            Option<SettingsView>,
            ArgFault,
        >(None));
    }
}

/// Where help is asked for, after any options that are in order, nothing is run,
/// whatever follows.
pub proof fn law_help(
    kind: CommandKind,
    peer_id: Seq<char>,
    options: Seq<(Setting, Seq<char>)>,
    help: Seq<char>,
    tail: Seq<Seq<char>>,
)
    requires
        kind is Connect ==> is_plain(peer_id),
        forall|i: int| 0 <= i < options.len() ==> takes(kind, (#[trigger] options[i]).0),
        assign_all(default_settings(), options) is Ok,
        help == "--help"@ || help == "-h"@,
    ensures
        invocation_of(
            command_args(kind, peer_id) + (options_args(options) + (seq![help] + tail)),
        ) == Ok::<InvocationView, ArgFault>(InvocationView::Help { topic: topic_of(kind) }),
{
    let rest = seq![help] + tail;
    lemma_command(kind, peer_id, options_args(options) + rest);
    law_options_in_turn(kind, options, rest, default_settings());
    let s = assign_all(default_settings(), options)->Ok_0;
    let lex = lex_start(rest);
    lemma_help_word(help, tail);
    assert(meaning_of(kind, lex_next(lex).0->Ok_0->0) == Meaning::Help);
    assert(read_options(kind, lex, s) == Ok::<Option<SettingsView>, ArgFault>(None));
}

/// After `--` there are no options, and no command takes more values: nothing
/// may follow.
pub proof fn law_nothing_after_dashes(kind: CommandKind, tail: Seq<Seq<char>>, s: SettingsView)
    ensures
        read_options(kind, lex_start(seq![seq!['-', '-']] + tail), s) == if tail.len() == 0 {
            Ok::<Option<SettingsView>, ArgFault>(Some(s))
        } else {
            Err(ArgFault::Unexpected { argument: Token::Value(tail[0]) })
        },
{
    let args = seq![seq!['-', '-']] + tail;
    assert(args[0] == seq!['-', '-']);
    assert(args.drop_first() =~= tail);
}

/// An option with its value joined to it.
proof fn lemma_joined_word(setting: Setting, value: Seq<char>, tail: Seq<Seq<char>>)
    ensures
        lex_next(lex_start(seq![option_word(setting) + seq!['='] + value] + tail)) == (
            Ok::<Option<Token>, LexFault>(Some(Token::Long(option_name(setting)))),
            LexState {
                rest: tail,
                mode: LexMode::Pending(value),
                last: Some(option_word(setting)),
            },
        ),
{
    let word = option_word(setting);
    let arg = word + seq!['='] + value;
    let args = seq![arg] + tail;
    lemma_option_word(setting);
    let n = word.len() as int;
    word.index_of_first_ensures('=');
    arg.index_of_first_ensures('=');
    assert(arg[n] == '=');
    assert(arg.contains('='));
    let i = arg.index_of_first('=')->0;
    if i < n {
        assert(word[i] == arg[i]);
        assert(word.contains('='));
    }
    assert(i == n);
    assert(args[0] == arg);
    assert(args.drop_first() =~= tail);
    assert(arg[0] == '-' && arg[1] == '-' && arg.len() > 2);
    assert(arg.subrange(2, n) =~= option_name(setting));
    assert(arg.skip(n + 1) =~= value);
    assert(arg.take(n) =~= word);
}

/// The value of an option may be joined to it: `--name=value` is the same as
/// `--name value`.
pub proof fn law_joined_value(
    kind: CommandKind,
    setting: Setting,
    value: Seq<char>,
    tail: Seq<Seq<char>>,
    s: SettingsView,
)
    requires
        takes(kind, setting),
        !(setting is Mdns),
    ensures
        read_options(kind, lex_start(seq![option_word(setting) + seq!['='] + value] + tail), s)
            == read_options(kind, lex_start(option_args(setting, value) + tail), s),
{
    let word = option_word(setting);
    lemma_option_word(setting);
    lemma_joined_word(setting, value, tail);
    lemma_one_option(kind, setting, value, tail, s);
    assert(meaning_of(kind, Token::Long(option_name(setting))) == (Meaning::Sets { setting }));
    match assign(s, setting, value) {
        Ok(next) => {
            lemma_last_irrelevant(kind, tail, Some(word), next);
        },
        Err(_) => {},
    }
}

/// `--mdns` takes no value: `--mdns=value` is an error.
pub proof fn law_switch_takes_no_value(
    kind: CommandKind,
    value: Seq<char>,
    tail: Seq<Seq<char>>,
    s: SettingsView,
)
    requires
        takes(kind, Setting::Mdns),
    ensures
        read_options(
            kind,
            lex_start(seq![option_word(Setting::Mdns) + seq!['='] + value] + tail),
            s,
        ) == Err::<Option<SettingsView>, ArgFault>(
            ArgFault::Shape {
                error: LexFault::UnexpectedValue {
                    option: option_word(Setting::Mdns),
                    value,
                },
            },
        ),
{
    let setting = Setting::Mdns;
    let word = option_word(setting);
    let args = seq![word + seq!['='] + value] + tail;
    let after = LexState { rest: tail, mode: LexMode::Pending(value), last: Some(word) };
    lemma_option_word(setting);
    lemma_joined_word(setting, value, tail);
    assert(meaning_of(kind, Token::Long(option_name(setting))) == (Meaning::Sets { setting }));
    let t = SettingsView { mdns: true, ..s };
    assert(read_options(kind, lex_start(args), s) == read_options(kind, after, t));
}

/// `-k` is short for `--key`: `-k value`, `-k=value` and `-kvalue` (where the
/// value is not empty and does not start with `=`) are the same as
/// `--key value`.
pub proof fn law_short_key(
    kind: CommandKind,
    value: Seq<char>,
    tail: Seq<Seq<char>>,
    s: SettingsView,
)
    ensures
        read_options(kind, lex_start(seq![seq!['-', 'k'], value] + tail), s) == read_options(
            kind,
            lex_start(option_args(Setting::Key, value) + tail),
            s,
        ),
        read_options(kind, lex_start(seq![seq!['-', 'k', '='] + value] + tail), s)
            == read_options(kind, lex_start(option_args(Setting::Key, value) + tail), s),
        value.len() > 0 && value[0] != '=' ==> read_options(
            kind,
            lex_start(seq![seq!['-', 'k'] + value] + tail),
            s,
        ) == read_options(kind, lex_start(option_args(Setting::Key, value) + tail), s),
{
    lemma_one_option(kind, Setting::Key, value, tail, s);
    let next = assign(s, Setting::Key, value)->Ok_0;
    let last = Some(seq!['-', 'k']);
    let done = LexState { rest: tail, mode: LexMode::Idle, last };
    lemma_last_irrelevant(kind, tail, last, next);
    assert(meaning_of(kind, Token::Short('k')) == (Meaning::Sets { setting: Setting::Key }));
    assert(seq!['-', '-'][1] == '-');

    let a = seq!['-', 'k'];
    let args = seq![a, value] + tail;
    let rest = seq![value] + tail;
    assert(args[0] == a);
    assert(args.drop_first() =~= rest);
    assert(a.skip(2) =~= Seq::<char>::empty());
    let after = LexState { rest, mode: LexMode::Cluster(Seq::empty()), last };
    assert(lex_next(lex_start(args)) == (
        Ok::<Option<Token>, LexFault>(Some(Token::Short('k'))),
        after,
    ));
    assert(rest[0] == value);
    assert(rest.drop_first() =~= tail);
    assert(lex_value(after) == (Ok::<Seq<char>, LexFault>(value), done));

    let b = seq!['-', 'k', '='] + value;
    let args = seq![b] + tail;
    assert(args[0] == b);
    assert(args.drop_first() =~= tail);
    assert(b.skip(2) =~= seq!['='] + value);
    assert(b.skip(2).skip(1) =~= value);
    assert(b[1] == 'k');
    let after = LexState { rest: tail, mode: LexMode::Cluster(b.skip(2)), last };
    assert(lex_next(lex_start(args)) == (
        Ok::<Option<Token>, LexFault>(Some(Token::Short('k'))),
        after,
    ));
    assert(lex_value(after) == (Ok::<Seq<char>, LexFault>(value), done));

    if value.len() > 0 && value[0] != '=' {
        let c = seq!['-', 'k'] + value;
        let args = seq![c] + tail;
        assert(args[0] == c);
        assert(args.drop_first() =~= tail);
        assert(c.skip(2) =~= value);
        assert(c[1] == 'k');
        let after = LexState { rest: tail, mode: LexMode::Cluster(value), last };
        assert(lex_next(lex_start(args)) == (
            Ok::<Option<Token>, LexFault>(Some(Token::Short('k'))),
            after,
        ));
        assert(lex_value(after) == (Ok::<Seq<char>, LexFault>(value), done));
    }
}

/// An argument that a command does not know is an error, whatever follows it.
pub proof fn law_unknown_argument(
    kind: CommandKind,
    peer_id: Seq<char>,
    options: Seq<(Setting, Seq<char>)>,
    arg: Seq<char>,
    tail: Seq<Seq<char>>,
    t: Token,
)
    requires
        kind is Connect ==> is_plain(peer_id),
        forall|i: int| 0 <= i < options.len() ==> takes(kind, (#[trigger] options[i]).0),
        assign_all(default_settings(), options) is Ok,
        lex_next(lex_start(seq![arg] + tail)).0 == Ok::<Option<Token>, LexFault>(Some(t)),
        meaning_of(kind, t) is Unknown,
    ensures
        invocation_of(
            command_args(kind, peer_id) + (options_args(options) + (seq![arg] + tail)),
        ) == Err::<InvocationView, ArgFault>(ArgFault::Unexpected { argument: t }),
{
    let rest = seq![arg] + tail;
    lemma_command(kind, peer_id, options_args(options) + rest);
    law_options_in_turn(kind, options, rest, default_settings());
}

/// An option that takes a value and comes last, without one, is an error.
pub proof fn law_missing_value(kind: CommandKind, setting: Setting, s: SettingsView)
    requires
        takes(kind, setting),
        !(setting is Mdns),
    ensures
        read_options(kind, lex_start(seq![option_word(setting)]), s) == Err::<
            Option<SettingsView>,
            ArgFault,
        >(
            ArgFault::Shape {
                error: LexFault::MissingValue { option: Some(option_word(setting)) },
            },
        ),
{
    let word = option_word(setting);
    let args = seq![word];
    lemma_option_word(setting);
    assert(args.drop_first() =~= Seq::<Seq<char>>::empty());
    assert(lex_next(lex_start(args)).0 == Ok::<Option<Token>, LexFault>(
        Some(Token::Long(option_name(setting))),
    ));
}

/// Of two values for one setting the last one counts.
pub proof fn law_last_value_counts(
    s: SettingsView,
    setting: Setting,
    first: Seq<char>,
    last: Seq<char>,
)
    requires
        assign(s, setting, first) is Ok,
    ensures
        assign_all(s, seq![(setting, first), (setting, last)]) == assign(s, setting, last),
{
    lemma_assign_two(s, (setting, first), (setting, last));
}

/// The order of options for different settings makes no difference, where their
/// values are accepted.
pub proof fn law_order_of_options(
    s: SettingsView,
    a: (Setting, Seq<char>),
    b: (Setting, Seq<char>),
)
    requires
        a.0 != b.0,
        assign(s, a.0, a.1) is Ok,
        assign(s, b.0, b.1) is Ok,
    ensures
        assign_all(s, seq![a, b]) == assign_all(s, seq![b, a]),
{
    lemma_assign_two(s, a, b);
    lemma_assign_two(s, b, a);
}

proof fn lemma_assign_two(s: SettingsView, a: (Setting, Seq<char>), b: (Setting, Seq<char>))
    ensures
        assign_all(s, seq![a, b]) == match assign(s, a.0, a.1) {
            Err(fault) => Err(fault),
            Ok(next) => assign(next, b.0, b.1),
        },
{
    assert(seq![a, b].drop_first() =~= seq![b]);
    assert(seq![b].drop_first() =~= Seq::<(Setting, Seq<char>)>::empty());
    match assign(s, a.0, a.1) {
        Ok(next) => {
            assert(assign_all(next, seq![b]) == match assign(next, b.0, b.1) {
                Err(fault) => Err(fault),
                Ok(then) => assign_all(then, seq![b].drop_first()),
            });
        },
        Err(_) => {},
    }
}

/// The relay of a command that was read from the command line.
pub open spec fn is_checked_relay(relay_url: Option<Seq<char>>) -> bool {
    relay_url matches Some(url) && (url == DEFAULT_RELAY@ || is_relay_url(url))
}

proof fn lemma_relay_checked(kind: CommandKind, lex: LexState, s: SettingsView)
    requires
        is_checked_relay(s.relay_url),
    ensures
        read_options(kind, lex, s) matches Ok(Some(t)) ==> is_checked_relay(t.relay_url),
    decreases lex.rest.len(), left_within(lex),
{
    match lex_next(lex) {
        (Ok(Some(t)), after) => match meaning_of(kind, t) {
            Meaning::Sets { setting: Setting::Mdns } => {
                lemma_relay_checked(kind, after, SettingsView { mdns: true, ..s });
            },
            Meaning::Sets { setting } => match lex_value(after) {
                (Ok(value), beyond) => match assign(s, setting, value) {
                    Ok(next) => {
                        lemma_relay_checked(kind, beyond, next);
                    },
                    Err(_) => {},
                },
                _ => {},
            },
            _ => {},
        },
        _ => {},
    }
}

/// A command that uses a relay is never without one: it is the default relay, or
/// one whose URL was accepted.
pub proof fn law_relay_is_checked(args: Seq<Seq<char>>)
    ensures
        invocation_of(args) matches Ok(InvocationView::Run { command }) ==> match command {
            CommandView::Id { .. } => true,
            CommandView::Serve { relay_url, .. } => is_checked_relay(relay_url),
            CommandView::Connect { relay_url, .. } => is_checked_relay(relay_url),
        },
{
    let after = lex_next(lex_start(args)).1;
    lemma_relay_checked(CommandKind::Serve, after, default_settings());
    lemma_relay_checked(CommandKind::Connect, lex_next(after).1, default_settings());
}

/// `--`, after which no options come.
pub open spec fn dashes() -> Seq<char> {
    seq!['-', '-']
}

/// Whether options may follow a command line that is in order: no `--` has ended
/// them, so that one may still come.
pub open spec fn is_open(args: Seq<Seq<char>>) -> bool {
    invocation_of(args.push(dashes())) is Ok
}

/// The state with further arguments at the end.
spec fn with_more(lex: LexState, more: Seq<Seq<char>>) -> LexState {
    LexState { rest: lex.rest + more, ..lex }
}

/// Further arguments do not change what comes before them.
proof fn lemma_next_with_more(lex: LexState, more: Seq<Seq<char>>)
    ensures
        lex_next(lex).0 matches Ok(Some(_)) ==> lex_next(with_more(lex, more)) == (
            lex_next(lex).0,
            with_more(lex_next(lex).1, more),
        ),
{
    let all = with_more(lex, more);
    if lex.rest.len() > 0 {
        assert(all.rest[0] == lex.rest[0]);
        assert(all.rest.drop_first() =~= lex.rest.drop_first() + more);
        if lex.rest.len() > 1 {
            assert(all.rest.drop_first()[0] == lex.rest.drop_first()[0]);
            assert(all.rest.drop_first().drop_first() =~= lex.rest.drop_first().drop_first()
                + more);
        }
    }
}

proof fn lemma_value_with_more(lex: LexState, more: Seq<Seq<char>>)
    ensures
        lex_value(lex).0 is Ok ==> lex_value(with_more(lex, more)) == (
            lex_value(lex).0,
            with_more(lex_value(lex).1, more),
        ),
{
    let all = with_more(lex, more);
    if lex.rest.len() > 0 {
        assert(all.rest[0] == lex.rest[0]);
        assert(all.rest.drop_first() =~= lex.rest.drop_first() + more);
    }
}

/// Options that are in order are read first, and what follows them after that.
proof fn lemma_read_with_more(
    kind: CommandKind,
    lex: LexState,
    s: SettingsView,
    more: Seq<Seq<char>>,
)
    requires
        read_options(kind, lex, s) matches Ok(Some(_)),
        read_options(kind, with_more(lex, seq![dashes()]), s) is Ok,
    ensures
        read_options(kind, with_more(lex, more), s) == read_options(
            kind,
            lex_start(more),
            read_options(kind, lex, s)->Ok_0->0,
        ),
    decreases lex.rest.len(), left_within(lex),
{
    let end = seq![dashes()];
    let closed = with_more(lex, end);
    lemma_next_with_more(lex, more);
    lemma_next_with_more(lex, end);
    match lex_next(lex) {
        (Ok(Some(t)), after) => match meaning_of(kind, t) {
            Meaning::Sets { setting: Setting::Mdns } => {
                lemma_read_with_more(kind, after, SettingsView { mdns: true, ..s }, more);
            },
            Meaning::Sets { setting } => {
                lemma_value_with_more(after, more);
                lemma_value_with_more(after, end);
                let next = assign(s, setting, lex_value(after).0->Ok_0)->Ok_0;
                lemma_read_with_more(kind, lex_value(after).1, next, more);
            },
            _ => {},
        },
        _ => {
            if lex.rest.len() > 0 {
                assert(lex.rest[0] == dashes());
                assert(closed.rest[0] == dashes());
                assert(closed.rest.drop_first()[0] == dashes());
                assert(lex_next(closed).0 == Ok::<Option<Token>, LexFault>(
                    Some(Token::Value(dashes())),
                ));
                assert(false);
            }
            assert(lex.rest + more =~= more);
            assert(closed.rest[0] == dashes());
            if lex.mode is Finished {
                assert(lex_next(closed).0 == Ok::<Option<Token>, LexFault>(
                    Some(Token::Value(dashes())),
                ));
                assert(false);
            }
            let idle = LexState { rest: more, mode: LexMode::Idle, last: lex.last };
            assert(lex_next(with_more(lex, more)) == lex_next(idle));
            assert(read_options(kind, with_more(lex, more), s) == read_options(kind, idle, s));
            lemma_last_irrelevant(kind, more, lex.last, s);
        },
    }
}

/// A command with one of its settings set to a value that is accepted.
pub open spec fn command_with(command: CommandView, setting: Setting, value: Seq<char>) -> CommandView {
    match command {
        CommandView::Id { key_path } => CommandView::Id {
            key_path: if setting is Key {
                Some(value)
            } else {
                key_path
            },
        },
        CommandView::Serve {
            ssh_host,
            key_path,
            bind,
            relay_url,
            mdns,
            authorized_keys,
            max_connections,
        } => CommandView::Serve {
            ssh_host: if setting is SshHost {
                value
            } else {
                ssh_host
            },
            key_path: if setting is Key {
                Some(value)
            } else {
                key_path
            },
            bind: if setting is Bind {
                value
            } else {
                bind
            },
            relay_url: if setting is RelayUrl {
                Some(value)
            } else {
                relay_url
            },
            mdns: mdns || setting is Mdns,
            authorized_keys: if setting is AuthorizedKeys {
                Some(value)
            } else {
                authorized_keys
            },
            max_connections: if setting is MaxConnections {
                number_of(value)->Ok_0
            } else {
                max_connections
            },
        },
        CommandView::Connect { peer_id, key_path, bind, relay_url, mdns } => CommandView::Connect {
            peer_id,
            key_path: if setting is Key {
                Some(value)
            } else {
                key_path
            },
            bind: if setting is Bind {
                value
            } else {
                bind
            },
            relay_url: if setting is RelayUrl {
                Some(value)
            } else {
                relay_url
            },
            mdns: mdns || setting is Mdns,
        },
    }
}

/// What the value of an option does to a command: it is set, or the error where
/// it is not accepted.
pub open spec fn command_after(command: CommandView, setting: Setting, value: Seq<char>) -> Result<
    InvocationView,
    ArgFault,
> {
    match assign(default_settings(), setting, value) {
        Err(fault) => Err(fault),
        Ok(_) => Ok(InvocationView::Run { command: command_with(command, setting, value) }),
    }
}

/// A command line that is in order, and further arguments.
proof fn lemma_line_with_more(
    args: Seq<Seq<char>>,
    more: Seq<Seq<char>>,
) -> (r: (Seq<char>, SettingsView))
    requires
        invocation_of(args) matches Ok(InvocationView::Run { .. }),
        is_open(args),
    ensures
        ({
            let command = invocation_of(args)->Ok_0->Run_command;
            let kind = kind_of(command);
            &&& command == command_of(kind, r.0, r.1)
            &&& invocation_of(args + more) == match read_options(kind, lex_start(more), r.1) {
                Err(fault) => Err(fault),
                Ok(None) => Ok(InvocationView::Help { topic: topic_of(kind) }),
                Ok(Some(s)) => Ok(InvocationView::Run { command: command_of(kind, r.0, s) }),
            }
        }),
{
    reveal_strlit("id");
    reveal_strlit("serve");
    reveal_strlit("connect");
    assert("id"@.len() == 2 && "serve"@.len() == 5 && "connect"@.len() == 7);
    let end = seq![dashes()];
    assert(args.push(dashes()) =~= args + end);
    let lex = lex_start(args);
    assert(lex_start(args + more) == with_more(lex, more));
    assert(lex_start(args + end) == with_more(lex, end));
    lemma_next_with_more(lex, more);
    lemma_next_with_more(lex, end);
    let after = lex_next(lex).1;
    let kind = kind_of(invocation_of(args)->Ok_0->Run_command);
    if kind is Connect {
        lemma_next_with_more(after, more);
        lemma_next_with_more(after, end);
        let beyond = lex_next(after).1;
        lemma_read_with_more(kind, beyond, default_settings(), more);
        let peer_id = match lex_next(after).0 {
            Ok(Some(Token::Value(peer_id))) => peer_id,
            _ => Seq::empty(),
        };
        (peer_id, read_options(kind, beyond, default_settings())->Ok_0->0)
    } else {
        lemma_read_with_more(kind, after, default_settings(), more);
        (Seq::empty(), read_options(kind, after, default_settings())->Ok_0->0)
    }
}

/// The last option counts: where a command line is in order, in whatever form its
/// options are written, and no `--` has ended them, an option at its end sets
/// that setting of the command, and no other; where its value is not accepted,
/// that is the error. The value may also be joined to the option.
pub proof fn law_last_option_counts(
    args: Seq<Seq<char>>,
    command: CommandView,
    setting: Setting,
    value: Seq<char>,
)
    requires
        invocation_of(args) == Ok::<InvocationView, ArgFault>(InvocationView::Run { command }),
        is_open(args),
        takes(kind_of(command), setting),
    ensures
        invocation_of(args + option_args(setting, value)) == command_after(command, setting, value),
        !(setting is Mdns) ==> invocation_of(
            args + seq![option_word(setting) + seq!['='] + value],
        ) == command_after(command, setting, value),
{
    let none = Seq::<Seq<char>>::empty();
    let kind = kind_of(command);
    let apart = option_args(setting, value);
    let (peer_id, s) = lemma_line_with_more(args, apart);
    lemma_one_option(kind, setting, value, none, s);
    assert(apart + none =~= apart);
    if !(setting is Mdns) {
        let joined = seq![option_word(setting) + seq!['='] + value];
        let (peer_id2, s2) = lemma_line_with_more(args, joined);
        law_joined_value(kind, setting, value, none, s2);
        lemma_one_option(kind, setting, value, none, s2);
        assert(joined + none =~= joined);
    }
}

/// A command line that is in order and holds no `--` is one that options may
/// follow; a `--` at its end makes no difference.
pub proof fn law_open_without_dashes(args: Seq<Seq<char>>)
    requires
        invocation_of(args) matches Ok(InvocationView::Run { .. }),
        !args.contains(dashes()),
    ensures
        is_open(args),
        invocation_of(args.push(dashes())) == invocation_of(args),
{
    let end = seq![dashes()];
    assert(args.push(dashes()) =~= args + end);
    let lex = lex_start(args);
    assert(lex_start(args + end) == with_more(lex, end));
    lemma_next_with_more(lex, end);
    lemma_stays_open(lex);
    let after = lex_next(lex).1;
    match lex_next(lex).0 {
        Ok(Some(Token::Value(name))) if name == "connect"@ && name != "id"@ && name != "serve"@ => {
            lemma_next_with_more(after, end);
            lemma_stays_open(after);
            lemma_dashes_at_end(CommandKind::Connect, lex_next(after).1, default_settings());
        },
        _ => {
            if invocation_of(args)->Ok_0->Run_command is Id {
                lemma_dashes_at_end(CommandKind::Id, after, default_settings());
            } else {
                lemma_dashes_at_end(CommandKind::Serve, after, default_settings());
            }
        },
    }
}

/// Whether no `--` has come or is left.
spec fn no_dashes(lex: LexState) -> bool {
    !(lex.mode is Finished) && !lex.rest.contains(dashes())
}

proof fn lemma_rest_without_dashes(rest: Seq<Seq<char>>)
    requires
        rest.len() > 0,
        !rest.contains(dashes()),
    ensures
        rest[0] != dashes(),
        !rest.drop_first().contains(dashes()),
{
    assert(rest.contains(rest[0]));
    if rest.drop_first().contains(dashes()) {
        let i = choose|i: int| 0 <= i < rest.drop_first().len() && rest.drop_first()[i] == dashes();
        assert(rest[i + 1] == dashes());
    }
}

proof fn lemma_stays_open(lex: LexState)
    requires
        no_dashes(lex),
    ensures
        no_dashes(lex_next(lex).1),
        no_dashes(lex_value(lex).1),
{
    if lex.rest.len() > 0 {
        lemma_rest_without_dashes(lex.rest);
    }
}

/// A `--` after options that are in order makes no difference.
proof fn lemma_dashes_at_end(kind: CommandKind, lex: LexState, s: SettingsView)
    requires
        no_dashes(lex),
        read_options(kind, lex, s) matches Ok(Some(_)),
    ensures
        read_options(kind, with_more(lex, seq![dashes()]), s) == read_options(kind, lex, s),
    decreases lex.rest.len(), left_within(lex),
{
    let end = seq![dashes()];
    let closed = with_more(lex, end);
    lemma_next_with_more(lex, end);
    lemma_stays_open(lex);
    match lex_next(lex) {
        (Ok(Some(t)), after) => match meaning_of(kind, t) {
            Meaning::Sets { setting: Setting::Mdns } => {
                lemma_dashes_at_end(kind, after, SettingsView { mdns: true, ..s });
            },
            Meaning::Sets { setting } => {
                lemma_value_with_more(after, end);
                lemma_stays_open(after);
                let next = assign(s, setting, lex_value(after).0->Ok_0)->Ok_0;
                lemma_dashes_at_end(kind, lex_value(after).1, next);
            },
            _ => {},
        },
        _ => {
            if lex.rest.len() > 0 {
                lemma_rest_without_dashes(lex.rest);
            }
            assert(closed.rest =~= end);
            assert(closed.rest[0] == dashes());
            assert(closed.rest.drop_first().len() == 0);
            assert(lex_next(closed).0 == Ok::<Option<Token>, LexFault>(None));
        },
    }
}

/// What an argument means to a command: every command knows `-k` and `--key`;
/// `serve` and `connect` know `--bind`, `--relay-url` and `--mdns`; `serve` alone
/// knows `--ssh-host`, `--authorized-keys` and `--max-connections`. `-h` and
/// `--help` ask for help, and nothing else is known, values least of all.
pub proof fn law_known_arguments(kind: CommandKind, argument: Argument, r: Meaning)
    requires
        call_ensures(CommandKind::meaning, (kind, &argument), r),
    ensures
        r == match argument {
            Argument::Value(_) => Meaning::Unknown,
            Argument::Short(c) => if c == 'k' {
                Meaning::Sets { setting: Setting::Key }
            } else if c == 'h' {
                Meaning::Help
            } else {
                Meaning::Unknown
            },
            Argument::Long(name) => if name@ == "key"@ {
                Meaning::Sets { setting: Setting::Key }
            } else if name@ == "help"@ {
                Meaning::Help
            } else if kind == CommandKind::Id {
                Meaning::Unknown
            } else if name@ == "bind"@ {
                Meaning::Sets { setting: Setting::Bind }
            } else if name@ == "relay-url"@ {
                Meaning::Sets { setting: Setting::RelayUrl }
            } else if name@ == "mdns"@ {
                Meaning::Sets { setting: Setting::Mdns }
            } else if kind == CommandKind::Connect {
                Meaning::Unknown
            } else if name@ == "ssh-host"@ {
                Meaning::Sets { setting: Setting::SshHost }
            } else if name@ == "authorized-keys"@ {
                Meaning::Sets { setting: Setting::AuthorizedKeys }
            } else if name@ == "max-connections"@ {
                Meaning::Sets { setting: Setting::MaxConnections }
            } else {
                Meaning::Unknown
            },
        },
{
    lemma_option_word(Setting::Key);
    lemma_option_word(Setting::Bind);
    lemma_option_word(Setting::RelayUrl);
    lemma_option_word(Setting::Mdns);
    lemma_option_word(Setting::SshHost);
    lemma_option_word(Setting::AuthorizedKeys);
    lemma_option_word(Setting::MaxConnections);
    lemma_help_name();
}

proof fn lemma_help_name()
    ensures
        setting_of(Token::Long("help"@)) is None,
{
    reveal_strlit("help");
    reveal_strlit("key");
    reveal_strlit("ssh-host");
    reveal_strlit("bind");
    reveal_strlit("relay-url");
    reveal_strlit("mdns");
    reveal_strlit("authorized-keys");
    reveal_strlit("max-connections");
    assert("help"@.len() == 4 && "help"@[0] == 'h');
    assert("bind"@[0] == 'b' && "mdns"@[0] == 'm');
    assert("key"@.len() == 3 && "ssh-host"@.len() == 8 && "relay-url"@.len() == 9);
    assert("authorized-keys"@.len() == 15 && "max-connections"@.len() == 15);
}

/// A command without options has the documented defaults: for `id` no key path; for
/// `serve` the SSH server 127.0.0.1:22, any address and port to bind to, the default
/// relay, no mDNS, no file of authorized keys named, and at most 100 connections;
/// for `connect` the peer ID that is given, and the same where it has them too.
pub proof fn law_command_alone(args: Vec<String>, r: Result<Invocation, ArgError>)
    requires
        call_ensures(parse_args, (args,), r),
    ensures
        args@.len() == 1 && args@[0]@ == "id"@ ==> (r matches Ok(
            Invocation::Run { command: Command::Id { key_path } },
        ) && key_path is None),
        args@.len() == 1 && args@[0]@ == "serve"@ ==> (r matches Ok(
            Invocation::Run {
                command: Command::Serve {
                    ssh_host,
                    key_path,
                    bind,
                    relay_url,
                    mdns,
                    authorized_keys,
                    max_connections,
                },
            },
        ) && ssh_host@ == "127.0.0.1:22"@ && key_path is None && bind@ == "0.0.0.0:0"@ && (
        relay_url matches Some(url) && url@ == "https://relay.punkeel.com"@) && !mdns
            && authorized_keys is None && max_connections == 100),
        args@.len() == 2 && args@[0]@ == "connect"@ && is_plain(args@[1]@) ==> (r matches Ok(
            Invocation::Run { command: Command::Connect { peer_id, key_path, bind, relay_url, mdns } },
        ) && peer_id@ == args@[1]@ && key_path is None && bind@ == "0.0.0.0:0"@ && (
        relay_url matches Some(url) && url@ == "https://relay.punkeel.com"@) && !mdns),
{
    let none = Seq::<Seq<char>>::empty();
    let words = texts(args@);
    assert(words.len() == args@.len());
    if args@.len() == 1 {
        assert(words[0] == args@[0]@);
        if words[0] == "id"@ {
            assert(words =~= command_args(CommandKind::Id, Seq::empty()) + none);
            lemma_command(CommandKind::Id, Seq::empty(), none);
        }
        if words[0] == "serve"@ {
            assert(words =~= command_args(CommandKind::Serve, Seq::empty()) + none);
            lemma_command(CommandKind::Serve, Seq::empty(), none);
        }
    }
    if args@.len() == 2 && args@[0]@ == "connect"@ && is_plain(args@[1]@) {
        assert(words[0] == args@[0]@ && words[1] == args@[1]@);
        assert(words =~= command_args(CommandKind::Connect, words[1]) + none);
        lemma_command(CommandKind::Connect, words[1], none);
    }
}

/// An argument that may set a setting: its option, with or without a value joined to
/// it; for the key also a short option.
pub open spec fn may_set(arg: Seq<char>, setting: Setting) -> bool {
    option_word(setting).is_prefix_of(arg) || (setting is Key && is_cluster(arg))
}

/// Whether nothing that is left may set a setting.
spec fn none_sets(lex: LexState, setting: Setting) -> bool {
    &&& forall|i: int| 0 <= i < lex.rest.len() ==> !may_set(#[trigger] lex.rest[i], setting)
    &&& setting is Key ==> !(lex.mode matches LexMode::Cluster(c) && c.len() > 0)
}

proof fn lemma_none_sets(lex: LexState, setting: Setting)
    requires
        none_sets(lex, setting),
    ensures
        none_sets(lex_next(lex).1, setting),
        none_sets(lex_value(lex).1, setting),
        lex_next(lex).0 matches Ok(Some(t)) ==> setting_of(t) != Some(setting),
{
    lemma_option_word(setting);
    if lex.rest.len() > 0 {
        let arg = lex.rest[0];
        assert(!may_set(arg, setting));
        assert(forall|i: int|
            0 <= i < lex.rest.drop_first().len() ==> #[trigger] lex.rest.drop_first()[i]
                == lex.rest[i + 1]);
        if is_long(arg) && arg != dashes() {
            arg.index_of_first_ensures('=');
            match arg.index_of_first('=') {
                Some(i) => {
                    assert(arg[0] != '=' && arg[1] != '=');
                    let name = arg.subrange(2, i);
                    if setting_of(Token::Long(name)) == Some(setting) {
                        lemma_setting_word(setting, name);
                        assert(option_word(setting) =~= arg.take(i));
                        assert(option_word(setting) =~= arg.subrange(
                            0,
                            option_word(setting).len() as int,
                        ));
                    }
                },
                None => {
                    let name = arg.skip(2);
                    if setting_of(Token::Long(name)) == Some(setting) {
                        lemma_setting_word(setting, name);
                        assert(option_word(setting) =~= arg);
                        assert(arg.subrange(0, arg.len() as int) =~= arg);
                    }
                },
            }
        }
        if lex.rest.len() > 1 {
            assert(forall|i: int|
                0 <= i < lex.rest.drop_first().drop_first().len()
                    ==> #[trigger] lex.rest.drop_first().drop_first()[i] == lex.rest[i + 2]);
        }
    }
}

proof fn lemma_setting_word(setting: Setting, name: Seq<char>)
    requires
        setting_of(Token::Long(name)) == Some(setting),
    ensures
        name == option_name(setting),
{
}

/// Whether two settings agree in what an option sets.
spec fn agree_on(s: SettingsView, t: SettingsView, setting: Setting) -> bool {
    match setting {
        Setting::SshHost => s.ssh_host == t.ssh_host,
        Setting::Key => s.key_path == t.key_path,
        Setting::Bind => s.bind == t.bind,
        Setting::RelayUrl => s.relay_url == t.relay_url,
        Setting::Mdns => s.mdns == t.mdns,
        Setting::AuthorizedKeys => s.authorized_keys == t.authorized_keys,
        Setting::MaxConnections => s.max_connections == t.max_connections,
    }
}

proof fn lemma_unnamed(kind: CommandKind, lex: LexState, s: SettingsView, setting: Setting)
    requires
        none_sets(lex, setting),
    ensures
        read_options(kind, lex, s) matches Ok(Some(t)) ==> agree_on(s, t, setting),
    decreases lex.rest.len(), left_within(lex),
{
    lemma_none_sets(lex, setting);
    match lex_next(lex) {
        (Ok(Some(t)), after) => match meaning_of(kind, t) {
            Meaning::Sets { setting: Setting::Mdns } => {
                lemma_unnamed(kind, after, SettingsView { mdns: true, ..s }, setting);
            },
            Meaning::Sets { setting: other } => {
                lemma_none_sets(after, setting);
                match lex_value(after) {
                    (Ok(value), beyond) => match assign(s, other, value) {
                        Ok(next) => {
                            lemma_unnamed(kind, beyond, next, setting);
                        },
                        Err(_) => {},
                    },
                    _ => {},
                }
            },
            _ => {},
        },
        _ => {},
    }
}

/// What no argument names is left at its default, whatever the arguments are: the
/// SSH server 127.0.0.1:22, no path of a key, the address 0.0.0.0:0, the default
/// relay, no mDNS, no path of authorized keys, and 100 connections. In particular
/// mDNS is off unless `--mdns` is given.
pub proof fn law_unnamed_is_default(args: Seq<Seq<char>>, setting: Setting)
    requires
        forall|i: int| 0 <= i < args.len() ==> !may_set(#[trigger] args[i], setting),
    ensures
        invocation_of(args) matches Ok(InvocationView::Run { command }) ==> match (
            command,
            setting,
        ) {
            (CommandView::Id { key_path }, Setting::Key) => key_path is None,
            (CommandView::Id { .. }, _) => true,
            (CommandView::Serve { ssh_host, .. }, Setting::SshHost) => ssh_host == "127.0.0.1:22"@,
            (CommandView::Serve { key_path, .. }, Setting::Key) => key_path is None,
            (CommandView::Serve { bind, .. }, Setting::Bind) => bind == "0.0.0.0:0"@,
            (CommandView::Serve { relay_url, .. }, Setting::RelayUrl) => relay_url == Some(
                "https://relay.punkeel.com"@,
            ),
            (CommandView::Serve { mdns, .. }, Setting::Mdns) => !mdns,
            (CommandView::Serve { authorized_keys, .. }, Setting::AuthorizedKeys) =>
                authorized_keys is None,
            (CommandView::Serve { max_connections, .. }, Setting::MaxConnections) =>
                max_connections == 100,
            (CommandView::Connect { key_path, .. }, Setting::Key) => key_path is None,
            (CommandView::Connect { bind, .. }, Setting::Bind) => bind == "0.0.0.0:0"@,
            (CommandView::Connect { relay_url, .. }, Setting::RelayUrl) => relay_url == Some(
                "https://relay.punkeel.com"@,
            ),
            (CommandView::Connect { mdns, .. }, Setting::Mdns) => !mdns,
            (CommandView::Connect { .. }, _) => true,
        },
{
    let lex = lex_start(args);
    let s = default_settings();
    lemma_none_sets(lex, setting);
    let after = lex_next(lex).1;
    lemma_none_sets(after, setting);
    lemma_unnamed(CommandKind::Id, after, s, setting);
    lemma_unnamed(CommandKind::Serve, after, s, setting);
    lemma_unnamed(CommandKind::Connect, lex_next(after).1, s, setting);
}

/// An option at the end of a command line that is in order (and that no `--` has
/// closed): where the command knows it and its value is accepted, that field of the
/// command gets the value and all others stay; a relay that is no URL and a limit
/// that is no number are refused; and an option of another command is unexpected.
pub proof fn law_option_at_end(
    args: Seq<Seq<char>>,
    command: CommandView,
    setting: Setting,
    value: Seq<char>,
)
    requires
        invocation_of(args) == Ok::<InvocationView, ArgFault>(InvocationView::Run { command }),
        is_open(args),
    ensures
        invocation_of(args + option_args(setting, value)) == (if !(command is Serve || setting
            == Setting::Key || (command is Connect && (setting == Setting::Bind || setting
            == Setting::RelayUrl || setting == Setting::Mdns))) {
            Err::<InvocationView, ArgFault>(
                ArgFault::Unexpected { argument: Token::Long(option_name(setting)) },
            )
        } else if setting == Setting::RelayUrl && !is_relay_url(value) {
            Err(ArgFault::RelayUrl { url: value, reason: "Failed to parse relay URL"@ })
        } else if setting == Setting::MaxConnections && number_of(value) is Err {
            Err(ArgFault::MaxConnections { error: number_of(value)->Err_0 })
        } else {
            Ok(InvocationView::Run { command: command_with(command, setting, value) })
        }),
{
    let kind = kind_of(command);
    if takes(kind, setting) {
        law_last_option_counts(args, command, setting, value);
    } else {
        let more = option_args(setting, value);
        let (peer_id, s) = lemma_line_with_more(args, more);
        lemma_option_word(setting);
        assert(more[0] == option_word(setting));
        assert(lex_next(lex_start(more)).0 == Ok::<Option<Token>, LexFault>(
            Some(Token::Long(option_name(setting))),
        ));
        lemma_help_name();
        assert(!asks_help(Token::Long(option_name(setting))));
    }
}

/// A value at the end of a command line that is in order is unexpected: no command
/// takes one (but for the peer ID of `connect`, which is part of the line).
pub proof fn law_stray_value(args: Seq<Seq<char>>, command: CommandView, value: Seq<char>)
    requires
        invocation_of(args) == Ok::<InvocationView, ArgFault>(InvocationView::Run { command }),
        is_open(args),
        is_plain(value),
    ensures
        invocation_of(args.push(value)) == Err::<InvocationView, ArgFault>(
            ArgFault::Unexpected { argument: Token::Value(value) },
        ),
{
    let more = seq![value];
    let (peer_id, s) = lemma_line_with_more(args, more);
    assert(args.push(value) =~= args + more);
    assert(more[0] == value);
    assert(lex_next(lex_start(more)).0 == Ok::<Option<Token>, LexFault>(
        Some(Token::Value(value)),
    ));
}

/// Behind `--` a peer ID may look like anything, an option included.
pub proof fn law_peer_id_after_dashes(peer: Seq<char>)
    ensures
        invocation_of(seq!["connect"@, dashes(), peer]) == Ok::<InvocationView, ArgFault>(
            InvocationView::Run {
                command: CommandView::Connect {
                    peer_id: peer,
                    key_path: None,
                    bind: "0.0.0.0:0"@,
                    relay_url: Some("https://relay.punkeel.com"@),
                    mdns: false,
                },
            },
        ),
{
    let all = seq!["connect"@, dashes(), peer];
    let rest = seq![dashes(), peer];
    lemma_command_word(CommandKind::Connect, rest);
    assert(all =~= seq!["connect"@] + rest);
    assert(rest[0] == dashes());
    assert(rest.drop_first() =~= seq![peer]);
    assert(seq![peer].drop_first() =~= Seq::<Seq<char>>::empty());
    let end = LexState { rest: Seq::empty(), mode: LexMode::Finished, last: None };
    assert(lex_next(lex_start(rest)) == (
        Ok::<Option<Token>, LexFault>(Some(Token::Value(peer))),
        end,
    ));
    assert(lex_next(end).0 == Ok::<Option<Token>, LexFault>(None));
    assert(read_options(CommandKind::Connect, end, default_settings()) == Ok::<
        Option<SettingsView>,
        ArgFault,
    >(Some(default_settings())));
}

/// The first word: `help` shows the general help, a word that is none of `id`,
/// `serve`, `connect` and `help` is an unknown command, whatever follows, and without
/// any word there is no command. `connect` alone lacks its peer ID, and so it does
/// where an option takes the place of the peer ID.
pub proof fn law_first_word(word: Seq<char>, tail: Seq<Seq<char>>, setting: Setting)
    requires
        is_plain(word),
    ensures
        word == "help"@ ==> invocation_of(seq![word] + tail) == Ok::<InvocationView, ArgFault>(
            InvocationView::Help { topic: HelpTopic::General },
        ),
        word != "help"@ && word != "id"@ && word != "serve"@ && word != "connect"@
            ==> invocation_of(seq![word] + tail) == Err::<InvocationView, ArgFault>(
            ArgFault::UnknownCommand { name: word },
        ),
        invocation_of(Seq::empty()) == Err::<InvocationView, ArgFault>(ArgFault::NoCommand),
        invocation_of(seq![option_word(setting)] + tail) == Err::<InvocationView, ArgFault>(
            ArgFault::NoCommand,
        ),
        invocation_of(seq!["connect"@]) == Err::<InvocationView, ArgFault>(
            ArgFault::MissingPeerId,
        ),
        invocation_of(seq!["connect"@, option_word(setting)] + tail) == Err::<
            InvocationView,
            ArgFault,
        >(ArgFault::MissingPeerId),
{
    reveal_strlit("help");
    reveal_strlit("--help");
    reveal_strlit("-h");
    reveal_strlit("id");
    reveal_strlit("serve");
    reveal_strlit("connect");
    assert("help"@.len() == 4 && "id"@.len() == 2 && "serve"@.len() == 5 && "connect"@.len() == 7);
    assert(is_long("--help"@));
    assert(is_cluster("-h"@));
    let none = Seq::<Seq<char>>::empty();
    let all = seq![word] + tail;
    assert(all[0] == word);
    assert(lex_next(lex_start(all)).0 == Ok::<Option<Token>, LexFault>(Some(Token::Value(word))));
    let option = seq![option_word(setting)] + tail;
    lemma_option_word(setting);
    assert(option[0] == option_word(setting));
    assert(lex_next(lex_start(option)).0 == Ok::<Option<Token>, LexFault>(
        Some(Token::Long(option_name(setting))),
    ));
    lemma_help_name();
    assert(!asks_help(Token::Long(option_name(setting))));
    lemma_command_word(CommandKind::Connect, none);
    assert(seq!["connect"@] + none =~= seq!["connect"@]);
    lemma_command_word(CommandKind::Connect, option);
    assert(seq!["connect"@] + option =~= seq!["connect"@, option_word(setting)] + tail);
}

} // verus!
