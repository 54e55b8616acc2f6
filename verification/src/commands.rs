//! Commands: those typed at the console, and those sent from afar.
use vstd::prelude::*;
use crate::text;

verus! {

// ---------------------------------------------------------------------
// The console
// ---------------------------------------------------------------------

/// A command typed at the console.
#[derive(Debug, Clone)]
pub enum ConsoleCommand {
    Restart,
    Stop,
    Status,
    Refresh,
    AtMode,
    Reload,
    Sessions,
    Send { to: String, text: String },
    /// A message without a receiver or without a text.
    SendUsage,
    Listen { who: String },
    /// A request to listen to nobody.
    ListenUsage,
    Unlisten { who: String },
    /// A request to stop listening to nobody.
    UnlistenUsage,
    Help,
    Unknown { cmd: String },
}

/// A command typed at the console, as a mathematical value.
pub enum ConsoleView {
    Restart,
    Stop,
    Status,
    Refresh,
    AtMode,
    Reload,
    Sessions,
    Send { to: Seq<char>, text: Seq<char> },
    SendUsage,
    Listen { who: Seq<char> },
    ListenUsage,
    Unlisten { who: Seq<char> },
    UnlistenUsage,
    Help,
    Unknown { cmd: Seq<char> },
}

impl View for ConsoleCommand {
    type V = ConsoleView;

    open spec fn view(&self) -> ConsoleView {
        match self {
            ConsoleCommand::Restart => ConsoleView::Restart,
            ConsoleCommand::Stop => ConsoleView::Stop,
            ConsoleCommand::Status => ConsoleView::Status,
            ConsoleCommand::Refresh => ConsoleView::Refresh,
            ConsoleCommand::AtMode => ConsoleView::AtMode,
            ConsoleCommand::Reload => ConsoleView::Reload,
            ConsoleCommand::Sessions => ConsoleView::Sessions,
            ConsoleCommand::Send { to, text } => ConsoleView::Send { to: to@, text: text@ },
            ConsoleCommand::SendUsage => ConsoleView::SendUsage,
            ConsoleCommand::Listen { who } => ConsoleView::Listen { who: who@ },
            ConsoleCommand::ListenUsage => ConsoleView::ListenUsage,
            ConsoleCommand::Unlisten { who } => ConsoleView::Unlisten { who: who@ },
            ConsoleCommand::UnlistenUsage => ConsoleView::UnlistenUsage,
            ConsoleCommand::Help => ConsoleView::Help,
            ConsoleCommand::Unknown { cmd } => ConsoleView::Unknown { cmd: cmd@ },
        }
    }
}

/// Receiver and text of a message, trimmed, where a blank parts them.
pub open spec fn receiver_and_text(rest: Seq<char>) -> Option<(Seq<char>, Seq<char>)> {
    match text::split_once(text::trim(rest), ' ') {
        Some(p) => Some((text::trim(p.0), text::trim(p.1))),
        None => None,
    }
}

/// The command that a line typed at the console stands for.
pub open spec fn console_command(cmd: Seq<char>) -> ConsoleView {
    if cmd == "/restart"@ {
        ConsoleView::Restart
    } else if cmd == "/stop"@ {
        ConsoleView::Stop
    } else if cmd == "/status"@ {
        ConsoleView::Status
    } else if cmd == "/refresh"@ {
        ConsoleView::Refresh
    } else if cmd == "/atmode"@ {
        ConsoleView::AtMode
    } else if cmd == "/reload"@ {
        ConsoleView::Reload
    } else if cmd == "/sessions"@ {
        ConsoleView::Sessions
    } else if cmd == "/help"@ {
        ConsoleView::Help
    } else if text::after_prefix(cmd, "/send "@) is Some {
        match receiver_and_text(text::after_prefix(cmd, "/send "@)->0) {
            Some((to, text)) => if to.len() == 0 || text.len() == 0 {
                ConsoleView::SendUsage
            } else {
                ConsoleView::Send { to, text }
            },
            None => ConsoleView::SendUsage,
        }
    } else if text::after_prefix(cmd, "/listen "@) is Some {
        let who = text::trim(text::after_prefix(cmd, "/listen "@)->0);
        if who.len() == 0 {
            ConsoleView::ListenUsage
        } else {
            ConsoleView::Listen { who }
        }
    } else if text::after_prefix(cmd, "/unlisten "@) is Some {
        let who = text::trim(text::after_prefix(cmd, "/unlisten "@)->0);
        if who.len() == 0 {
            ConsoleView::UnlistenUsage
        } else {
            ConsoleView::Unlisten { who }
        }
    } else {
        ConsoleView::Unknown { cmd }
    }
}

/// The code with which a command ends the program; none where it goes on.
pub open spec fn exit_code_of(cmd: ConsoleView) -> Option<i32> {
    match cmd {
        ConsoleView::Restart => Some(42i32),
        ConsoleView::Stop => Some(0i32),
        _ => None,
    }
}

/// Receiver and text of a message, trimmed, where a blank parts them.
fn split_message(rest: &str) -> (r: Option<(String, String)>)
    ensures
        match r {
            Some(p) => receiver_and_text(rest@) == Some((p.0@, p.1@)),
            None => receiver_and_text(rest@) is None,
        },
{
    let trimmed = text::trimmed(rest);
    match text::split_once_on(trimmed.as_str(), ' ') {
        Some(p) => Some((text::trimmed(p.0.as_str()), text::trimmed(p.1.as_str()))),
        None => None,
    }
}

/// The command that a line typed at the console stands for.
pub fn parse_console(cmd: &str) -> (r: ConsoleCommand)
    ensures
        r@ == console_command(cmd@),
{
    if text::same(cmd, "/restart") {
        ConsoleCommand::Restart
    } else if text::same(cmd, "/stop") {
        ConsoleCommand::Stop
    } else if text::same(cmd, "/status") {
        ConsoleCommand::Status
    } else if text::same(cmd, "/refresh") {
        ConsoleCommand::Refresh
    } else if text::same(cmd, "/atmode") {
        ConsoleCommand::AtMode
    } else if text::same(cmd, "/reload") {
        ConsoleCommand::Reload
    } else if text::same(cmd, "/sessions") {
        ConsoleCommand::Sessions
    } else if text::same(cmd, "/help") {
        ConsoleCommand::Help
    } else if let Some(rest) = text::strip_prefix(cmd, "/send ") {
        match split_message(rest.as_str()) {
            Some((to, text)) => if to.as_str().is_empty() || text.as_str().is_empty() {
                ConsoleCommand::SendUsage
            } else {
                ConsoleCommand::Send { to, text }
            },
            None => ConsoleCommand::SendUsage,
        }
    } else if let Some(rest) = text::strip_prefix(cmd, "/listen ") {
        let who = text::trimmed(rest.as_str());
        if who.as_str().is_empty() {
            ConsoleCommand::ListenUsage
        } else {
            ConsoleCommand::Listen { who }
        }
    } else if let Some(rest) = text::strip_prefix(cmd, "/unlisten ") {
        let who = text::trimmed(rest.as_str());
        if who.as_str().is_empty() {
            ConsoleCommand::UnlistenUsage
        } else {
            ConsoleCommand::Unlisten { who }
        }
    } else {
        ConsoleCommand::Unknown { cmd: cmd.to_owned() }
    }
}

impl ConsoleCommand {
    /// The code with which this command ends the program; none where it goes
    /// on.
    pub fn exit_code(&self) -> (r: Option<i32>)
        ensures
            r == exit_code_of(self@),
    {
        match self {
            ConsoleCommand::Restart => Some(42),
            ConsoleCommand::Stop => Some(0),
            _ => None,
        }
    }
}

/// What a command calls for, be it typed at the console or sent from afar.
#[derive(Debug, Clone)]
pub enum ConsoleAction {
    /// End the program with a code.
    Exit(i32),
    /// Report on the state.
    ShowStatus,
    /// Load the contacts anew.
    RefreshContacts,
    /// Tell all listeners to change the mode of mentions.
    PushAtMode,
    /// Load the configuration anew.
    Reload,
    /// List the sessions.
    ListSessions,
    /// Send a message; whether the window need not be asked if it arrived.
    Send { to: String, text: String, skip_verify: bool },
    /// Listen to a chat.
    AddListen { who: String },
    /// Stop listening to a chat.
    RemoveListen { who: String },
    Nothing,
}

/// What a command calls for, as a mathematical value.
pub enum ActionView {
    Exit(i32),
    ShowStatus,
    RefreshContacts,
    PushAtMode,
    Reload,
    ListSessions,
    Send { to: Seq<char>, text: Seq<char>, skip_verify: bool },
    AddListen { who: Seq<char> },
    RemoveListen { who: Seq<char> },
    Nothing,
}

impl View for ConsoleAction {
    type V = ActionView;

    open spec fn view(&self) -> ActionView {
        match self {
            ConsoleAction::Exit(code) => ActionView::Exit(*code),
            ConsoleAction::ShowStatus => ActionView::ShowStatus,
            ConsoleAction::RefreshContacts => ActionView::RefreshContacts,
            ConsoleAction::PushAtMode => ActionView::PushAtMode,
            ConsoleAction::Reload => ActionView::Reload,
            ConsoleAction::ListSessions => ActionView::ListSessions,
            ConsoleAction::Send { to, text, skip_verify } => ActionView::Send {
                to: to@,
                text: text@,
                skip_verify: *skip_verify,
            },
            ConsoleAction::AddListen { who } => ActionView::AddListen { who: who@ },
            ConsoleAction::RemoveListen { who } => ActionView::RemoveListen { who: who@ },
            ConsoleAction::Nothing => ActionView::Nothing,
        }
    }
}

/// Whether the window need not be asked if a message arrived: where there is a
/// database, that is asked.
pub fn skips_window(db: bool) -> (r: bool)
    ensures
        r == db,
{
    db
}

/// What a command calls for, by whether there is a database and a known
/// configuration. With a database the window need not be asked whether a
/// message arrived.
pub open spec fn action_of(cmd: ConsoleView, db: bool, config: bool) -> ActionView {
    match cmd {
        ConsoleView::Restart => ActionView::Exit(42),
        ConsoleView::Stop => ActionView::Exit(0),
        ConsoleView::Status => ActionView::ShowStatus,
        ConsoleView::Refresh => if db {
            ActionView::RefreshContacts
        } else {
            ActionView::Nothing
        },
        ConsoleView::AtMode => ActionView::PushAtMode,
        ConsoleView::Reload => if config {
            ActionView::Reload
        } else {
            ActionView::Nothing
        },
        ConsoleView::Sessions => if db {
            ActionView::ListSessions
        } else {
            ActionView::Nothing
        },
        ConsoleView::Send { to, text } => ActionView::Send { to, text, skip_verify: db },
        ConsoleView::Listen { who } => ActionView::AddListen { who },
        ConsoleView::Unlisten { who } => ActionView::RemoveListen { who },
        _ => ActionView::Nothing,
    }
}

/// What a command typed at the console calls for, by whether there is a
/// database and a known configuration.
pub fn console_action(cmd: &ConsoleCommand, db: bool, config: bool) -> (r: ConsoleAction)
    ensures
        r@ == action_of(cmd@, db, config),
{
    match cmd {
        ConsoleCommand::Restart => ConsoleAction::Exit(42),
        ConsoleCommand::Stop => ConsoleAction::Exit(0),
        ConsoleCommand::Status => ConsoleAction::ShowStatus,
        ConsoleCommand::Refresh => if db {
            ConsoleAction::RefreshContacts
        } else {
            ConsoleAction::Nothing
        },
        ConsoleCommand::AtMode => ConsoleAction::PushAtMode,
        ConsoleCommand::Reload => if config {
            ConsoleAction::Reload
        } else {
            ConsoleAction::Nothing
        },
        ConsoleCommand::Sessions => if db {
            ConsoleAction::ListSessions
        } else {
            ConsoleAction::Nothing
        },
        ConsoleCommand::Send { to, text } => ConsoleAction::Send {
            to: to.clone(),
            text: text.clone(),
            skip_verify: skips_window(db),
        },
        ConsoleCommand::Listen { who } => ConsoleAction::AddListen { who: who.clone() },
        ConsoleCommand::Unlisten { who } => ConsoleAction::RemoveListen { who: who.clone() },
        _ => ConsoleAction::Nothing,
    }
}

/// A command ends the program exactly where it has a code to end with.
pub proof fn law_only_two_commands_exit(cmd: ConsoleView, db: bool, config: bool)
    ensures
        match exit_code_of(cmd) {
            Some(code) => action_of(cmd, db, config) == ActionView::Exit(code),
            None => !(action_of(cmd, db, config) is Exit),
        },
{
}

// ---------------------------------------------------------------------
// From afar
// ---------------------------------------------------------------------

/// A command sent from afar.
#[derive(Debug, Clone)]
pub enum RemoteCommand {
    Status,
    AtMode,
    Reload,
    Listen { who: String },
    /// A request to listen to nobody.
    ListenUsage,
    Unlisten { who: String },
    /// A request to stop listening to nobody.
    UnlistenUsage,
    Send { to: String, text: String },
    /// A message without a text.
    SendUsage,
    Unknown { cmd: String },
}

/// A command sent from afar, as a mathematical value.
pub enum RemoteView {
    Status,
    AtMode,
    Reload,
    Listen { who: Seq<char> },
    ListenUsage,
    Unlisten { who: Seq<char> },
    UnlistenUsage,
    Send { to: Seq<char>, text: Seq<char> },
    SendUsage,
    Unknown { cmd: Seq<char> },
}

impl View for RemoteCommand {
    type V = RemoteView;

    open spec fn view(&self) -> RemoteView {
        match self {
            RemoteCommand::Status => RemoteView::Status,
            RemoteCommand::AtMode => RemoteView::AtMode,
            RemoteCommand::Reload => RemoteView::Reload,
            RemoteCommand::Listen { who } => RemoteView::Listen { who: who@ },
            RemoteCommand::ListenUsage => RemoteView::ListenUsage,
            RemoteCommand::Unlisten { who } => RemoteView::Unlisten { who: who@ },
            RemoteCommand::UnlistenUsage => RemoteView::UnlistenUsage,
            RemoteCommand::Send { to, text } => RemoteView::Send { to: to@, text: text@ },
            RemoteCommand::SendUsage => RemoteView::SendUsage,
            RemoteCommand::Unknown { cmd } => RemoteView::Unknown { cmd: cmd@ },
        }
    }
}

/// The command that a text sent from afar stands for.
pub open spec fn remote_command(s: Seq<char>) -> RemoteView {
    let cmd = text::trim(s);
    if cmd == "status"@ {
        RemoteView::Status
    } else if cmd == "atmode"@ {
        RemoteView::AtMode
    } else if cmd == "reload"@ {
        RemoteView::Reload
    } else if text::after_prefix(cmd, "listen "@) is Some {
        let who = text::trim(text::after_prefix(cmd, "listen "@)->0);
        if who.len() == 0 {
            RemoteView::ListenUsage
        } else {
            RemoteView::Listen { who }
        }
    } else if text::after_prefix(cmd, "unlisten "@) is Some {
        let who = text::trim(text::after_prefix(cmd, "unlisten "@)->0);
        if who.len() == 0 {
            RemoteView::UnlistenUsage
        } else {
            RemoteView::Unlisten { who }
        }
    } else if text::after_prefix(cmd, "send "@) is Some {
        match receiver_and_text(text::after_prefix(cmd, "send "@)->0) {
            Some((to, text)) => RemoteView::Send { to, text },
            None => RemoteView::SendUsage,
        }
    } else {
        RemoteView::Unknown { cmd }
    }
}

/// The command that a text sent from afar stands for.
pub fn parse_remote(s: &str) -> (r: RemoteCommand)
    ensures
        r@ == remote_command(s@),
{
    let trimmed = text::trimmed(s);
    let cmd = trimmed.as_str();
    if text::same(cmd, "status") {
        RemoteCommand::Status
    } else if text::same(cmd, "atmode") {
        RemoteCommand::AtMode
    } else if text::same(cmd, "reload") {
        RemoteCommand::Reload
    } else if let Some(rest) = text::strip_prefix(cmd, "listen ") {
        let who = text::trimmed(rest.as_str());
        if who.as_str().is_empty() {
            RemoteCommand::ListenUsage
        } else {
            RemoteCommand::Listen { who }
        }
    } else if let Some(rest) = text::strip_prefix(cmd, "unlisten ") {
        let who = text::trimmed(rest.as_str());
        if who.as_str().is_empty() {
            RemoteCommand::UnlistenUsage
        } else {
            RemoteCommand::Unlisten { who }
        }
    } else if let Some(rest) = text::strip_prefix(cmd, "send ") {
        match split_message(rest.as_str()) {
            Some((to, text)) => RemoteCommand::Send { to, text },
            None => RemoteCommand::SendUsage,
        }
    } else {
        RemoteCommand::Unknown { cmd: cmd.to_owned() }
    }
}

/// What a command sent from afar calls for, by whether there is a database: with
/// one the window need not be asked whether a message arrived.
pub open spec fn remote_action_of(cmd: RemoteView, db: bool) -> ActionView {
    match cmd {
        RemoteView::Status => ActionView::ShowStatus,
        RemoteView::AtMode => ActionView::PushAtMode,
        RemoteView::Reload => ActionView::Reload,
        RemoteView::Listen { who } => ActionView::AddListen { who },
        RemoteView::Unlisten { who } => ActionView::RemoveListen { who },
        RemoteView::Send { to, text } => ActionView::Send { to, text, skip_verify: db },
        _ => ActionView::Nothing,
    }
}

/// What a command sent from afar calls for, by whether there is a database.
pub fn remote_action(cmd: &RemoteCommand, db: bool) -> (r: ConsoleAction)
    ensures
        r@ == remote_action_of(cmd@, db),
{
    match cmd {
        RemoteCommand::Status => ConsoleAction::ShowStatus,
        RemoteCommand::AtMode => ConsoleAction::PushAtMode,
        RemoteCommand::Reload => ConsoleAction::Reload,
        RemoteCommand::Listen { who } => ConsoleAction::AddListen { who: who.clone() },
        RemoteCommand::Unlisten { who } => ConsoleAction::RemoveListen { who: who.clone() },
        RemoteCommand::Send { to, text } => ConsoleAction::Send {
            to: to.clone(),
            text: text.clone(),
            skip_verify: skips_window(db),
        },
        _ => ConsoleAction::Nothing,
    }
}

/// A text sent from afar makes a message go out exactly where it asks for that
/// and parts receiver and text by a blank; that message is then the one asked
/// for, and the window is left alone exactly where there is a database.
pub proof fn law_remote_message(s: Seq<char>, db: bool)
    ensures
        ({
            let asked = text::after_prefix(text::trim(s), "send "@);
            let action = remote_action_of(remote_command(s), db);
            match action {
                ActionView::Send { to, text, skip_verify } => {
                    &&& asked is Some
                    &&& receiver_and_text(asked->0) == Some((to, text))
                    &&& skip_verify == db
                },
                _ => asked is None || receiver_and_text(asked->0) is None,
            }
        }),
{
    let cmd = text::trim(s);
    reveal_strlit("send ");
    reveal_strlit("status");
    reveal_strlit("atmode");
    reveal_strlit("reload");
    reveal_strlit("listen ");
    reveal_strlit("unlisten ");
    if text::after_prefix(cmd, "send "@) is Some {
        assert(cmd.subrange(0, 5)[0] == 's');
        assert(cmd.subrange(0, 5)[1] == 'e');
    }
    if text::after_prefix(cmd, "listen "@) is Some {
        assert(cmd.subrange(0, 7)[0] == 'l');
    }
    if text::after_prefix(cmd, "unlisten "@) is Some {
        assert(cmd.subrange(0, 9)[0] == 'u');
    }
}

/// A message is sent in the same way from afar as from the console.
pub proof fn law_messages_go_alike(to: Seq<char>, text: Seq<char>, db: bool, config: bool)
    ensures
        remote_action_of(RemoteView::Send { to, text }, db) == action_of(
            ConsoleView::Send { to, text },
            db,
            config,
        ),
{
}

// ---------------------------------------------------------------------
// Laws on commands
// ---------------------------------------------------------------------

/// A message goes to the first word and holds the rest, whatever white space is
/// around the two.
pub proof fn law_first_word_is_the_receiver(
    a: Seq<char>,
    to: Seq<char>,
    b: Seq<char>,
    text: Seq<char>,
    c: Seq<char>,
)
    requires
        text::all_space(a),
        text::all_space(b),
        text::all_space(c),
        to.len() > 0,
        !to.contains(' '),
        !text::is_space(to[0]),
        !text::is_space(to.last()),
        text.len() > 0,
        !text::is_space(text[0]),
        !text::is_space(text.last()),
    ensures
        receiver_and_text(a + (to + seq![' '] + (b + text)) + c) == Some((to, text)),
{
    let core = to + seq![' '] + (b + text);
    assert(core[0] == to[0]);
    assert(core.last() == text.last());
    text::law_trimmed_between(a, core, c);
    text::law_split_once_at(to, b + text, ' ');
    text::law_trimmed_stays(to);
    text::law_trimmed_between(b, text, Seq::empty());
    assert(b + text + Seq::<char>::empty() =~= b + text);
}

/// A single word is no message.
pub proof fn law_one_word_is_no_message(a: Seq<char>, word: Seq<char>, c: Seq<char>)
    requires
        text::all_space(a),
        text::all_space(c),
        word.len() > 0,
        !word.contains(' '),
        !text::is_space(word[0]),
        !text::is_space(word.last()),
    ensures
        receiver_and_text(a + word + c) is None,
{
    text::law_trimmed_between(a, word, c);
    lemma_no_split(word);
}

proof fn lemma_no_split(word: Seq<char>)
    requires
        !word.contains(' '),
    ensures
        text::split_once(word, ' ') is None,
{
    text::law_split_once_parts(word, ' ');
    if let Some(p) = text::split_once(word, ' ') {
        assert(word[p.0.len() as int] == ' ');
    }
}

proof fn lemma_starts(p: Seq<char>, rest: Seq<char>, i: int)
    requires
        0 <= i < p.len(),
    ensures
        (p + rest)[i] == p[i],
        text::after_prefix(p + rest, p) == Some(rest),
{
    text::law_prefix_comes_off(p, rest);
}

proof fn lemma_not_begins(s: Seq<char>, p: Seq<char>, i: int)
    requires
        0 <= i < s.len(),
        i < p.len(),
        s[i] != p[i],
    ensures
        s != p,
        text::after_prefix(s, p) is None,
{
    if text::begins(s, p) {
        assert(s.subrange(0, p.len() as int)[i] == p[i]);
    }
}

/// Each command that stands for itself is told by its own word and by nothing
/// else.
pub proof fn law_console_words(cmd: Seq<char>)
    ensures
        console_command(cmd) is Restart <==> cmd == "/restart"@,
        console_command(cmd) is Stop <==> cmd == "/stop"@,
        console_command(cmd) is Status <==> cmd == "/status"@,
        console_command(cmd) is Refresh <==> cmd == "/refresh"@,
        console_command(cmd) is AtMode <==> cmd == "/atmode"@,
        console_command(cmd) is Reload <==> cmd == "/reload"@,
        console_command(cmd) is Sessions <==> cmd == "/sessions"@,
        console_command(cmd) is Help <==> cmd == "/help"@,
        console_command(cmd) matches ConsoleView::Unknown { cmd: c } ==> c == cmd,
        console_command(cmd) is Send || console_command(cmd) is SendUsage ==> text::begins(
            cmd,
            "/send "@,
        ),
        console_command(cmd) is Listen || console_command(cmd) is ListenUsage ==> text::begins(
            cmd,
            "/listen "@,
        ),
        console_command(cmd) is Unlisten || console_command(cmd) is UnlistenUsage ==> text::begins(
            cmd,
            "/unlisten "@,
        ),
        console_command(cmd) is Unknown ==> !text::begins(cmd, "/send "@) && !text::begins(
            cmd,
            "/listen "@,
        ) && !text::begins(cmd, "/unlisten "@),
{
    reveal_strlit("/restart");
    reveal_strlit("/stop");
    reveal_strlit("/status");
    reveal_strlit("/refresh");
    reveal_strlit("/atmode");
    reveal_strlit("/reload");
    reveal_strlit("/sessions");
    reveal_strlit("/help");
    let (a, b, c, d, e, f, g, h) = (
        "/restart"@,
        "/stop"@,
        "/status"@,
        "/refresh"@,
        "/atmode"@,
        "/reload"@,
        "/sessions"@,
        "/help"@,
    );
    assert(a.len() == 8 && a[3] == 's');
    assert(b.len() == 5 && b[1] == 's');
    assert(c.len() == 7 && c[1] == 's');
    assert(d.len() == 8 && d[3] == 'f');
    assert(e.len() == 7 && e[1] == 'a');
    assert(f.len() == 7 && f[1] == 'r');
    assert(g.len() == 9);
    assert(h.len() == 5 && h[1] == 'h');
}

/// A message to be sent is sent to the first word, and the rest of it is its
/// text; with one word, or none, the command is explained.
pub proof fn law_console_sends(
    a: Seq<char>,
    to: Seq<char>,
    b: Seq<char>,
    text: Seq<char>,
    c: Seq<char>,
)
    requires
        text::all_space(a),
        text::all_space(b),
        text::all_space(c),
        to.len() > 0,
        !to.contains(' '),
        !text::is_space(to[0]),
        !text::is_space(to.last()),
        text.len() > 0,
        !text::is_space(text[0]),
        !text::is_space(text.last()),
    ensures
        console_command("/send "@ + (a + (to + seq![' '] + (b + text)) + c)) == (ConsoleView::Send {
            to,
            text,
        }),
        console_command("/send "@ + (a + to + c)) == ConsoleView::SendUsage,
{
    law_first_word_is_the_receiver(a, to, b, text, c);
    law_one_word_is_no_message(a, to, c);
    lemma_console_send(a + (to + seq![' '] + (b + text)) + c);
    lemma_console_send(a + to + c);
}

proof fn lemma_console_send(rest: Seq<char>)
    ensures
        console_command("/send "@ + rest) == match receiver_and_text(rest) {
            Some((to, text)) => if to.len() == 0 || text.len() == 0 {
                ConsoleView::SendUsage
            } else {
                ConsoleView::Send { to, text }
            },
            None => ConsoleView::SendUsage,
        },
{
    reveal_strlit("/send ");
    reveal_strlit("/restart");
    reveal_strlit("/stop");
    reveal_strlit("/status");
    reveal_strlit("/refresh");
    reveal_strlit("/atmode");
    reveal_strlit("/reload");
    reveal_strlit("/sessions");
    reveal_strlit("/help");
    let cmd = "/send "@ + rest;
    lemma_starts("/send "@, rest, 1);
    lemma_starts("/send "@, rest, 2);
    lemma_starts("/send "@, rest, 3);
    lemma_not_begins(cmd, "/restart"@, 1);
    lemma_not_begins(cmd, "/stop"@, 2);
    lemma_not_begins(cmd, "/status"@, 2);
    lemma_not_begins(cmd, "/refresh"@, 1);
    lemma_not_begins(cmd, "/atmode"@, 1);
    lemma_not_begins(cmd, "/reload"@, 1);
    lemma_not_begins(cmd, "/sessions"@, 3);
    lemma_not_begins(cmd, "/help"@, 1);
}

/// Whom to listen to, and whom no more, is what is named, whatever white space
/// is around it; where nobody is named the command is explained.
pub proof fn law_console_listens(a: Seq<char>, who: Seq<char>, c: Seq<char>)
    requires
        text::all_space(a),
        text::all_space(c),
        who.len() > 0,
        !text::is_space(who[0]),
        !text::is_space(who.last()),
    ensures
        console_command("/listen "@ + (a + who + c)) == (ConsoleView::Listen { who }),
        console_command("/unlisten "@ + (a + who + c)) == (ConsoleView::Unlisten { who }),
        console_command("/listen "@ + a) == ConsoleView::ListenUsage,
        console_command("/unlisten "@ + a) == ConsoleView::UnlistenUsage,
{
    text::law_trimmed_between(a, who, c);
    let cut = text::law_trim_takes_white_space(a);
    lemma_console_listen(a + who + c);
    lemma_console_listen(a);
}

proof fn lemma_console_listen(rest: Seq<char>)
    ensures
        ({
            let who = text::trim(rest);
            &&& console_command("/listen "@ + rest) == if who.len() == 0 {
                ConsoleView::ListenUsage
            } else {
                ConsoleView::Listen { who }
            }
            &&& console_command("/unlisten "@ + rest) == if who.len() == 0 {
                ConsoleView::UnlistenUsage
            } else {
                ConsoleView::Unlisten { who }
            }
        }),
{
    reveal_strlit("/listen ");
    reveal_strlit("/unlisten ");
    reveal_strlit("/send ");
    reveal_strlit("/restart");
    reveal_strlit("/stop");
    reveal_strlit("/status");
    reveal_strlit("/refresh");
    reveal_strlit("/atmode");
    reveal_strlit("/reload");
    reveal_strlit("/sessions");
    reveal_strlit("/help");
    let on = "/listen "@ + rest;
    let off = "/unlisten "@ + rest;
    lemma_starts("/listen "@, rest, 1);
    lemma_starts("/unlisten "@, rest, 1);
    lemma_not_begins(on, "/restart"@, 1);
    lemma_not_begins(on, "/stop"@, 1);
    lemma_not_begins(on, "/status"@, 1);
    lemma_not_begins(on, "/refresh"@, 1);
    lemma_not_begins(on, "/atmode"@, 1);
    lemma_not_begins(on, "/reload"@, 1);
    lemma_not_begins(on, "/sessions"@, 1);
    lemma_not_begins(on, "/help"@, 1);
    lemma_not_begins(on, "/send "@, 1);
    lemma_not_begins(off, "/restart"@, 1);
    lemma_not_begins(off, "/stop"@, 1);
    lemma_not_begins(off, "/status"@, 1);
    lemma_not_begins(off, "/refresh"@, 1);
    lemma_not_begins(off, "/atmode"@, 1);
    lemma_not_begins(off, "/reload"@, 1);
    lemma_not_begins(off, "/sessions"@, 1);
    lemma_not_begins(off, "/help"@, 1);
    lemma_not_begins(off, "/send "@, 1);
    lemma_not_begins(off, "/listen "@, 1);
}

/// What a command calls for, and that nothing else does: contacts and sessions
/// need the databases, reading the settings anew needs their file, and a message
/// is looked for in the window exactly where there are no databases.
pub proof fn law_what_commands_call_for(cmd: ConsoleView, db: bool, config: bool)
    ensures
        action_of(cmd, db, config) == ActionView::Exit(42) <==> cmd is Restart,
        action_of(cmd, db, config) == ActionView::Exit(0) <==> cmd is Stop,
        action_of(cmd, db, config) is ShowStatus <==> cmd is Status,
        action_of(cmd, db, config) is RefreshContacts <==> cmd is Refresh && db,
        action_of(cmd, db, config) is PushAtMode <==> cmd is AtMode,
        action_of(cmd, db, config) is Reload <==> cmd is Reload && config,
        action_of(cmd, db, config) is ListSessions <==> cmd is Sessions && db,
        cmd matches ConsoleView::Send { to, text } ==> action_of(cmd, db, config) == (
        ActionView::Send { to, text, skip_verify: db }),
        cmd matches ConsoleView::Listen { who } ==> action_of(cmd, db, config) == (
        ActionView::AddListen { who }),
        cmd matches ConsoleView::Unlisten { who } ==> action_of(cmd, db, config) == (
        ActionView::RemoveListen { who }),
        action_of(cmd, db, config) is Send ==> cmd is Send,
        action_of(cmd, db, config) is AddListen ==> cmd is Listen,
        action_of(cmd, db, config) is RemoveListen ==> cmd is Unlisten,
{
}

/// From afar each command that stands for itself is told by its own word, with
/// white space around it or not, and by nothing else.
pub proof fn law_remote_words(s: Seq<char>)
    ensures
        remote_command(s) is Status <==> text::trim(s) == "status"@,
        remote_command(s) is AtMode <==> text::trim(s) == "atmode"@,
        remote_command(s) is Reload <==> text::trim(s) == "reload"@,
        remote_command(s) matches RemoteView::Unknown { cmd } ==> cmd == text::trim(s),
        remote_command(s) is Unknown ==> !text::begins(text::trim(s), "send "@) && !text::begins(
            text::trim(s),
            "listen "@,
        ) && !text::begins(text::trim(s), "unlisten "@),
{
    reveal_strlit("status");
    reveal_strlit("atmode");
    reveal_strlit("reload");
    assert("status"@[0] == 's' && "atmode"@[0] == 'a' && "reload"@[0] == 'r');
}

/// From afar a message goes to the first word and holds the rest, and whom to
/// listen to is what is named, whatever white space is around.
pub proof fn law_remote_sends_and_listens(
    a: Seq<char>,
    to: Seq<char>,
    b: Seq<char>,
    text: Seq<char>,
    c: Seq<char>,
)
    requires
        text::all_space(a),
        text::all_space(b),
        text::all_space(c),
        to.len() > 0,
        !to.contains(' '),
        !text::is_space(to[0]),
        !text::is_space(to.last()),
        text.len() > 0,
        !text::is_space(text[0]),
        !text::is_space(text.last()),
    ensures
        remote_command("send "@ + (b + (to + seq![' '] + (b + text)) + c)) == (RemoteView::Send {
            to,
            text,
        }),
        remote_command("send "@ + (b + to + c)) == RemoteView::SendUsage,
        remote_command("listen "@ + (b + text + c)) == (RemoteView::Listen { who: text }),
        remote_command("unlisten "@ + (b + text + c)) == (RemoteView::Unlisten { who: text }),
{
    let none = Seq::<char>::empty();
    let line = to + seq![' '] + (b + text);
    assert(line[0] == to[0]);
    assert(line.last() == text.last());
    lemma_remote(b, line, c);
    lemma_remote(b, to, c);
    lemma_remote(b, text, c);
    law_first_word_is_the_receiver(b, to, b, text, none);
    law_one_word_is_no_message(b, to, none);
    text::law_trimmed_between(b, text, none);
    assert(b + line + none =~= b + line);
    assert(b + to + none =~= b + to);
    assert(b + text + none =~= b + text);
}

proof fn lemma_remote(b: Seq<char>, core: Seq<char>, c: Seq<char>)
    requires
        text::all_space(b),
        text::all_space(c),
        core.len() > 0,
        !text::is_space(core[0]),
        !text::is_space(core.last()),
    ensures
        remote_command("send "@ + (b + core + c)) == match receiver_and_text(b + core) {
            Some((to, text)) => RemoteView::Send { to, text },
            None => RemoteView::SendUsage,
        },
        remote_command("listen "@ + (b + core + c)) == (RemoteView::Listen { who: core }),
        remote_command("unlisten "@ + (b + core + c)) == (RemoteView::Unlisten { who: core }),
{
    reveal_strlit("send ");
    reveal_strlit("listen ");
    reveal_strlit("unlisten ");
    reveal_strlit("status");
    reveal_strlit("atmode");
    reveal_strlit("reload");
    let none = Seq::<char>::empty();
    let rest = b + core;
    text::law_trimmed_between(b, core, none);
    assert(b + core + none =~= rest);
    lemma_word_trims("send "@, b, core, c);
    lemma_word_trims("listen "@, b, core, c);
    lemma_word_trims("unlisten "@, b, core, c);
    let x = "send "@ + rest;
    let y = "listen "@ + rest;
    let z = "unlisten "@ + rest;
    lemma_starts("send "@, rest, 0);
    lemma_starts("send "@, rest, 1);
    lemma_starts("listen "@, rest, 0);
    lemma_starts("unlisten "@, rest, 0);
    lemma_not_begins(x, "status"@, 1);
    lemma_not_begins(x, "atmode"@, 0);
    lemma_not_begins(x, "reload"@, 0);
    lemma_not_begins(x, "listen "@, 0);
    lemma_not_begins(x, "unlisten "@, 0);
    lemma_not_begins(y, "status"@, 0);
    lemma_not_begins(y, "atmode"@, 0);
    lemma_not_begins(y, "reload"@, 0);
    lemma_not_begins(z, "status"@, 0);
    lemma_not_begins(z, "atmode"@, 0);
    lemma_not_begins(z, "reload"@, 0);
    lemma_not_begins(z, "listen "@, 0);
}

proof fn lemma_word_trims(p: Seq<char>, b: Seq<char>, core: Seq<char>, c: Seq<char>)
    requires
        text::all_space(c),
        p.len() > 0,
        !text::is_space(p[0]),
        core.len() > 0,
        !text::is_space(core.last()),
    ensures
        text::trim(p + (b + core + c)) == p + (b + core),
{
    let s = p + (b + core);
    assert(s[0] == p[0]);
    assert(s.last() == core.last());
    text::law_trimmed_between(Seq::empty(), s, c);
    assert(Seq::<char>::empty() + s + c =~= p + (b + core + c));
}

/// From afar nothing ends the program, and every command does what it does on
/// the console where everything is there.
pub proof fn law_remote_calls(cmd: RemoteView, db: bool)
    ensures
        !(remote_action_of(cmd, db) is Exit),
        remote_action_of(cmd, db) is ShowStatus <==> cmd is Status,
        remote_action_of(cmd, db) is PushAtMode <==> cmd is AtMode,
        remote_action_of(cmd, db) is Reload <==> cmd is Reload,
        cmd matches RemoteView::Listen { who } ==> remote_action_of(cmd, db) == action_of(
            ConsoleView::Listen { who },
            db,
            true,
        ),
        cmd matches RemoteView::Unlisten { who } ==> remote_action_of(cmd, db) == action_of(
            ConsoleView::Unlisten { who },
            db,
            true,
        ),
        remote_action_of(cmd, db) is Nothing <==> cmd is Unknown || cmd is SendUsage
            || cmd is ListenUsage || cmd is UnlistenUsage,
{
}

} // verus!
