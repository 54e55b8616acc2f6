//! Starting up and staying up: waiting for the login and the key, choosing the
//! storage directory, and watching over the connections.
use vstd::prelude::*;
use crate::bytes;
use crate::chat::WeChatStatus;
use crate::text;

verus! {

// ---------------------------------------------------------------------
// Waiting for the login
// ---------------------------------------------------------------------

/// How often the chat program is waited for to start.
pub const START_TRIES: u32 = 30;

/// How far the wait for the login is.
#[derive(Debug, Clone, Copy, PartialEq, Eq, Structural)]
pub struct LoginWait {
    /// How often the chat program was found not running.
    pub attempts: u32,
    /// Whether the user was asked to log in.
    pub prompted: bool,
}

/// What is done while waiting for the login.
#[derive(Debug, Clone, Copy, PartialEq, Eq, Structural)]
pub enum LoginAction {
    /// Go on, logged in or not.
    Proceed,
    /// Wait for the chat program to start; whether to connect anew first.
    AwaitStart { reconnect: bool },
    /// Wait for the user to log in; whether to ask for it first.
    AwaitLogin { prompt: bool },
}

/// What is done for a status, and how far the wait is then. A program that
/// does not start is given up after some attempts, and every fifth attempt
/// connects anew.
pub open spec fn login_step(w: LoginWait, status: WeChatStatus) -> (LoginWait, LoginAction) {
    match status {
        WeChatStatus::LoggedIn => (w, LoginAction::Proceed),
        WeChatStatus::NotRunning => if w.attempts < START_TRIES {
            (
                LoginWait { attempts: (w.attempts + 1) as u32, ..w },
                LoginAction::AwaitStart { reconnect: w.attempts % 5 == 4 },
            )
        } else {
            (w, LoginAction::Proceed)
        },
        WeChatStatus::WaitingForLogin => (
            LoginWait { prompted: true, ..w },
            LoginAction::AwaitLogin { prompt: !w.prompted },
        ),
    }
}

impl LoginWait {
    /// The start of the wait.
    pub fn new() -> (r: LoginWait)
        ensures
            r == (LoginWait { attempts: 0, prompted: false }),
    {
        LoginWait { attempts: 0, prompted: false }
    }

    /// What is done for a status.
    pub fn step(&mut self, status: WeChatStatus) -> (r: LoginAction)
        ensures
            (*final(self), r) == login_step(*old(self), status),
    {
        match status {
            WeChatStatus::LoggedIn => LoginAction::Proceed,
            WeChatStatus::NotRunning => {
                if self.attempts < START_TRIES {
                    let reconnect = self.attempts % 5 == 4;
                    self.attempts = self.attempts + 1;
                    LoginAction::AwaitStart { reconnect }
                } else {
                    LoginAction::Proceed
                }
            },
            WeChatStatus::WaitingForLogin => {
                let prompt = !self.prompted;
                self.prompted = true;
                LoginAction::AwaitLogin { prompt }
            },
        }
    }
}

impl LoginAction {
    /// How long is waited then, in seconds.
    pub open spec fn pause(self) -> int {
        match self {
            LoginAction::Proceed => 0,
            LoginAction::AwaitStart { .. } => 2,
            LoginAction::AwaitLogin { .. } => 3,
        }
    }

    /// How long to wait then, in seconds.
    pub fn pause_secs(self) -> (r: u64)
        ensures
            r == self.pause(),
    {
        match self {
            LoginAction::Proceed => 0,
            LoginAction::AwaitStart { .. } => 2,
            LoginAction::AwaitLogin { .. } => 3,
        }
    }
}

/// The user is asked to log in at most once, and a program that is not running
/// is waited for at most so often as the limit says.
pub proof fn law_login_wait_is_bounded(w: LoginWait, status: WeChatStatus)
    requires
        w.attempts <= START_TRIES,
    ensures
        login_step(w, status).0.attempts <= START_TRIES,
        w.prompted ==> login_step(w, status).0.prompted,
        login_step(w, status).1 == (LoginAction::AwaitLogin { prompt: true }) ==> !w.prompted,
        login_step(w, status).1 is AwaitStart ==> login_step(w, status).0.attempts == w.attempts
            + 1,
{
}

// ---------------------------------------------------------------------
// The key
// ---------------------------------------------------------------------

/// How often the key is waited for.
pub const KEY_TRIES: u32 = 10;

/// What the file with the key holds.
#[derive(Debug, Clone)]
pub enum KeyFile {
    /// A key.
    Key(String),
    /// Something of another length, in bytes.
    BadLength(usize),
    /// There is no such file.
    Missing,
}

/// Whether the key is waited for once more.
pub open spec fn key_awaited(tries: int, exists: bool) -> bool {
    !exists && tries < KEY_TRIES
}

/// Whether to wait for the key once more.
pub fn await_key(tries: u32, exists: bool) -> (r: bool)
    ensures
        r == key_awaited(tries as int, exists),
{
    !exists && tries < KEY_TRIES
}

/// The key in a text, if it holds one: a key has sixty-four bytes, white space
/// around it aside.
pub open spec fn key_in(content: Seq<char>) -> Option<Seq<char>> {
    let key = text::trim(content);
    if bytes::byte_len(key) == 64 {
        Some(key)
    } else {
        None
    }
}

/// What the file with the key holds.
pub fn read_key(content: &Option<String>) -> (r: KeyFile)
    ensures
        match content {
            None => r is Missing,
            Some(c) => match key_in(c@) {
                Some(key) => r matches KeyFile::Key(k) && k@ == key,
                None => r matches KeyFile::BadLength(n) && n == bytes::byte_len(text::trim(c@)),
            },
        },
{
    match content {
        None => KeyFile::Missing,
        Some(c) => {
            let key = text::trimmed(c.as_str());
            let n: usize = bytes::len_bytes(key.as_str());
            if n == 64 {
                KeyFile::Key(key)
            } else {
                KeyFile::BadLength(n)
            }
        },
    }
}

// ---------------------------------------------------------------------
// The storage directory
// ---------------------------------------------------------------------

/// Which storage directory is used.
#[derive(Debug, Clone, Copy, PartialEq, Eq, Structural)]
pub enum DirChoice {
    /// The account directory of this number.
    Account(usize),
    /// The place that older versions use.
    Old,
    Nowhere,
}

/// Whether the account directory of a number is the one to use: the one
/// changed last, the first of several changed at the same time.
pub open spec fn is_newest(times: Seq<i128>, i: int) -> bool {
    &&& 0 <= i < times.len()
    &&& forall|j: int| 0 <= j < i ==> #[trigger] times[j] < times[i]
    &&& forall|j: int| i <= j < times.len() ==> #[trigger] times[j] <= times[i]
}

/// The number of the account directory changed last.
pub fn newest(times: &Vec<i128>) -> (r: Option<usize>)
    ensures
        match r {
            Some(i) => is_newest(times@, i as int),
            None => times@.len() == 0,
        },
{
    if times.len() == 0 {
        return None;
    }
    let mut best: usize = 0;
    let mut i: usize = 1;
    while i < times.len()
        invariant
            1 <= i <= times@.len(),
            best < i,
            is_newest(times@.take(i as int), best as int),
        decreases times@.len() - i,
    {
        let ghost seen = times@.take(i as int);
        let ghost next = times@.take(i + 1);
        assert forall|j: int| 0 <= j < i implies #[trigger] next[j] == seen[j] by {}
        if times[i] > times[best] {
            assert(forall|j: int| 0 <= j < i ==> #[trigger] seen[j] <= seen[best as int]);
            best = i;
        }
        assert(is_newest(next, best as int));
        i += 1;
    }
    assert(times@.take(times@.len() as int) =~= times@);
    Some(best)
}

/// Which storage directory is used, by when each account directory was changed
/// and whether the place of older versions is there.
pub fn choose_db_dir(times: &Vec<i128>, old_exists: bool) -> (r: DirChoice)
    ensures
        match r {
            DirChoice::Account(i) => is_newest(times@, i as int),
            DirChoice::Old => times@.len() == 0 && old_exists,
            DirChoice::Nowhere => times@.len() == 0 && !old_exists,
        },
{
    match newest(times) {
        Some(i) => DirChoice::Account(i),
        None => if old_exists {
            DirChoice::Old
        } else {
            DirChoice::Nowhere
        },
    }
}

/// There is at most one account directory to use.
pub proof fn law_newest_is_unique(times: Seq<i128>, i: int, j: int)
    requires
        is_newest(times, i),
        is_newest(times, j),
    ensures
        i == j,
{
    if i < j {
        assert(times[i] < times[j]);
        assert(times[j] <= times[i]);
    } else if j < i {
        assert(times[j] < times[i]);
        assert(times[i] <= times[j]);
    }
}

/// A path below a directory.
pub open spec fn below(dir: Seq<char>, rest: Seq<char>) -> Seq<char> {
    if dir.len() > 0 && dir.last() == '/' {
        dir + rest
    } else {
        dir + "/"@ + rest
    }
}

/// Where account directories are looked for: in the usual place, in the own
/// home directory and in those of all users, in this order and each once.
pub open spec fn account_places(home: Seq<char>, users: Seq<Seq<char>>) -> Seq<Seq<char>>
    decreases users.len(),
{
    if users.len() == 0 {
        let first = "/home/wechat/Documents/xwechat_files"@;
        let own = below(home, "Documents/xwechat_files"@);
        if own == first {
            seq![first]
        } else {
            seq![first, own]
        }
    } else {
        let before = account_places(home, users.drop_last());
        let place = below(users.last(), "Documents/xwechat_files"@);
        if before.contains(place) {
            before
        } else {
            before.push(place)
        }
    }
}

/// A path below a directory.
fn path_below(dir: &str, rest: &str) -> (r: String)
    ensures
        r@ == below(dir@, rest@),
{
    let v = text::to_chars(dir);
    let mut s = dir.to_owned();
    if !(v.len() > 0 && v[v.len() - 1] == '/') {
        s.append("/");
    }
    s.append(rest);
    s
}

/// Where account directories are looked for.
pub fn search_dirs(home: &str, users: &Vec<String>) -> (r: Vec<String>)
    ensures
        text::views(r@) == account_places(home@, text::views(users@)),
{
    let mut r: Vec<String> = Vec::new();
    let first = "/home/wechat/Documents/xwechat_files".to_owned();
    let own = path_below(home, "Documents/xwechat_files");
    let same = text::same(own.as_str(), first.as_str());
    let ghost (f, o) = (first@, own@);
    r.push(first);
    if !same {
        r.push(own);
        assert(text::views(r@) =~= seq![f, o]);
    } else {
        assert(text::views(r@) =~= seq![f]);
    }
    let ghost all = text::views(users@);
    let mut i: usize = 0;
    assert(all.take(0).len() == 0);
    while i < users.len()
        invariant
            0 <= i <= users@.len(),
            all == text::views(users@),
            text::views(r@) == account_places(home@, all.take(i as int)),
        decreases users@.len() - i,
    {
        assert(all.take(i + 1).drop_last() =~= all.take(i as int));
        let place = path_below(users[i].as_str(), "Documents/xwechat_files");
        let ghost before = r@;
        if !text::in_list(&r, place.as_str()) {
            r.push(place);
            assert(text::views(r@) =~= text::views(before).push(place@));
        }
        i += 1;
    }
    assert(all.take(all.len() as int) =~= all);
    r
}

/// The own home directory, where it is told or not.
pub open spec fn home_of(home: Option<Seq<char>>) -> Seq<char> {
    match home {
        Some(h) => h,
        None => "/root"@,
    }
}

/// The own home directory.
pub fn dirs_or_home(home: &Option<String>) -> (r: String)
    ensures
        r@ == home_of(match home {
            Some(h) => Some(h@),
            None => None,
        }),
{
    match home {
        Some(h) => h.clone(),
        None => "/root".to_owned(),
    }
}

// ---------------------------------------------------------------------
// Watching over the connections
// ---------------------------------------------------------------------

/// How often in a row the list of programs may be empty before it is connected
/// to anew.
pub const HEART_LIMIT: u32 = 3;

/// What a look at the list of programs calls for.
#[derive(Debug, Clone, Copy, PartialEq, Eq, Structural)]
pub enum HeartAction {
    /// Nothing; whether it is well again after a failure.
    Fine { recovered: bool },
    /// Nothing yet.
    Failing,
    /// Connect anew.
    Reconnect,
}

/// How often in a row the list of programs was empty.
#[derive(Debug, Clone, Copy, PartialEq, Eq, Structural)]
pub struct Heartbeat {
    pub fails: u32,
}

/// What a look at the list of programs calls for, after so many failures in a
/// row, and how many there are then.
pub open spec fn heart_step(fails: int, count: i32) -> (int, HeartAction) {
    if count > 0 {
        (0, HeartAction::Fine { recovered: fails > 0 })
    } else if fails + 1 >= HEART_LIMIT {
        (fails + 1, HeartAction::Reconnect)
    } else {
        (fails + 1, HeartAction::Failing)
    }
}

/// How many failures in a row there are after connecting anew, by whether it
/// worked.
pub open spec fn fails_after_reconnect(fails: int, ok: bool) -> int {
    if ok {
        0
    } else {
        fails
    }
}

/// Three looks in a row at an empty list, however many failures there were
/// before, call for connecting anew.
pub proof fn law_third_failure_reconnects(fails: int, first: i32, second: i32, third: i32)
    requires
        fails >= 0,
        first <= 0,
        second <= 0,
        third <= 0,
    ensures
        heart_step(heart_step(heart_step(fails, first).0, second).0, third).1
            == HeartAction::Reconnect,
{
}

/// A list that is not empty ends every row of failures.
pub proof fn law_program_ends_failures(fails: int, count: i32)
    requires
        count > 0,
    ensures
        heart_step(fails, count).0 == 0,
        heart_step(fails, count).1 is Fine,
{
}

impl Heartbeat {
    /// No failure so far.
    pub fn new() -> (r: Heartbeat)
        ensures
            r.fails == 0,
    {
        Heartbeat { fails: 0 }
    }

    /// Takes how many programs are listed.
    pub fn beat(&mut self, count: i32) -> (r: HeartAction)
        requires
            old(self).fails < u32::MAX,
        ensures
            (final(self).fails as int, r) == heart_step(old(self).fails as int, count),
    {
        if count > 0 {
            let recovered = self.fails > 0;
            self.fails = 0;
            HeartAction::Fine { recovered }
        } else {
            self.fails = self.fails + 1;
            if self.fails >= HEART_LIMIT {
                HeartAction::Reconnect
            } else {
                HeartAction::Failing
            }
        }
    }

    /// Takes whether connecting anew worked.
    pub fn reconnected(&mut self, ok: bool)
        ensures
            final(self).fails == fails_after_reconnect(old(self).fails as int, ok),
    {
        if ok {
            self.fails = 0;
        }
    }
}

/// What wakes the task that fetches messages.
#[derive(Debug, Clone, Copy, PartialEq, Eq, Structural)]
pub enum WalSignal {
    /// The databases changed.
    Changed,
    /// They changed more often than was told.
    Lagged,
    /// Nothing was told for a while.
    Timeout,
    /// Nothing more will be told.
    Closed,
}

/// How long a change of the databases is waited for, in seconds.
pub const WAL_WAIT_SECS: u64 = 30;

/// Whether messages are fetched for a signal.
pub open spec fn is_fetched_for(signal: WalSignal) -> bool {
    signal != WalSignal::Closed
}

/// Whether messages are fetched for a signal, or else the task ends.
pub fn fetches(signal: WalSignal) -> (r: bool)
    ensures
        r == is_fetched_for(signal),
{
    match signal {
        WalSignal::Closed => false,
        _ => true,
    }
}

// ---------------------------------------------------------------------
// Laws on starting up and staying up
// ---------------------------------------------------------------------

/// How far the wait for the login is after so many looks at a program that is
/// not running.
pub open spec fn not_running(w: LoginWait, looks: nat) -> LoginWait
    decreases looks,
{
    if looks == 0 {
        w
    } else {
        login_step(not_running(w, (looks - 1) as nat), WeChatStatus::NotRunning).0
    }
}

/// A program that never runs is waited for thirty times, and then waited for no
/// more; before every fifth of these waits it is connected to anew.
pub proof fn law_start_is_given_up(w: LoginWait, looks: nat)
    requires
        w.attempts == 0,
    ensures
        login_step(not_running(w, looks), WeChatStatus::NotRunning).1 is AwaitStart <==> looks < 30,
        login_step(not_running(w, looks), WeChatStatus::NotRunning).1 == LoginAction::Proceed
            <==> looks >= 30,
        login_step(not_running(w, looks), WeChatStatus::NotRunning).1 == (LoginAction::AwaitStart {
            reconnect: true,
        }) <==> looks < 30 && (looks + 1) % 5 == 0,
        not_running(w, looks).prompted == w.prompted,
{
    lemma_not_running(w, looks);
}

proof fn lemma_not_running(w: LoginWait, looks: nat)
    requires
        w.attempts == 0,
    ensures
        not_running(w, looks).attempts == if looks < 30 {
            looks as int
        } else {
            30
        },
        not_running(w, looks).prompted == w.prompted,
    decreases looks,
{
    if looks > 0 {
        lemma_not_running(w, (looks - 1) as nat);
    }
}

/// A login ends the wait at once, and a login screen is always waited at: the
/// user is asked to log in the first time and never again.
pub proof fn law_login_ends_the_wait(w: LoginWait)
    ensures
        login_step(w, WeChatStatus::LoggedIn).1 == LoginAction::Proceed,
        login_step(w, WeChatStatus::LoggedIn).0 == w,
        login_step(w, WeChatStatus::WaitingForLogin).1 is AwaitLogin,
        login_step(w, WeChatStatus::WaitingForLogin).0.attempts == w.attempts,
        login_step(w, WeChatStatus::WaitingForLogin).0.prompted,
        w.prompted || login_step(w, WeChatStatus::WaitingForLogin).1 == (LoginAction::AwaitLogin {
            prompt: true,
        }),
{
}

/// Nothing is waited after going on, and something after every other action.
pub proof fn law_only_waiting_pauses(a: LoginAction)
    ensures
        a.pause() > 0 <==> a != LoginAction::Proceed,
        a.pause() >= 0,
{
}

/// A key that is there is waited for no longer, and one that is not there ten
/// times and no more.
pub proof fn law_key_is_waited_for(tries: int, exists: bool)
    ensures
        key_awaited(tries, true) == false,
        key_awaited(tries, false) <==> tries < 10,
{
}

/// A key is read as it stands, whatever white space stands around it, and
/// nothing is a key that has not sixty-four bytes.
pub proof fn law_key_is_read(before: Seq<char>, key: Seq<char>, after: Seq<char>)
    requires
        text::all_space(before),
        text::all_space(after),
        key.len() > 0,
        !text::is_space(key[0]),
        !text::is_space(key.last()),
    ensures
        key_in(before + key + after) == if bytes::byte_len(key) == 64 {
            Some(key)
        } else {
            None
        },
{
    text::law_trimmed_between(before, key, after);
}

/// The directory used is one that no other was changed after, and nothing before
/// it was changed at the same time.
pub proof fn law_newest_was_changed_last(times: Seq<i128>, i: int, j: int)
    requires
        is_newest(times, i),
        0 <= j < times.len(),
    ensures
        times[j] <= times[i],
        times[j] == times[i] ==> i <= j,
{
}

/// A path below a directory is the directory, one slash and the rest, whether
/// the directory ends in a slash or not.
pub proof fn law_below_has_one_slash(dir: Seq<char>, rest: Seq<char>)
    requires
        dir.len() > 0,
        dir.last() != '/',
    ensures
        below(dir, rest) == dir + seq!['/'] + rest,
        below(dir + seq!['/'], rest) == dir + seq!['/'] + rest,
{
    reveal_strlit("/");
    assert("/"@ =~= seq!['/']);
}

/// Account directories are looked for in the usual place first, in the own home
/// directory and in that of every user, in no place twice and nowhere else.
pub proof fn law_all_homes_are_searched(home: Seq<char>, users: Seq<Seq<char>>)
    ensures
        ({
            let places = account_places(home, users);
            let tail = "Documents/xwechat_files"@;
            &&& places.len() > 0
            &&& places[0] == "/home/wechat/Documents/xwechat_files"@
            &&& places.contains(below(home, tail))
            &&& forall|i: int| 0 <= i < users.len() ==> places.contains(below(#[trigger] users[i], tail))
            &&& places.no_duplicates()
            &&& forall|k: int| 0 < k < places.len() ==> #[trigger] places[k] == below(home, tail)
                || exists|i: int| 0 <= i < users.len() && places[k] == below(#[trigger] users[i], tail)
        }),
    decreases users.len(),
{
    let places = account_places(home, users);
    let tail = "Documents/xwechat_files"@;
    if users.len() == 0 {
        if below(home, tail) == "/home/wechat/Documents/xwechat_files"@ {
            assert(places[0] == below(home, tail));
        } else {
            assert(places[1] == below(home, tail));
        }
    } else {
        let rest = users.drop_last();
        let before = account_places(home, rest);
        let place = below(users.last(), tail);
        law_all_homes_are_searched(home, rest);
        assert forall|x: Seq<char>| before.contains(x) implies #[trigger] places.contains(x) by {
            let k = choose|k: int| 0 <= k < before.len() && before[k] == x;
            assert(places[k] == x);
        }
        if !before.contains(place) {
            assert(places[before.len() as int] == place);
        }
        assert forall|i: int| 0 <= i < users.len() implies places.contains(
            below(#[trigger] users[i], tail),
        ) by {
            if i < rest.len() {
                assert(rest[i] == users[i]);
                assert(before.contains(below(rest[i], tail)));
            }
        }
        assert forall|k: int| 0 < k < places.len() implies #[trigger] places[k] == below(home, tail)
            || exists|i: int| 0 <= i < users.len() && places[k] == below(#[trigger] users[i], tail) by {
            if k < before.len() {
                assert(places[k] == before[k]);
                if before[k] != below(home, tail) {
                    let i = choose|i: int|
                        0 <= i < rest.len() && before[k] == below(#[trigger] rest[i], tail);
                    assert(users[i] == rest[i]);
                }
            } else {
                assert(places[k] == below(users[users.len() - 1], tail));
            }
        }
    }
}

/// A home directory that is told is taken as it is told.
pub proof fn law_home_is_as_told(home: Seq<char>)
    ensures
        home_of(Some(home)) == home,
        home_of(None) == "/root"@,
{
}

/// How many failures in a row there are after so many looks at an empty list.
pub open spec fn failures(looks: nat) -> int
    decreases looks,
{
    if looks == 0 {
        0
    } else {
        heart_step(failures((looks - 1) as nat), 0).0
    }
}

/// The first two looks in a row at an empty list call for nothing, and every
/// further one for connecting anew, until that works.
pub proof fn law_reconnect_from_the_third_on(looks: nat, count: i32, recovered: i32)
    requires
        count <= 0,
        recovered > 0,
    ensures
        failures(looks) == looks,
        looks < 2 ==> heart_step(failures(looks), count).1 == HeartAction::Failing,
        looks >= 2 ==> heart_step(failures(looks), count).1 == HeartAction::Reconnect,
        heart_step(failures(looks), recovered).1 == (HeartAction::Fine { recovered: looks > 0 }),
        fails_after_reconnect(failures(looks), true) == 0,
        fails_after_reconnect(failures(looks), false) == looks,
    decreases looks,
{
    if looks > 0 {
        law_reconnect_from_the_third_on((looks - 1) as nat, count, recovered);
    }
}

/// Messages are fetched for a change, after a change that was missed and after a
/// while without any, and only the end of all changes ends the fetching.
pub proof fn law_only_the_end_ends_fetching()
    ensures
        is_fetched_for(WalSignal::Changed),
        is_fetched_for(WalSignal::Lagged),
        is_fetched_for(WalSignal::Timeout),
        !is_fetched_for(WalSignal::Closed),
{
}

} // verus!
