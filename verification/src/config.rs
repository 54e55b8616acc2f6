//! The configuration: where it is looked for, what it holds, and how the list
//! of chats to listen to is written back.
use vstd::prelude::*;
use crate::schema;
use crate::text;

verus! {

// ---------------------------------------------------------------------
// What it holds
// ---------------------------------------------------------------------

/// The configuration.
#[derive(Debug, Clone)]
pub struct AppConfig {
    pub api: ApiConfig,
    pub listen: ListenConfig,
    pub timing: TimingConfig,
}

/// The part on the interface.
#[derive(Debug, Clone)]
pub struct ApiConfig {
    /// The token that requests must carry; none, or an empty one, lets every
    /// request pass.
    pub token: Option<String>,
}

/// The part on listening.
#[derive(Debug, Clone)]
pub struct ListenConfig {
    /// The chats to listen to from the start, each in a window of its own.
    pub auto: Vec<String>,
}

/// The part on timing.
#[derive(Debug, Clone)]
pub struct TimingConfig {
    /// How long each step of a mention waits, in milliseconds.
    pub at_delay_ms: u64,
}

/// The configuration as a mathematical value.
pub struct ConfigView {
    pub token: Option<Seq<char>>,
    pub auto: Seq<Seq<char>>,
    pub at_delay_ms: u64,
}

impl View for AppConfig {
    type V = ConfigView;

    open spec fn view(&self) -> ConfigView {
        ConfigView {
            token: text::opt_view(self.api.token),
            auto: text::views(self.listen.auto@),
            at_delay_ms: self.timing.at_delay_ms,
        }
    }
}

/// The configuration where nothing is configured.
pub open spec fn default_view() -> ConfigView {
    ConfigView { token: None, auto: Seq::empty(), at_delay_ms: 300 }
}

/// How long each step of a mention waits where nothing is configured.
pub fn default_at_delay() -> (r: u64)
    ensures
        r == 300,
{
    300
}

impl Default for TimingConfig {
    fn default() -> (r: Self)
        ensures
            r.at_delay_ms == 300,
    {
        TimingConfig { at_delay_ms: default_at_delay() }
    }
}

impl Default for ApiConfig {
    fn default() -> (r: Self)
        ensures
            r.token is None,
    {
        ApiConfig { token: None }
    }
}

impl Default for ListenConfig {
    fn default() -> (r: Self)
        ensures
            r.auto@.len() == 0,
    {
        ListenConfig { auto: Vec::new() }
    }
}

impl Default for AppConfig {
    fn default() -> (r: Self)
        ensures
            r@ == default_view(),
    {
        let r = AppConfig {
            api: ApiConfig { token: None },
            listen: ListenConfig { auto: Vec::new() },
            timing: TimingConfig { at_delay_ms: default_at_delay() },
        };
        assert(r@.auto =~= Seq::empty());
        r
    }
}

/// The token that is asked for: an empty one counts as none.
pub open spec fn asked_token(config: ConfigView) -> Option<Seq<char>> {
    match config.token {
        Some(t) => if t.len() > 0 {
            Some(t)
        } else {
            None
        },
        None => None,
    }
}

/// The new time for each step of naming a member, where it changes.
pub open spec fn delay_change(old_delay: u64, config: ConfigView) -> Option<u64> {
    if old_delay != config.at_delay_ms {
        Some(config.at_delay_ms)
    } else {
        None
    }
}

impl AppConfig {
    /// A copy of this configuration.
    pub fn copy(&self) -> (r: AppConfig)
        ensures
            r@ == self@,
    {
        AppConfig {
            api: ApiConfig { token: self.api.token.clone() },
            listen: ListenConfig { auto: text::copy_list(&self.listen.auto) },
            timing: TimingConfig { at_delay_ms: self.timing.at_delay_ms },
        }
    }

    /// The token that requests must carry, if any.
    pub fn required_token(&self) -> (r: Option<String>)
        ensures
            text::opt_view(r) == asked_token(self@),
    {
        match &self.api.token {
            Some(t) => if t.as_str().is_empty() {
                None
            } else {
                Some(t.clone())
            },
            None => None,
        }
    }
}

// ---------------------------------------------------------------------
// Where it is looked for
// ---------------------------------------------------------------------

/// Where a configuration is looked for, the first choice first.
pub open spec fn search_order() -> Seq<Seq<char>> {
    seq![
        "./config.toml"@,
        "/home/wechat/mimicwx-linux/config.toml"@,
        "/etc/mimicwx/config.toml"@,
    ]
}

/// The place of the first configuration that could be loaded.
pub open spec fn first_loaded(attempts: Seq<Option<AppConfig>>) -> Option<int>
    decreases attempts.len(),
{
    if attempts.len() == 0 {
        None
    } else {
        match first_loaded(attempts.drop_last()) {
            Some(i) => Some(i),
            None => if attempts.last() is Some {
                Some(attempts.len() - 1)
            } else {
                None
            },
        }
    }
}

/// Where a configuration is looked for, the first choice first.
pub fn search_paths() -> (r: Vec<&'static str>)
    ensures
        schema::str_views(r@) == search_order(),
{
    let r: Vec<&'static str> = vec![
        "./config.toml",
        "/home/wechat/mimicwx-linux/config.toml",
        "/etc/mimicwx/config.toml",
    ];
    assert(schema::str_views(r@) =~= search_order());
    r
}

/// The configuration to use, and where it comes from. The attempts at loading
/// one stand in the order of the places, nothing standing for a place without
/// a file that can be read and understood.
pub fn load_config(attempts: &Vec<Option<AppConfig>>) -> (r: (AppConfig, Option<usize>))
    ensures
        match first_loaded(attempts@) {
            Some(i) => 0 <= i < attempts@.len() && r.1 == Some(i as usize) && r.0@ == (
            attempts@[i]->0)@,
            None => r.1 is None && r.0@ == default_view(),
        },
{
    let mut i: usize = 0;
    while i < attempts.len()
        invariant
            0 <= i <= attempts@.len(),
            first_loaded(attempts@.take(i as int)) is None,
        decreases attempts@.len() - i,
    {
        assert(attempts@.take(i + 1).drop_last() =~= attempts@.take(i as int));
        if let Some(c) = &attempts[i] {
            proof {
                lemma_first_loaded(attempts@, i as int);
            }
            return (c.copy(), Some(i));
        }
        i += 1;
    }
    assert(attempts@.take(attempts@.len() as int) =~= attempts@);
    (AppConfig::default(), None)
}

/// A configuration with none before it is the first.
proof fn lemma_first_loaded(attempts: Seq<Option<AppConfig>>, i: int)
    requires
        0 <= i < attempts.len(),
        first_loaded(attempts.take(i)) is None,
        attempts[i] is Some,
    ensures
        first_loaded(attempts) == Some(i),
    decreases attempts.len(),
{
    if i == attempts.len() - 1 {
        assert(attempts.drop_last() =~= attempts.take(i));
    } else {
        assert(attempts.drop_last().take(i) =~= attempts.take(i));
        lemma_first_loaded(attempts.drop_last(), i);
    }
}

// ---------------------------------------------------------------------
// Writing the list back
// ---------------------------------------------------------------------

/// The names of a list in double quotes.
pub open spec fn quoted(list: Seq<Seq<char>>) -> Seq<Seq<char>> {
    Seq::new(list.len(), |i: int| "\""@ + list[i] + "\""@)
}

/// The entry for a list.
pub open spec fn auto_line(list: Seq<Seq<char>>) -> Seq<char> {
    if list.len() == 0 {
        "auto = []"@
    } else {
        "auto = ["@ + text::join(quoted(list), ","@) + "]"@
    }
}

/// Whether a line begins the entry for the list: the key is exactly `auto`, and
/// an array stands behind it.
pub open spec fn is_auto(line: Seq<char>) -> bool {
    let t = text::trim(line);
    let value = text::trim_start(t.skip(4));
    &&& text::begins(t, "auto"@)
    &&& text::begins(value, "="@)
    &&& text::begins(text::trim_start(value.skip(1)), "["@)
}

/// Whether the list that a line begins goes on in the next line.
pub open spec fn goes_on(line: Seq<char>) -> bool {
    !line.contains(']')
}

/// A text with each entry for the list replaced. An entry that goes on over
/// several lines is replaced up to the one that closes it; all else stays, the
/// ends of lines included.
pub open spec fn rewritten(s: Seq<char>, entry: Seq<char>, inside: bool) -> Seq<char>
    decreases s.len(),
    via rewritten_ends
{
    let line = text::first_line(s);
    let end = text::line_end(s);
    let rest = text::after_line(s);
    if s.len() == 0 {
        Seq::empty()
    } else if inside {
        if goes_on(line) && rest.len() > 0 {
            rewritten(rest, entry, true)
        } else {
            end + rewritten(rest, entry, false)
        }
    } else if is_auto(line) {
        if goes_on(line) && rest.len() > 0 {
            entry + rewritten(rest, entry, true)
        } else {
            entry + end + rewritten(rest, entry, false)
        }
    } else {
        line + end + rewritten(rest, entry, false)
    }
}

#[via_fn]
proof fn rewritten_ends(s: Seq<char>, entry: Seq<char>, inside: bool) {
    text::lemma_line(s);
}

/// Whether a text has a line that begins an entry for the list.
pub open spec fn has_auto(s: Seq<char>) -> bool
    decreases s.len(),
    via has_auto_ends
{
    s.len() > 0 && (is_auto(text::first_line(s)) || has_auto(text::after_line(s)))
}

#[via_fn]
proof fn has_auto_ends(s: Seq<char>) {
    text::lemma_line(s);
}

/// Whether a line is the heading of the part that the list belongs to.
pub open spec fn is_heading(line: Seq<char>) -> bool {
    text::begins(text::trim_start(line), "[listen]"@)
}

/// A heading with an entry put behind it, in a line of its own.
pub open spec fn heading_with(line: Seq<char>, entry: Seq<char>) -> Seq<char> {
    let k = line.len() - text::trim_start(line).len() + 8;
    line.take(k) + "\n"@ + entry + line.skip(k)
}

/// A text with an entry put behind each heading of the part that the list
/// belongs to.
pub open spec fn headed(s: Seq<char>, entry: Seq<char>) -> Seq<char>
    decreases s.len(),
    via headed_ends
{
    let line = text::first_line(s);
    if s.len() == 0 {
        Seq::empty()
    } else {
        (if is_heading(line) {
            heading_with(line, entry)
        } else {
            line
        }) + text::line_end(s) + headed(text::after_line(s), entry)
    }
}

#[via_fn]
proof fn headed_ends(s: Seq<char>, entry: Seq<char>) {
    text::lemma_line(s);
}

/// A configuration with the list written into it: in place of its entry, or
/// behind the heading of its part where it has none.
pub open spec fn saved(content: Seq<char>, list: Seq<Seq<char>>) -> Seq<char> {
    if has_auto(content) {
        rewritten(content, auto_line(list), false)
    } else {
        headed(content, auto_line(list))
    }
}

/// The entry for a list.
pub fn auto_entry(list: &Vec<String>) -> (r: String)
    ensures
        r@ == auto_line(text::views(list@)),
{
    if list.len() == 0 {
        return "auto = []".to_owned();
    }
    let mut items: Vec<String> = Vec::new();
    let mut i: usize = 0;
    while i < list.len()
        invariant
            0 <= i <= list@.len(),
            items@.len() == i,
            forall|j: int| 0 <= j < i ==> (#[trigger] items@[j])@ == "\""@ + list@[j]@ + "\""@,
        decreases list@.len() - i,
    {
        let mut item = "\"".to_owned();
        item.append(list[i].as_str());
        item.append("\"");
        items.push(item);
        i += 1;
    }
    assert(text::views(items@) =~= quoted(text::views(list@)));
    let mut s = "auto = [".to_owned();
    s.append(text::join_with(&items, ",").as_str());
    s.append("]");
    s
}

/// Whether a text holds a character.
fn holds(s: &str, c: char) -> (r: bool)
    ensures
        r == s@.contains(c),
{
    let v = text::to_chars(s);
    let mut i: usize = 0;
    while i < v.len()
        invariant
            0 <= i <= v@.len(),
            v@ == s@,
            forall|j: int| 0 <= j < i ==> v@[j] != c,
        decreases v@.len() - i,
    {
        if v[i] == c {
            return true;
        }
        i += 1;
    }
    false
}

/// Whether a line begins the entry for the list.
fn begins_entry(line: &str) -> (r: bool)
    ensures
        r == is_auto(line@),
{
    let t = text::trimmed(line);
    match text::strip_prefix(t.as_str(), "auto") {
        Some(after) => {
            proof {
                reveal_strlit("auto");
                reveal_strlit("=");
            }
            match text::strip_prefix(text::trimmed_start(after.as_str()).as_str(), "=") {
                Some(value) => text::starts_with(text::trimmed_start(value.as_str()).as_str(), "["),
                None => false,
            }
        },
        None => false,
    }
}

/// A heading with an entry put behind it, in a line of its own.
fn with_entry(line: &str, entry: &str) -> (r: String)
    requires
        is_heading(line@),
    ensures
        r@ == heading_with(line@, entry@),
{
    let v = text::to_chars(line);
    let rest = text::to_chars(text::trimmed_start(line).as_str());
    proof {
        text::lemma_trim_start_cuts(line@);
        reveal_strlit("[listen]");
    }
    let k: usize = v.len() - rest.len() + 8;
    let mut r = text::cut(&v, 0, k);
    r.append("\n");
    r.append(entry);
    r.append(text::cut(&v, k, v.len()).as_str());
    assert(v@.subrange(0, k as int) =~= v@.take(k as int));
    assert(v@.subrange(k as int, v@.len() as int) =~= v@.skip(k as int));
    r
}

/// A text with an entry put behind each heading of the list's part.
fn put_behind_headings(v: &Vec<char>, entry: &str) -> (r: String)
    ensures
        r@ == headed(v@, entry@),
{
    let mut out = String::new();
    let mut at: usize = 0;
    assert(v@.skip(0) =~= v@);
    assert(out@ + headed(v@, entry@) =~= headed(v@, entry@));
    while at < v.len()
        invariant
            at <= v@.len(),
            out@ + headed(v@.skip(at as int), entry@) == headed(v@, entry@),
        decreases v@.len() - at,
    {
        let ghost before = out@;
        let (end, next) = text::line_at(v, at);
        let line = text::cut(v, at, end);
        let shown = if text::starts_with(text::trimmed_start(line.as_str()).as_str(), "[listen]") {
            with_entry(line.as_str(), entry)
        } else {
            line
        };
        let stop = text::cut(v, end, next);
        out.append(shown.as_str());
        out.append(stop.as_str());
        assert(out@ + headed(v@.skip(next as int), entry@) =~= before + (shown@ + stop@ + headed(
            v@.skip(next as int),
            entry@,
        )));
        at = next;
    }
    assert(v@.skip(at as int) =~= Seq::<char>::empty());
    assert(out@ + Seq::<char>::empty() =~= out@);
    out
}

/// A configuration with the list written into it.
pub fn save_listen_list(content: &str, list: &Vec<String>) -> (r: String)
    ensures
        r@ == saved(content@, text::views(list@)),
{
    let entry = auto_entry(list);
    let v = text::to_chars(content);
    let mut out = String::new();
    let mut found = false;
    let mut inside = false;
    let mut at: usize = 0;
    assert(v@.skip(0) =~= v@);
    assert(out@ + rewritten(v@, entry@, false) =~= rewritten(v@, entry@, false));
    while at < v.len()
        invariant
            at <= v@.len(),
            v@ == content@,
            has_auto(v@) == (found || has_auto(v@.skip(at as int))),
            out@ + rewritten(v@.skip(at as int), entry@, inside) == rewritten(v@, entry@, false),
            inside ==> found,
        decreases v@.len() - at,
    {
        let ghost before = out@;
        let (end, next) = text::line_at(&v, at);
        let line = text::cut(&v, at, end);
        let stop = text::cut(&v, end, next);
        let open = !holds(line.as_str(), ']') && next < v.len();
        let ghost rest = v@.skip(next as int);
        let ghost was = inside;
        if inside {
            if !open {
                out.append(stop.as_str());
            }
            inside = open;
        } else if begins_entry(line.as_str()) {
            out.append(entry.as_str());
            if !open {
                out.append(stop.as_str());
            }
            inside = open;
            found = true;
        } else {
            out.append(line.as_str());
            out.append(stop.as_str());
        }
        assert(out@ + rewritten(rest, entry@, inside) =~= before + rewritten(
            v@.skip(at as int),
            entry@,
            was,
        ));
        at = next;
    }
    assert(v@.skip(at as int) =~= Seq::<char>::empty());
    assert(out@ + Seq::<char>::empty() =~= out@);
    if found {
        out
    } else {
        put_behind_headings(&v, entry.as_str())
    }
}

/// The entry for a list is itself recognised as one, all in one line.
pub proof fn law_entry_is_entry(list: Seq<Seq<char>>)
    ensures
        is_auto(auto_line(list)),
        !goes_on(auto_line(list)),
{
    let a = auto_line(list);
    reveal_strlit("auto = []");
    reveal_strlit("auto = [");
    reveal_strlit("auto");
    reveal_strlit("=");
    reveal_strlit("[");
    reveal_strlit("]");
    assert(a.len() >= 9);
    assert(a[0] == 'a' && a[1] == 'u' && a[2] == 't' && a[3] == 'o' && a[4] == ' ' && a[5] == '='
        && a[6] == ' ' && a[7] == '[');
    assert(a.last() == ']');
    assert(a.contains(a[a.len() - 1]));
    assert(text::trim_start(a) == a);
    assert(text::trim_end(a) == a);
    assert(a.subrange(0, 4) =~= "auto"@);
    let value = a.skip(4).skip(1);
    assert(value[0] == '=');
    assert(text::trim_start(value) == value);
    assert(value.subrange(0, 1) =~= "="@);
    let array = value.skip(1).skip(1);
    assert(array[0] == '[');
    assert(text::trim_start(array) == array);
    assert(array.subrange(0, 1) =~= "["@);
}

/// The texts that stand between double quotes, in order.
pub open spec fn between_quotes(s: Seq<char>) -> Seq<Seq<char>> {
    let pieces = text::split(s, '"');
    Seq::new((pieces.len() / 2) as nat, |i: int| pieces[2 * i + 1])
}

proof fn lemma_split_first(a: Seq<char>, c: char, b: Seq<char>)
    requires
        !a.contains(c),
    ensures
        text::split(a + seq![c] + b, c) == seq![a] + text::split(b, c),
{
    text::lemma_split_first(a, c, b);
}

proof fn lemma_split_none(a: Seq<char>, c: char)
    requires
        !a.contains(c),
    ensures
        text::split(a, c) == seq![a],
{
    text::lemma_split_none(a, c);
}

proof fn lemma_join_first(parts: Seq<Seq<char>>, sep: Seq<char>)
    requires
        parts.len() >= 2,
    ensures
        text::join(parts, sep) == parts[0] + sep + text::join(parts.skip(1), sep),
{
    text::lemma_join_first(parts, sep);
}

proof fn lemma_names_between(list: Seq<Seq<char>>, head: Seq<char>, tail: Seq<char>)
    requires
        list.len() > 0,
        forall|i: int| 0 <= i < list.len() ==> !(#[trigger] list[i]).contains('"'),
        !head.contains('"'),
        !tail.contains('"'),
    ensures
        ({
            let pieces = text::split(head + text::join(quoted(list), ","@) + tail, '"');
            &&& pieces.len() == 2 * list.len() + 1
            &&& forall|i: int| 0 <= i < list.len() ==> #[trigger] pieces[2 * i + 1] == list[i]
        }),
    decreases list.len(),
{
    reveal_strlit("\"");
    reveal_strlit(",");
    let all = quoted(list);
    let more = list.skip(1);
    let behind = if list.len() == 1 {
        tail
    } else {
        ","@ + text::join(quoted(more), ","@) + tail
    };
    let inner = list[0] + seq!['"'] + behind;
    let s = head + text::join(all, ","@) + tail;
    if list.len() > 1 {
        lemma_join_first(all, ","@);
        assert(all.skip(1) =~= quoted(more));
    }
    assert(all[0] =~= seq!['"'] + list[0] + seq!['"']);
    assert(s =~= head + seq!['"'] + inner);
    lemma_split_first(head, '"', inner);
    lemma_split_first(list[0], '"', behind);
    let pieces = text::split(s, '"');
    let rest = text::split(behind, '"');
    assert(pieces =~= seq![head, list[0]] + rest);
    if list.len() == 1 {
        lemma_split_none(tail, '"');
        assert forall|i: int| 0 <= i < list.len() implies #[trigger] pieces[2 * i + 1]
            == list[i] by {
            assert(i == 0);
        }
    } else {
        assert forall|i: int| 0 <= i < more.len() implies !(#[trigger] more[i]).contains('"') by {
            assert(more[i] == list[i + 1]);
        }
        lemma_names_between(more, ","@, tail);
        assert forall|i: int| 0 <= i < list.len() implies #[trigger] pieces[2 * i + 1]
            == list[i] by {
            if i > 0 {
                assert(pieces[2 * i + 1] == rest[2 * (i - 1) + 1]);
                assert(more[i - 1] == list[i]);
            }
        }
    }
}

/// The names of a list can be read off its entry: they are what stands between
/// its double quotes, in order, as long as no name has one.
pub proof fn law_names_read_back(list: Seq<Seq<char>>)
    requires
        forall|i: int| 0 <= i < list.len() ==> !(#[trigger] list[i]).contains('"'),
    ensures
        between_quotes(auto_line(list)) == list,
{
    reveal_strlit("auto = []");
    reveal_strlit("auto = [");
    reveal_strlit("]");
    if list.len() == 0 {
        lemma_split_none(auto_line(list), '"');
    } else {
        lemma_names_between(list, "auto = ["@, "]"@);
    }
    assert(between_quotes(auto_line(list)) =~= list);
}

/// Two lists with the same entry are the same, as long as no name has a double
/// quote.
pub proof fn law_entry_tells_the_list(a: Seq<Seq<char>>, b: Seq<Seq<char>>)
    requires
        forall|i: int| 0 <= i < a.len() ==> !(#[trigger] a[i]).contains('"'),
        forall|i: int| 0 <= i < b.len() ==> !(#[trigger] b[i]).contains('"'),
        auto_line(a) == auto_line(b),
    ensures
        a == b,
{
    law_names_read_back(a);
    law_names_read_back(b);
}

/// A comment is never taken for the entry.
pub proof fn law_comments_are_no_entries(line: Seq<char>)
    requires
        text::begins(text::trim(line), "#"@),
    ensures
        !is_auto(line),
{
    let t = text::trim(line);
    reveal_strlit("#");
    reveal_strlit("auto");
    assert(t.subrange(0, 1)[0] == '#');
    if text::begins(t, "auto"@) {
        assert(t.subrange(0, 4)[0] == 'a');
    }
}

/// Another key that begins like that of the list is never taken for it.
pub proof fn law_other_keys_are_no_entries(key: Seq<char>, value: Seq<char>)
    requires
        key.len() > 0,
        !text::is_space(key[0]),
        key[0] != '=',
        text::trim("auto"@ + key + value) == "auto"@ + key + value,
    ensures
        !is_auto("auto"@ + key + value),
{
    let t = "auto"@ + key + value;
    reveal_strlit("auto");
    reveal_strlit("=");
    let rest = t.skip(4);
    assert(rest[0] == key[0]);
    assert(text::trim_start(rest) == rest);
    if text::begins(rest, "="@) {
        assert(rest.subrange(0, 1)[0] == '=');
    }
}

/// A text without an entry stays as it is.
pub proof fn law_no_entry_no_change(s: Seq<char>, entry: Seq<char>)
    requires
        !has_auto(s),
    ensures
        rewritten(s, entry, false) == s,
    decreases s.len(),
{
    text::lemma_line(s);
    if s.len() > 0 {
        law_no_entry_no_change(text::after_line(s), entry);
    }
}

/// Whether a text is made of whole lines.
pub open spec fn is_whole(s: Seq<char>) -> bool {
    s.len() == 0 || s.last() == '\n'
}

proof fn lemma_first_of_whole(a: Seq<char>, b: Seq<char>)
    requires
        is_whole(a),
        a.len() > 0,
    ensures
        text::first_line(a + b) == text::first_line(a),
        text::line_end(a + b) == text::line_end(a),
        text::after_line(a + b) == text::after_line(a) + b,
        text::ends_line(text::line_end(a)),
        is_whole(text::after_line(a)),
{
    text::lemma_line(a);
    let l = text::first_line(a);
    let e = text::line_end(a);
    let r = text::after_line(a);
    if e.len() == 0 {
        assert(a =~= l);
        assert(l.contains(a[a.len() - 1]));
    }
    assert(l + e + (r + b) =~= a + b);
    text::lemma_line_unique(l, e, r + b);
    if r.len() > 0 {
        assert(r.last() == a.last());
    }
}

/// Whole lines without an entry stay as they are, whatever follows.
pub proof fn law_lines_before_stay(a: Seq<char>, b: Seq<char>, entry: Seq<char>)
    requires
        is_whole(a),
        !has_auto(a),
    ensures
        rewritten(a + b, entry, false) == a + rewritten(b, entry, false),
        has_auto(a + b) == has_auto(b),
    decreases a.len(),
{
    if a.len() == 0 {
        assert(a + b =~= b);
        assert(a + rewritten(b, entry, false) =~= rewritten(b, entry, false));
    } else {
        lemma_first_of_whole(a, b);
        text::lemma_line(a);
        let r = text::after_line(a);
        law_lines_before_stay(r, b, entry);
        assert(rewritten(a + b, entry, false) =~= a + rewritten(b, entry, false));
    }
}

/// Whether a text is the rest of an entry that an earlier line began: it stops
/// with the line that closes it, without the end of that line.
pub open spec fn closes(s: Seq<char>) -> bool
    decreases s.len(),
    via closes_ends
{
    if goes_on(text::first_line(s)) {
        text::after_line(s).len() > 0 && closes(text::after_line(s))
    } else {
        text::line_end(s).len() == 0 && (s.len() == 0 || s.last() != '\r')
    }
}

#[via_fn]
proof fn closes_ends(s: Seq<char>) {
    text::lemma_line(s);
}

/// Whether a text is one entry for the list, in one line or in several,
/// without the end of its last line.
pub open spec fn is_entry(s: Seq<char>) -> bool {
    is_auto(text::first_line(s)) && closes(s)
}

proof fn lemma_entry_goes(e: Seq<char>, b: Seq<char>, entry: Seq<char>)
    requires
        closes(e),
        e.len() > 0,
        b.len() == 0 || text::first_line(b).len() == 0,
    ensures
        rewritten(e + b, entry, true) == text::line_end(b) + rewritten(
            text::after_line(b),
            entry,
            false,
        ),
        goes_on(text::first_line(e)) ==> {
            &&& text::first_line(e + b) == text::first_line(e)
            &&& text::after_line(e + b) == text::after_line(e) + b
        },
        !goes_on(text::first_line(e)) ==> {
            &&& text::first_line(e + b) == text::first_line(e)
            &&& text::line_end(e + b) == text::line_end(b)
            &&& text::after_line(e + b) == text::after_line(b)
        },
    decreases e.len(),
{
    text::lemma_line(e);
    text::lemma_line(b);
    let l = text::first_line(e);
    if goes_on(l) {
        let r = text::after_line(e);
        assert(l + text::line_end(e) + (r + b) =~= e + b);
        text::lemma_line_unique(l, text::line_end(e), r + b);
        lemma_entry_goes(r, b, entry);
    } else {
        assert(e =~= l);
        assert(l + text::line_end(b) + text::after_line(b) =~= e + b);
        text::lemma_line_unique(l, text::line_end(b), text::after_line(b));
    }
}

/// Only the entry changes: where a configuration is some whole lines, one entry,
/// and the end of its line with what follows, the list takes the place of the
/// entry, and everything around it stays to the letter.
pub proof fn law_only_the_entry_changes(
    a: Seq<char>,
    e: Seq<char>,
    b: Seq<char>,
    list: Seq<Seq<char>>,
)
    requires
        is_whole(a),
        !has_auto(a),
        is_entry(e),
        b.len() == 0 || text::first_line(b).len() == 0,
        !has_auto(text::after_line(b)),
    ensures
        saved(a + e + b, list) == a + auto_line(list) + b,
{
    let entry = auto_line(list);
    let rest = text::after_line(b);
    text::lemma_line(e);
    text::lemma_line(b);
    reveal_strlit("auto");
    assert(e.len() > 0) by {
        if e.len() == 0 {
            assert(text::trim(text::first_line(e)).len() == 0);
        }
    }
    assert(a + e + b =~= a + (e + b));
    law_lines_before_stay(a, e + b, entry);
    lemma_entry_goes(e, b, entry);
    law_no_entry_no_change(rest, entry);
    assert(has_auto(e + b));
    if goes_on(text::first_line(e)) {
        text::lemma_line(e + b);
        let r = text::after_line(e);
        lemma_entry_goes(r, b, entry);
        assert(text::after_line(e + b).len() > 0);
    }
    assert(text::line_end(b) + rest =~= b);
    assert(rewritten(e + b, entry, false) =~= entry + b);
    assert(saved(a + e + b, list) =~= a + entry + b);
}

/// What stands behind an open entry once that has been replaced: the end of the
/// line that closes it, and the rest rewritten.
proof fn lemma_inside(s: Seq<char>, entry: Seq<char>) -> (c: (Seq<char>, Seq<char>))
    requires
        s.len() > 0,
    ensures
        rewritten(s, entry, true) == c.0 + rewritten(c.1, entry, false),
        text::ends_line(c.0) || c.0.len() == 0 && c.1.len() == 0,
        c.1.len() < s.len(),
    decreases s.len(),
{
    text::lemma_line(s);
    let rest = text::after_line(s);
    if goes_on(text::first_line(s)) && rest.len() > 0 {
        lemma_inside(rest, entry)
    } else {
        (text::line_end(s), rest)
    }
}

/// Writing a list where it has been written changes nothing more, as long as no
/// name breaks the line.
pub proof fn law_rewriting_settles(s: Seq<char>, list: Seq<Seq<char>>)
    requires
        !auto_line(list).contains('\n'),
    ensures
        rewritten(rewritten(s, auto_line(list), false), auto_line(list), false) == rewritten(
            s,
            auto_line(list),
            false,
        ),
    decreases s.len(),
{
    let entry = auto_line(list);
    law_entry_is_entry(list);
    text::lemma_line(s);
    if s.len() > 0 {
        let line = text::first_line(s);
        let end = text::line_end(s);
        let rest = text::after_line(s);
        let out = rewritten(s, entry, false);
        reveal_strlit("auto = []");
        reveal_strlit("]");
        assert(entry.last() == ']');
        if is_auto(line) && goes_on(line) && rest.len() > 0 {
            let c = lemma_inside(rest, entry);
            law_rewriting_settles(c.1, list);
            let tail = rewritten(c.1, entry, false);
            assert(out =~= entry + c.0 + tail);
            assert(c.0.len() == 0 ==> tail.len() == 0);
            text::lemma_line_unique(entry, c.0, tail);
        } else {
            law_rewriting_settles(rest, list);
            let tail = rewritten(rest, entry, false);
            let first = if is_auto(line) {
                entry
            } else {
                line
            };
            assert(out =~= first + end + tail);
            text::lemma_line_unique(first, end, tail);
            if out.len() == 0 {
                assert(first.len() == 0);
            }
        }
    }
}

// ---------------------------------------------------------------------
// Changing the list
// ---------------------------------------------------------------------

/// A list with a name in it.
pub open spec fn with_name(list: Seq<Seq<char>>, who: Seq<char>) -> Seq<Seq<char>> {
    if list.contains(who) {
        list
    } else {
        list.push(who)
    }
}

/// The names of a list that are not in another, in order.
pub open spec fn without(list: Seq<Seq<char>>, other: Seq<Seq<char>>) -> Seq<Seq<char>>
    decreases list.len(),
{
    if list.len() == 0 {
        Seq::empty()
    } else if other.contains(list.last()) {
        without(list.drop_last(), other)
    } else {
        without(list.drop_last(), other).push(list.last())
    }
}

/// A list with a name in it.
pub fn list_with(list: &Vec<String>, who: &str) -> (r: Vec<String>)
    ensures
        text::views(r@) == with_name(text::views(list@), who@),
{
    let mut r = text::copy_list(list);
    if !text::in_list(list, who) {
        let ghost before = r@;
        r.push(who.to_owned());
        assert(text::views(r@) =~= text::views(before).push(who@));
    }
    r
}

/// The names of a list that are not in another, in order.
pub fn list_difference(list: &Vec<String>, other: &Vec<String>) -> (r: Vec<String>)
    ensures
        text::views(r@) == without(text::views(list@), text::views(other@)),
{
    let mut r: Vec<String> = Vec::new();
    let mut i: usize = 0;
    let ghost all = text::views(list@);
    let ghost others = text::views(other@);
    assert(text::views(r@) =~= without(all.take(0), others));
    while i < list.len()
        invariant
            0 <= i <= list@.len(),
            all == text::views(list@),
            others == text::views(other@),
            text::views(r@) == without(all.take(i as int), others),
        decreases list@.len() - i,
    {
        assert(all.take(i + 1).drop_last() =~= all.take(i as int));
        let ghost before = r@;
        if !text::in_list(other, list[i].as_str()) {
            r.push(list[i].clone());
            assert(text::views(r@) =~= text::views(before).push(list@[i as int]@));
        }
        i += 1;
    }
    assert(all.take(all.len() as int) =~= all);
    r
}

/// A list without a name.
pub fn list_without(list: &Vec<String>, who: &str) -> (r: Vec<String>)
    ensures
        text::views(r@) == without(text::views(list@), seq![who@]),
{
    let mut one: Vec<String> = Vec::new();
    one.push(who.to_owned());
    assert(text::views(one@) =~= seq![who@]);
    list_difference(list, &one)
}

/// What is to be done for a configuration loaded anew.
#[derive(Debug, Clone)]
pub struct ReloadPlan {
    /// The new waiting time, where it differs.
    pub at_delay_ms: Option<u64>,
    /// The chats no longer to be listened to, in order.
    pub to_remove: Vec<String>,
    /// The chats to be listened to in addition, in order.
    pub to_add: Vec<String>,
}

/// What is to be done for a configuration loaded anew.
pub fn plan_reload(old_delay: u64, current: &Vec<String>, config: &AppConfig) -> (r: ReloadPlan)
    ensures
        r.at_delay_ms == delay_change(old_delay, config@),
        text::views(r.to_remove@) == without(text::views(current@), config@.auto),
        text::views(r.to_add@) == without(config@.auto, text::views(current@)),
{
    let at_delay_ms = if old_delay != config.timing.at_delay_ms {
        Some(config.timing.at_delay_ms)
    } else {
        None
    };
    ReloadPlan {
        at_delay_ms,
        to_remove: list_difference(current, &config.listen.auto),
        to_add: list_difference(&config.listen.auto, current),
    }
}

proof fn lemma_without(list: Seq<Seq<char>>, other: Seq<Seq<char>>, who: Seq<char>)
    ensures
        without(list, other).contains(who) <==> list.contains(who) && !other.contains(who),
    decreases list.len(),
{
    if list.len() > 0 {
        let rest = list.drop_last();
        lemma_without(rest, other, who);
        let k = without(rest, other);
        if list.contains(who) && who != list.last() {
            let i = choose|i: int| 0 <= i < list.len() && list[i] == who;
            assert(rest[i] == who);
        }
        if rest.contains(who) {
            let i = choose|i: int| 0 <= i < rest.len() && rest[i] == who;
            assert(list[i] == who);
        }
        assert(list[list.len() - 1] == list.last());
        if !other.contains(list.last()) {
            let p = k.push(list.last());
            assert(p[p.len() - 1] == list.last());
            if k.contains(who) {
                let i = choose|i: int| 0 <= i < k.len() && k[i] == who;
                assert(p[i] == who);
            }
            if p.contains(who) && who != list.last() {
                let i = choose|i: int| 0 <= i < p.len() && p[i] == who;
                assert(k[i] == who);
            }
        }
    }
}

/// A name that is not in a list need not be taken out.
proof fn lemma_nothing_to_take_out(list: Seq<Seq<char>>, who: Seq<char>)
    requires
        !list.contains(who),
    ensures
        without(list, seq![who]) == list,
    decreases list.len(),
{
    let one = seq![who];
    if list.len() > 0 {
        let rest = list.drop_last();
        assert(!rest.contains(who)) by {
            if rest.contains(who) {
                let i = choose|i: int| 0 <= i < rest.len() && rest[i] == who;
                assert(list[i] == who);
            }
        }
        lemma_nothing_to_take_out(rest, who);
        assert(list[list.len() - 1] == list.last());
        assert(!one.contains(list.last())) by {
            if one.contains(list.last()) {
                assert(one[0] == list.last());
            }
        }
        assert(rest.push(list.last()) =~= list);
    }
}

/// Taking a name out of a list leaves all others, and takes out nothing more a
/// second time.
pub proof fn lemma_one_name_out(list: Seq<Seq<char>>, who: Seq<char>)
    ensures
        forall|name: Seq<char>| #[trigger]
            without(list, seq![who]).contains(name) <==> list.contains(name) && name != who,
        without(without(list, seq![who]), seq![who]) == without(list, seq![who]),
        !list.contains(who) ==> without(list, seq![who]) == list,
{
    let one = seq![who];
    assert(one[0] == who);
    assert forall|name: Seq<char>| #[trigger] without(list, one).contains(name) <==> list.contains(
        name,
    ) && name != who by {
        lemma_without(list, one, name);
        if one.contains(name) {
            assert(one[0] == name);
        }
    }
    lemma_nothing_to_take_out(without(list, one), who);
    if !list.contains(who) {
        lemma_nothing_to_take_out(list, who);
    }
}

/// Putting a name into a list puts it there and changes nothing in the others.
pub proof fn lemma_one_name_in(list: Seq<Seq<char>>, who: Seq<char>)
    ensures
        with_name(list, who).contains(who),
        without(with_name(list, who), seq![who]) == without(list, seq![who]),
{
    let one = seq![who];
    assert(one[0] == who);
    if !list.contains(who) {
        let more = list.push(who);
        assert(more[list.len() as int] == who);
        assert(more.drop_last() =~= list);
        assert(one.contains(more.last()));
    }
}

/// Once a reload's plan is carried out, exactly the configured chats are
/// listened to: what is removed is what is current and not configured, what is
/// added is what is configured and not current.
pub proof fn law_reload_reaches_config(
    current: Seq<Seq<char>>,
    auto: Seq<Seq<char>>,
    who: Seq<char>,
)
    ensures
        auto.contains(who) <==> (current.contains(who) && !without(current, auto).contains(who)) || without(auto, current).contains(who),
{
    lemma_without(current, auto, who);
    lemma_without(auto, current, who);
}

// ---------------------------------------------------------------------
// Laws on settings
// ---------------------------------------------------------------------

/// A token is asked for exactly where one is set that is not empty, and then
/// that one.
pub proof fn law_set_token_is_asked_for(config: ConfigView, token: Seq<char>)
    ensures
        asked_token(config) is Some <==> config.token is Some && config.token
            != Some(Seq::<char>::empty()),
        asked_token(config) is Some ==> asked_token(config) == config.token,
        asked_token(default_view()) is None,
{
    if let Some(t) = config.token {
        if t.len() == 0 {
            assert(t =~= Seq::empty());
        }
    }
}

/// A new time is told exactly where it differs, and then the one that is set.
pub proof fn law_delay_is_told_when_new(old_delay: u64, config: ConfigView)
    ensures
        delay_change(old_delay, config) matches Some(new) ==> new == config.at_delay_ms && new
            != old_delay,
        delay_change(old_delay, config) is None ==> old_delay == config.at_delay_ms,
{
}

/// The first file that could be read is used, and none only where none could.
pub proof fn law_first_file_is_used(attempts: Seq<Option<AppConfig>>)
    ensures
        match first_loaded(attempts) {
            Some(i) => 0 <= i < attempts.len() && attempts[i] is Some && forall|j: int|
                0 <= j < i ==> attempts[j] is None,
            None => forall|j: int| 0 <= j < attempts.len() ==> attempts[j] is None,
        },
    decreases attempts.len(),
{
    if attempts.len() > 0 {
        let rest = attempts.drop_last();
        law_first_file_is_used(rest);
        assert(forall|j: int| 0 <= j < rest.len() ==> rest[j] == attempts[j]);
    }
}

/// The list is found wherever its key, an equals sign and an opening bracket
/// begin a line, with white space before, between and behind them or not.
pub proof fn law_entries_are_found(a: Seq<char>, b: Seq<char>, c: Seq<char>, rest: Seq<char>)
    requires
        text::all_space(a),
        text::all_space(b),
        text::all_space(c),
    ensures
        is_auto(a + ("auto"@ + (b + ("="@ + (c + ("["@ + rest)))))),
{
    reveal_strlit("auto");
    reveal_strlit("=");
    reveal_strlit("[");
    let x3 = "["@ + rest;
    let x2 = "="@ + (c + x3);
    let core = "auto"@ + (b + x2);
    assert(core[0] == 'a');
    text::lemma_trim_start_past(a, core);
    let end = text::lemma_trim_end_parts(core);
    let t = text::trim_end(core);
    let n = (4 + b.len() + 1 + c.len()) as int;
    assert(core[n] == '[');
    if t.len() <= n {
        assert(end[n - t.len()] == core[n]);
        assert(text::is_space('['));
    }
    let left = t.skip(n + 1);
    let y3 = "["@ + left;
    let y2 = "="@ + (c + y3);
    let y = "auto"@ + (b + y2);
    assert(y =~= t) by {
        assert forall|k: int| 0 <= k < t.len() implies y[k] == t[k] by {
            assert(t[k] == core[k]);
        }
    }
    assert(t.subrange(0, 4) =~= "auto"@);
    assert(t.skip(4) =~= b + y2);
    assert(y2[0] == '=');
    text::lemma_trim_start_past(b, y2);
    assert(y2.subrange(0, 1) =~= "="@);
    assert(y2.skip(1) =~= c + y3);
    assert(y3[0] == '[');
    text::lemma_trim_start_past(c, y3);
    assert(y3.subrange(0, 1) =~= "["@);
}

/// Whether no line of a text heads the section of the list.
pub open spec fn no_heading(s: Seq<char>) -> bool
    decreases s.len(),
    via no_heading_ends
{
    s.len() == 0 || !is_heading(text::first_line(s)) && no_heading(text::after_line(s))
}

#[via_fn]
proof fn no_heading_ends(s: Seq<char>) {
    text::lemma_line(s);
}

proof fn lemma_unheaded(s: Seq<char>, entry: Seq<char>)
    requires
        no_heading(s),
    ensures
        headed(s, entry) == s,
    decreases s.len(),
{
    text::lemma_line(s);
    if s.len() > 0 {
        lemma_unheaded(text::after_line(s), entry);
    }
}

proof fn lemma_headed_later(a: Seq<char>, b: Seq<char>, entry: Seq<char>)
    requires
        is_whole(a),
        no_heading(a),
    ensures
        headed(a + b, entry) == a + headed(b, entry),
    decreases a.len(),
{
    if a.len() == 0 {
        assert(a + b =~= b);
        assert(a + headed(b, entry) =~= headed(b, entry));
    } else {
        lemma_first_of_whole(a, b);
        text::lemma_line(a);
        lemma_headed_later(text::after_line(a), b, entry);
        assert(headed(a + b, entry) =~= a + headed(b, entry));
    }
}

/// Without a list the settings stay as they are where they have no section for
/// it; otherwise the list is written right behind the heading of the section,
/// on a line of its own, and everything else stays.
pub proof fn law_list_goes_below_its_heading(
    a: Seq<char>,
    space: Seq<char>,
    tail: Seq<char>,
    b: Seq<char>,
    list: Seq<Seq<char>>,
)
    requires
        is_whole(a),
        no_heading(a),
        text::all_space(space),
        !space.contains('\n'),
        !tail.contains('\n'),
        tail.len() == 0 || tail.last() != '\r',
        b.len() == 0 || text::first_line(b).len() == 0,
        no_heading(text::after_line(b)),
        !has_auto(a + (space + "[listen]"@ + tail + b)),
    ensures
        saved(a + (space + "[listen]"@ + tail + b), list) == a + (space + "[listen]"@ + "\n"@
            + auto_line(list) + tail + b),
        !has_auto(a) ==> saved(a, list) == a,
{
    let entry = auto_line(list);
    let head = space + "[listen]"@;
    let line = head + tail;
    let rest = text::after_line(b);
    let end = text::line_end(b);
    reveal_strlit("[listen]");
    text::lemma_line(b);
    lemma_headed_later(a, line + b, entry);
    lemma_unheaded(a, entry);
    lemma_unheaded(rest, entry);
    assert(line + end + rest =~= line + b) by {
        assert(end + rest =~= b);
    }
    assert(!line.contains('\n')) by {
        if line.contains('\n') {
            let k = choose|k: int| 0 <= k < line.len() && line[k] == '\n';
            if k < space.len() {
                assert(space[k] == '\n');
            } else if k >= head.len() {
                assert(tail[k - head.len()] == '\n');
            }
        }
    }
    text::lemma_line_unique(line, end, rest);
    let marked = "[listen]"@ + tail;
    assert(line =~= space + marked);
    assert(marked[0] == '[');
    text::lemma_trim_start_past(space, marked);
    assert(marked.subrange(0, 8) =~= "[listen]"@);
    assert(is_heading(line));
    let k = line.len() - marked.len() + 8;
    assert(line.take(k) =~= head);
    assert(line.skip(k) =~= tail);
    assert(heading_with(line, entry) == head + "\n"@ + entry + tail);
    let out = head + "\n"@ + entry + tail;
    assert(headed(line + b, entry) == out + end + rest);
    assert(out + end + rest =~= out + b);
}

/// What is taken out of a list is taken out name by name, and what stays keeps
/// its order.
pub proof fn law_names_go_one_by_one(
    a: Seq<Seq<char>>,
    b: Seq<Seq<char>>,
    other: Seq<Seq<char>>,
    who: Seq<char>,
)
    ensures
        without(a + b, other) == without(a, other) + without(b, other),
        other.contains(who) ==> without(seq![who], other) == Seq::<Seq<char>>::empty(),
        !other.contains(who) ==> without(seq![who], other) == seq![who],
        without(Seq::empty(), other) == Seq::<Seq<char>>::empty(),
    decreases b.len(),
{
    reveal_with_fuel(without, 2);
    assert(seq![who].drop_last() =~= Seq::empty());
    if b.len() == 0 {
        assert(a + b =~= a);
        assert(without(a, other) + without(b, other) =~= without(a, other));
    } else {
        law_names_go_one_by_one(a, b.drop_last(), other, who);
        assert((a + b).drop_last() =~= a + b.drop_last());
        assert((a + b).last() == b.last());
        assert(without(a + b, other) =~= without(a, other) + without(b, other));
    }
}

/// A name is added behind all others, and only where it is not there yet.
pub proof fn law_name_is_added_last(list: Seq<Seq<char>>, who: Seq<char>)
    ensures
        list.contains(who) ==> with_name(list, who) == list,
        !list.contains(who) ==> with_name(list, who) == list + seq![who],
        with_name(with_name(list, who), who) == with_name(list, who),
{
    if !list.contains(who) {
        assert(list.push(who) =~= list + seq![who]);
        assert(list.push(who)[list.len() as int] == who);
    }
}

} // verus!
