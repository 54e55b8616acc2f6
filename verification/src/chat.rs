//! Messages as a chat window shows them: what kind they are, how they are told
//! apart, and which of them are new.
use vstd::prelude::*;
use vstd::std_specs::hash::*;
use vstd::utf8::*;
use std::collections::hash_map::DefaultHasher;
use std::hash::Hasher;
use crate::bytes;
use crate::cell;
use crate::number;
use crate::outside;
use crate::text;

verus! {

// ---------------------------------------------------------------------
// Status and names
// ---------------------------------------------------------------------

/// How far the chat program is.
#[derive(Debug, Clone, Copy, PartialEq, Eq, Structural)]
pub enum WeChatStatus {
    NotRunning,
    WaitingForLogin,
    LoggedIn,
}

impl WeChatStatus {
    /// This status in words.
    pub fn text(&self) -> (r: &'static str)
        ensures
            r@ == match self {
                WeChatStatus::NotRunning => "未运行"@,
                WeChatStatus::WaitingForLogin => "等待扫码登录"@,
                WeChatStatus::LoggedIn => "已登录"@,
            },
    {
        match self {
            WeChatStatus::NotRunning => "未运行",
            WeChatStatus::WaitingForLogin => "等待扫码登录",
            WeChatStatus::LoggedIn => "已登录",
        }
    }
}

/// Whether a name, given with its form in small letters, is that of the chat
/// program.
pub open spec fn names_wechat(name: Seq<char>, lowered: Seq<char>) -> bool {
    text::occurs(lowered, "wechat"@) || text::occurs(lowered, "weixin"@) || text::occurs(
        name,
        "微信"@,
    )
}

/// Whether a name, given with its form in small letters, is that of the main
/// window.
pub open spec fn names_main(name: Seq<char>, lowered: Seq<char>) -> bool {
    lowered == "wechat"@ || lowered == "weixin"@ || name == "微信"@
}

/// Whether a name is that of the chat program.
pub open spec fn wechat_name(name: Seq<char>) -> bool {
    names_wechat(name, outside::lowercase(name))
}

/// Whether a name is that of the main window.
pub open spec fn main_name(name: Seq<char>) -> bool {
    names_main(name, outside::lowercase(name))
}

/// Whether a name, given with its form in small letters, is that of the chat
/// program.
pub fn is_wechat_lowered(name: &str, lowered: &str) -> (r: bool)
    ensures
        r == names_wechat(name@, lowered@),
{
    text::contains(lowered, "wechat") || text::contains(lowered, "weixin") || text::contains(
        name,
        "微信",
    )
}

/// Whether a name, given with its form in small letters, is that of the main
/// window.
pub fn is_wechat_main_lowered(name: &str, lowered: &str) -> (r: bool)
    ensures
        r == names_main(name@, lowered@),
{
    text::same(lowered, "wechat") || text::same(lowered, "weixin") || text::same(name, "微信")
}

/// Whether a name is that of the chat program.
pub fn is_wechat(name: &str) -> (r: bool)
    ensures
        r == wechat_name(name@),
{
    is_wechat_lowered(name, outside::to_lowercase(name).as_str())
}

/// Whether a name is that of the main window, not of a chat's own.
pub fn is_wechat_main(name: &str) -> (r: bool)
    ensures
        r == main_name(name@),
{
    is_wechat_main_lowered(name, outside::to_lowercase(name).as_str())
}

// ---------------------------------------------------------------------
// Messages
// ---------------------------------------------------------------------

/// A message as a chat window shows it.
#[derive(Debug, Clone)]
pub struct ChatMessage {
    /// Its place in the list.
    pub index: i32,
    /// What kind of element shows it.
    pub role: String,
    /// The element's name.
    pub name: String,
    /// The elements inside.
    pub children: Vec<ChatMessageChild>,
    /// What tells it apart from other messages.
    pub msg_id: String,
    /// "sys", "time", "recall" or "friend".
    pub msg_type: String,
    /// Who speaks.
    pub sender: String,
    /// What is said.
    pub content: String,
}

/// An element inside a message.
#[derive(Debug, Clone)]
pub struct ChatMessageChild {
    pub role: String,
    pub name: String,
}

/// A session as the window lists it.
#[derive(Debug, Clone)]
pub struct SessionInfo {
    pub name: String,
    pub has_new: bool,
}

/// An element inside a message, as a mathematical value.
pub struct ChildView {
    pub role: Seq<char>,
    pub name: Seq<char>,
}

/// A message as a chat window shows it, as a mathematical value.
pub struct ItemView {
    pub index: i32,
    pub role: Seq<char>,
    pub name: Seq<char>,
    pub children: Seq<ChildView>,
    pub msg_id: Seq<char>,
    pub msg_type: Seq<char>,
    pub sender: Seq<char>,
    pub content: Seq<char>,
}

impl View for ChatMessageChild {
    type V = ChildView;

    open spec fn view(&self) -> ChildView {
        ChildView { role: self.role@, name: self.name@ }
    }
}

impl View for ChatMessage {
    type V = ItemView;

    open spec fn view(&self) -> ItemView {
        ItemView {
            index: self.index,
            role: self.role@,
            name: self.name@,
            children: cell::views_of(self.children@),
            msg_id: self.msg_id@,
            msg_type: self.msg_type@,
            sender: self.sender@,
            content: self.content@,
        }
    }
}

/// Whether a digit, a colon and a digit stand side by side in a text.
pub open spec fn has_clock(s: Seq<char>) -> bool {
    exists|i: int|
        0 <= i && i + 2 < s.len() && #[trigger] text::is_digit(s[i]) && s[i + 1] == ':'
            && text::is_digit(s[i + 2])
}

/// The English names of days.
pub open spec fn day_names() -> Seq<Seq<char>> {
    seq![
        "Monday"@,
        "Tuesday"@,
        "Wednesday"@,
        "Thursday"@,
        "Friday"@,
        "Saturday"@,
        "Sunday"@,
        "Yesterday"@,
    ]
}

/// Whether a text, trimmed, is short and names a time.
pub open spec fn tells_time(s: Seq<char>) -> bool {
    let t = text::trim(s);
    &&& 0 < bytes::byte_len(t) <= 25
    &&& {
        ||| has_clock(t)
        ||| text::occurs(t, "昨天"@)
        ||| text::occurs(t, "前天"@)
        ||| text::occurs(t, "星期"@)
        ||| text::occurs(t, "年"@) && text::occurs(t, "月"@)
        ||| exists|i: int| 0 <= i < day_names().len() && text::occurs(t, #[trigger] day_names()[i])
    }
}

/// Whether a text tells that a message was taken back.
pub open spec fn tells_recall(s: Seq<char>) -> bool {
    text::occurs(s, "撤回"@) || text::occurs(s, "recalled"@) || text::occurs(s, "revoke"@)
}

/// What is said in a message: the name of its first label or text that has
/// one, else a stand-in.
pub open spec fn said_in(children: Seq<ChildView>, fallback: Seq<char>) -> Seq<char>
    decreases children.len(),
{
    if children.len() == 0 {
        fallback
    } else if (children[0].role == "label"@ || children[0].role == "text"@)
        && children[0].name.len() > 0 {
        children[0].name
    } else {
        said_in(children.skip(1), fallback)
    }
}

/// The name on the last button inside a message that has one.
pub open spec fn button_in(children: Seq<ChildView>) -> Option<Seq<char>>
    decreases children.len(),
{
    if children.len() == 0 {
        None
    } else if children.last().role == "push button"@ && children.last().name.len() > 0 {
        Some(children.last().name)
    } else {
        button_in(children.drop_last())
    }
}

/// The kind, the sender and the content of a message, by the name of its
/// element, the elements inside, whether it has a button, and the name on that.
/// Without a button nobody speaks.
pub open spec fn classified(
    name: Seq<char>,
    children: Seq<ChildView>,
    has_button: bool,
    button_name: Seq<char>,
) -> (Seq<char>, Seq<char>, Seq<char>) {
    if has_button {
        ("friend"@, button_name, said_in(children, name))
    } else if tells_time(name) {
        ("time"@, "SYS"@, name)
    } else if tells_recall(name) {
        ("recall"@, "SYS"@, name)
    } else {
        ("sys"@, "SYS"@, name)
    }
}

/// A third of a place in the list, rounded towards zero.
pub open spec fn bucket(index: int) -> int {
    if index >= 0 {
        index / 3
    } else {
        -((-index) / 3)
    }
}

/// The four bytes of a 32-bit number, the lowest first.
pub open spec fn four_bytes(n: int) -> Seq<u8> {
    let m = n % 0x1_0000_0000;
    seq![
        (m % 256) as u8,
        ((m / 256) % 256) as u8,
        ((m / 65536) % 256) as u8,
        ((m / 16777216) % 256) as u8,
    ]
}

/// What is hashed to tell a message apart: its rough place in the list, and
/// its kind, sender and content, each closed by a byte that no text holds.
pub open spec fn hashed(
    index: int,
    msg_type: Seq<char>,
    sender: Seq<char>,
    content: Seq<char>,
) -> Seq<Seq<u8>> {
    seq![
        four_bytes(bucket(index)),
        encode_utf8(msg_type),
        seq![0xffu8],
        encode_utf8(sender),
        seq![0xffu8],
        encode_utf8(content),
        seq![0xffu8],
    ]
}

/// What tells a message apart: a hash in sixteen hexadecimal digits.
pub open spec fn msg_id_of(
    index: int,
    msg_type: Seq<char>,
    sender: Seq<char>,
    content: Seq<char>,
) -> Seq<char> {
    number::hex_fixed(
        DefaultHasher::spec_finish(hashed(index, msg_type, sender, content)) as nat,
        16,
    )
}

/// The message that an element shows.
pub open spec fn item_of(
    index: i32,
    role: Seq<char>,
    name: Seq<char>,
    children: Seq<ChildView>,
) -> ItemView {
    let c = match button_in(children) {
        Some(button) => classified(name, children, true, button),
        None => classified(name, children, false, Seq::empty()),
    };
    ItemView {
        index,
        role,
        name,
        children,
        msg_id: msg_id_of(index as int, c.0, c.1, c.2),
        msg_type: c.0,
        sender: c.1,
        content: c.2,
    }
}

/// Whether a digit, a colon and a digit stand side by side in a text.
fn shows_clock(s: &str) -> (r: bool)
    ensures
        r == has_clock(s@),
{
    let v = text::to_chars(s);
    let mut i: usize = 0;
    while i < v.len() && v.len() - i > 2
        invariant
            0 <= i <= v@.len(),
            v@ == s@,
            forall|j: int|
                0 <= j < i && j + 2 < s@.len() ==> !(#[trigger] text::is_digit(s@[j]) && s@[j + 1]
                    == ':' && text::is_digit(s@[j + 2])),
        decreases v@.len() - i,
    {
        if '0' <= v[i] && v[i] <= '9' && v[i + 1] == ':' && '0' <= v[i + 2] && v[i + 2] <= '9' {
            assert(text::is_digit(s@[i as int]));
            return true;
        }
        i += 1;
    }
    false
}

/// Whether a text names a day in English.
fn names_day(s: &str) -> (r: bool)
    ensures
        r == exists|i: int|
            0 <= i < day_names().len() && text::occurs(s@, #[trigger] day_names()[i]),
{
    let days: [&str; 8] = [
        "Monday",
        "Tuesday",
        "Wednesday",
        "Thursday",
        "Friday",
        "Saturday",
        "Sunday",
        "Yesterday",
    ];
    let mut i: usize = 0;
    while i < 8
        invariant
            0 <= i <= 8,
            days@.len() == 8,
            forall|j: int| 0 <= j < 8 ==> (#[trigger] days@[j])@ == day_names()[j],
            forall|j: int| 0 <= j < i ==> !text::occurs(s@, #[trigger] day_names()[j]),
        decreases 8 - i,
    {
        assert(days@[i as int]@ == day_names()[i as int]);
        if text::contains(s, days[i]) {
            return true;
        }
        i += 1;
    }
    false
}

/// Whether a text, trimmed, is short and names a time.
pub fn is_time_text(s: &str) -> (r: bool)
    ensures
        r == tells_time(s@),
{
    let trimmed = text::trimmed(s);
    let t = trimmed.as_str();
    let n: usize = bytes::len_bytes(t);
    if n > 25 || n == 0 {
        return false;
    }
    if shows_clock(t) {
        return true;
    }
    if text::contains(t, "昨天") || text::contains(t, "前天") || text::contains(t, "星期") {
        return true;
    }
    if text::contains(t, "年") && text::contains(t, "月") {
        return true;
    }
    names_day(t)
}

/// What is said in a message.
pub fn extract_content(children: &Vec<ChatMessageChild>, fallback: &str) -> (r: String)
    ensures
        r@ == said_in(cell::views_of(children@), fallback@),
{
    let ghost all = cell::views_of(children@);
    let mut i: usize = 0;
    assert(all.skip(0) =~= all);
    while i < children.len()
        invariant
            0 <= i <= children@.len(),
            all == cell::views_of(children@),
            said_in(all, fallback@) == said_in(all.skip(i as int), fallback@),
        decreases children@.len() - i,
    {
        let child = &children[i];
        assert(all.skip(i as int)[0] == child@);
        assert(all.skip(i as int).skip(1) =~= all.skip(i + 1));
        if (text::same(child.role.as_str(), "label") || text::same(child.role.as_str(), "text"))
            && !child.name.as_str().is_empty() {
            return child.name.clone();
        }
        i += 1;
    }
    fallback.to_owned()
}

/// The name on the last button inside a message that has one.
pub fn find_button(children: &Vec<ChatMessageChild>) -> (r: Option<String>)
    ensures
        text::opt_view(r) == button_in(cell::views_of(children@)),
{
    let ghost all = cell::views_of(children@);
    let mut n: usize = children.len();
    assert(all.take(all.len() as int) =~= all);
    while n > 0
        invariant
            0 <= n <= children@.len(),
            all == cell::views_of(children@),
            button_in(all) == button_in(all.take(n as int)),
        decreases n,
    {
        let child = &children[n - 1];
        assert(all.take(n as int).last() == child@);
        assert(all.take(n as int).drop_last() =~= all.take(n - 1));
        if text::same(child.role.as_str(), "push button") && !child.name.as_str().is_empty() {
            return Some(child.name.clone());
        }
        n -= 1;
    }
    None
}

/// The kind, the sender and the content of a message.
pub fn classify_message(
    name: &str,
    children: &Vec<ChatMessageChild>,
    has_button: bool,
    button_name: &str,
) -> (r: (String, String, String))
    ensures
        (r.0@, r.1@, r.2@) == classified(
            name@,
            cell::views_of(children@),
            has_button,
            button_name@,
        ),
{
    if has_button {
        let content = extract_content(children, name);
        ("friend".to_owned(), button_name.to_owned(), content)
    } else if is_time_text(name) {
        ("time".to_owned(), "SYS".to_owned(), name.to_owned())
    } else if text::contains(name, "撤回") || text::contains(name, "recalled")
        || text::contains(name, "revoke") {
        ("recall".to_owned(), "SYS".to_owned(), name.to_owned())
    } else {
        ("sys".to_owned(), "SYS".to_owned(), name.to_owned())
    }
}

/// The four bytes of a rough place in the list, the lowest first.
fn place_bytes(index: i32) -> (r: [u8; 4])
    ensures
        r@ == four_bytes(bucket(index as int)),
{
    let wide: i64 = index as i64;
    let third: i64 = if wide >= 0 {
        wide / 3
    } else {
        -((-wide) / 3)
    };
    let m: u64 = if third >= 0 {
        third as u64
    } else {
        (third + 0x1_0000_0000) as u64
    };
    assert(m as int == bucket(index as int) % 0x1_0000_0000);
    let r: [u8; 4] = [
        (m % 256) as u8,
        ((m / 256) % 256) as u8,
        ((m / 65536) % 256) as u8,
        ((m / 16777216) % 256) as u8,
    ];
    assert(r@ =~= four_bytes(bucket(index as int)));
    r
}

/// What tells a message apart.
pub fn generate_msg_id(index: i32, msg_type: &str, sender: &str, content: &str) -> (r: String)
    ensures
        r@ == msg_id_of(index as int, msg_type@, sender@, content@),
{
    let mut hasher = DefaultHasher::new();
    let end: [u8; 1] = [0xff];
    assert(end@ =~= seq![0xffu8]);
    hasher.write(place_bytes(index).as_slice());
    hasher.write(msg_type.as_bytes());
    hasher.write(end.as_slice());
    hasher.write(sender.as_bytes());
    hasher.write(end.as_slice());
    hasher.write(content.as_bytes());
    hasher.write(end.as_slice());
    assert(hasher@ =~= hashed(index as int, msg_type@, sender@, content@));
    number::hex_padded(hasher.finish(), 16)
}

/// The message that an element shows.
pub fn parse_message_item(
    index: i32,
    role: &str,
    name: &str,
    children: Vec<ChatMessageChild>,
) -> (r: ChatMessage)
    ensures
        r@ == item_of(index, role@, name@, cell::views_of(children@)),
{
    let (msg_type, sender, content) = match find_button(&children) {
        Some(button) => classify_message(name, &children, true, button.as_str()),
        None => classify_message(name, &children, false, ""),
    };
    proof {
        reveal_strlit("");
        assert(""@ =~= Seq::<char>::empty());
    }
    let msg_id = generate_msg_id(index, msg_type.as_str(), sender.as_str(), content.as_str());
    ChatMessage {
        index,
        role: role.to_owned(),
        name: name.to_owned(),
        children,
        msg_id,
        msg_type,
        sender,
        content,
    }
}

impl ChatMessage {
    /// A copy of this message.
    pub fn copy(&self) -> (r: ChatMessage)
        ensures
            r@ == self@,
    {
        let mut children: Vec<ChatMessageChild> = Vec::new();
        let mut i: usize = 0;
        while i < self.children.len()
            invariant
                0 <= i <= self.children@.len(),
                children@.len() == i,
                forall|j: int| 0 <= j < i ==> (#[trigger] children@[j])@ == self.children@[j]@,
            decreases self.children@.len() - i,
        {
            children.push(
                ChatMessageChild {
                    role: self.children[i].role.clone(),
                    name: self.children[i].name.clone(),
                },
            );
            i += 1;
        }
        assert(cell::views_of(children@) =~= cell::views_of(self.children@));
        ChatMessage {
            index: self.index,
            role: self.role.clone(),
            name: self.name.clone(),
            children,
            msg_id: self.msg_id.clone(),
            msg_type: self.msg_type.clone(),
            sender: self.sender.clone(),
            content: self.content.clone(),
        }
    }
}

/// Two messages at neighbouring places with the same kind, sender and content
/// are told apart only by which three places they stand in: moving a message
/// within them keeps its mark.
pub proof fn law_id_is_stable(
    i: int,
    j: int,
    msg_type: Seq<char>,
    sender: Seq<char>,
    content: Seq<char>,
)
    requires
        bucket(i) == bucket(j),
    ensures
        msg_id_of(i, msg_type, sender, content) == msg_id_of(j, msg_type, sender, content),
{
}

// ---------------------------------------------------------------------
// Laws on messages as a chat window shows them
// ---------------------------------------------------------------------

/// A name is that of the chat program wherever one of its three names stands in
/// it, and the main window has one of the three as its whole name.
pub proof fn law_program_is_known_by_three_names(
    before: Seq<char>,
    after: Seq<char>,
    name: Seq<char>,
    lowered: Seq<char>,
)
    ensures
        names_wechat(name, before + "wechat"@ + after),
        names_wechat(name, before + "weixin"@ + after),
        names_wechat(before + "微信"@ + after, lowered),
        names_main(name, "wechat"@),
        names_main(name, "weixin"@),
        names_main("微信"@, lowered),
        names_main(name, lowered) ==> names_wechat(name, lowered),
        names_main(name, lowered) ==> lowered.len() == 6 || name.len() == 2,
        lowered.len() < 6 && name.len() < 2 ==> !names_wechat(name, lowered),
{
    text::law_occurs_is_in_between(before, "wechat"@, after);
    text::law_occurs_is_in_between(before, "weixin"@, after);
    text::law_occurs_is_in_between(before, "微信"@, after);
    reveal_strlit("wechat");
    reveal_strlit("weixin");
    reveal_strlit("微信");
    let none = Seq::<char>::empty();
    text::law_occurs_is_in_between(none, "wechat"@, none);
    text::law_occurs_is_in_between(none, "weixin"@, none);
    text::law_occurs_is_in_between(none, "微信"@, none);
    assert(none + "wechat"@ + none =~= "wechat"@);
    assert(none + "weixin"@ + none =~= "weixin"@);
    assert(none + "微信"@ + none =~= "微信"@);
}

/// Whether a text is one of the words that only a time has.
pub open spec fn is_time_word(s: Seq<char>) -> bool {
    ||| s == "昨天"@
    ||| s == "前天"@
    ||| s == "星期"@
    ||| s == "Monday"@
    ||| s == "Tuesday"@
    ||| s == "Wednesday"@
    ||| s == "Thursday"@
    ||| s == "Friday"@
    ||| s == "Saturday"@
    ||| s == "Sunday"@
    ||| s == "Yesterday"@
}

/// A short text is a time wherever two digits with a colon between them stand in
/// it, or one of the words that only a time has, or both a year and a month,
/// whatever white space is around it.
pub proof fn law_times_are_told(
    before: Seq<char>,
    s: Seq<char>,
    after: Seq<char>,
    head: Seq<char>,
    tail: Seq<char>,
    hour: char,
    minute: char,
    word: Seq<char>,
)
    requires
        text::all_space(before),
        text::all_space(after),
        s.len() > 0,
        !text::is_space(s[0]),
        !text::is_space(s.last()),
        bytes::byte_len(s) <= 25,
        s == head + seq![hour, ':', minute] + tail && text::is_digit(hour) && text::is_digit(minute)
            || s == head + word + tail && is_time_word(word) || text::occurs(s, "年"@)
            && text::occurs(s, "月"@),
    ensures
        tells_time(before + s + after),
{
    text::law_trimmed_between(before, s, after);
    bytes::lemma_byte_len_take(s, 0, s.len() as int);
    assert(s.take(s.len() as int) =~= s);
    if s == head + seq![hour, ':', minute] + tail && text::is_digit(hour) && text::is_digit(minute) {
        let i = head.len() as int;
        assert(text::is_digit(s[i]) && s[i + 1] == ':' && text::is_digit(s[i + 2]));
        assert(has_clock(s));
    } else if s == head + word + tail && is_time_word(word) {
        text::law_occurs_is_in_between(head, word, tail);
        let d = day_names();
        assert(d[0] == "Monday"@ && d[1] == "Tuesday"@ && d[2] == "Wednesday"@ && d[3]
            == "Thursday"@ && d[4] == "Friday"@ && d[5] == "Saturday"@ && d[6] == "Sunday"@ && d[7]
            == "Yesterday"@);
    }
}

/// Nothing else is a time: not a blank text, not one of more than twenty-five
/// bytes, and not one without a colon and without any of the words.
pub proof fn law_only_times_are_told(s: Seq<char>)
    requires
        text::all_space(s) || bytes::byte_len(text::trim(s)) > 25 || !text::trim(s).contains(':')
            && (!text::occurs(text::trim(s), "年"@) || !text::occurs(text::trim(s), "月"@))
            && forall|w: Seq<char>| is_time_word(w) ==> !#[trigger] text::occurs(text::trim(s), w),
    ensures
        !tells_time(s),
{
    let t = text::trim(s);
    if text::all_space(s) {
        let cut = text::law_trim_takes_white_space(s);
        assert(t =~= Seq::empty());
    } else if bytes::byte_len(t) <= 25 {
        if has_clock(t) {
            let i = choose|i: int|
                0 <= i && i + 2 < t.len() && #[trigger] text::is_digit(t[i]) && t[i + 1] == ':'
                    && text::is_digit(t[i + 2]);
            assert(t[i + 1] == ':');
            assert(t.contains(':'));
        }
        assert(is_time_word("昨天"@) && is_time_word("前天"@) && is_time_word("星期"@));
        assert forall|i: int| 0 <= i < day_names().len() implies !text::occurs(
            t,
            #[trigger] day_names()[i],
        ) by {
            assert(is_time_word(day_names()[i]));
        }
    }
}

/// Whether a part of a message is what was said.
pub open spec fn says(c: ChildView) -> bool {
    (c.role == "label"@ || c.role == "text"@) && c.name != Seq::<char>::empty()
}

/// Whether a part of a message is the button of who said it.
pub open spec fn is_button(c: ChildView) -> bool {
    c.role == "push button"@ && c.name != Seq::<char>::empty()
}

/// What was said is the first part that says something, whatever follows; a
/// message whose parts say nothing says its own name.
pub proof fn law_first_words_are_said(
    before: Seq<ChildView>,
    c: ChildView,
    after: Seq<ChildView>,
    fallback: Seq<char>,
)
    requires
        forall|i: int| 0 <= i < before.len() ==> !says(#[trigger] before[i]),
    ensures
        says(c) ==> said_in(before + seq![c] + after, fallback) == c.name,
        said_in(before, fallback) == fallback,
    decreases before.len(),
{
    let all = before + seq![c] + after;
    if before.len() == 0 {
        assert(all[0] == c);
        if says(c) {
            assert(c.name.len() > 0) by {
                if c.name.len() == 0 {
                    assert(c.name =~= Seq::empty());
                }
            }
        }
    } else {
        let rest = before.skip(1);
        assert forall|i: int| 0 <= i < rest.len() implies !says(#[trigger] rest[i]) by {
            assert(rest[i] == before[i + 1]);
        }
        law_first_words_are_said(rest, c, after, fallback);
        assert(all[0] == before[0]);
        assert(all.skip(1) =~= rest + seq![c] + after);
        assert(!says(before[0]));
        if before[0].name.len() > 0 {
            assert(before[0].name != Seq::<char>::empty());
        }
    }
}

/// Who said it is the last button that has a name, whatever stands before it;
/// without such a button nobody did.
pub proof fn law_last_button_is_the_sender(
    before: Seq<ChildView>,
    c: ChildView,
    after: Seq<ChildView>,
)
    requires
        forall|i: int| 0 <= i < after.len() ==> !is_button(#[trigger] after[i]),
    ensures
        is_button(c) ==> button_in(before + seq![c] + after) == Some(c.name),
        button_in(after) is None,
    decreases after.len(),
{
    let all = before + seq![c] + after;
    if after.len() == 0 {
        assert(all.last() == c);
        if is_button(c) {
            assert(c.name.len() > 0) by {
                if c.name.len() == 0 {
                    assert(c.name =~= Seq::empty());
                }
            }
        }
    } else {
        let rest = after.drop_last();
        assert forall|i: int| 0 <= i < rest.len() implies !is_button(#[trigger] rest[i]) by {
            assert(rest[i] == after[i]);
        }
        law_last_button_is_the_sender(before, c, rest);
        assert(all.last() == after.last());
        assert(all.drop_last() =~= before + seq![c] + rest);
        assert(!is_button(after[after.len() - 1]));
        if after.last().name.len() > 0 {
            assert(after.last().name != Seq::<char>::empty());
        }
    }
}

/// A message keeps what the window shows of it. With a button it is from the one
/// the button names, whatever it says; without one it is from the program, says
/// its own name, and is a time, the taking back of a message, or neither.
pub proof fn law_message_is_classified(
    index: i32,
    role: Seq<char>,
    name: Seq<char>,
    children: Seq<ChildView>,
)
    ensures
        ({
            let m = item_of(index, role, name, children);
            &&& m.index == index && m.role == role && m.name == name && m.children == children
            &&& m.msg_type == "friend"@ <==> button_in(children) is Some
            &&& button_in(children) matches Some(b) ==> m.sender == b && m.content == said_in(
                children,
                name,
            )
            &&& button_in(children) is None ==> m.sender == "SYS"@ && m.content == name
            &&& m.msg_type == "time"@ <==> button_in(children) is None && tells_time(name)
            &&& m.msg_type == "recall"@ <==> button_in(children) is None && !tells_time(name) && (
            text::occurs(name, "撤回"@) || text::occurs(name, "recalled"@) || text::occurs(
                name,
                "revoke"@,
            ))
            &&& m.msg_type == "friend"@ || m.msg_type == "time"@ || m.msg_type == "recall"@
                || m.msg_type == "sys"@
            &&& m.msg_id == msg_id_of(index as int, m.msg_type, m.sender, m.content)
        }),
{
    reveal_strlit("friend");
    reveal_strlit("time");
    reveal_strlit("recall");
    reveal_strlit("sys");
    assert("friend"@[0] == 'f' && "time"@[0] == 't' && "recall"@[0] == 'r' && "sys"@[0] == 's');
}

/// Three places in a row count as one, from zero up and from zero down.
pub proof fn law_three_places_are_one(q: int, k: int)
    requires
        q >= 0,
        0 <= k < 3,
    ensures
        bucket(3 * q + k) == q,
        bucket(-(3 * q + k)) == -q,
{
}

/// Four bytes give back the number they stand for, the lowest first.
pub proof fn law_four_bytes_count(n: int)
    requires
        0 <= n < 0x1_0000_0000,
    ensures
        four_bytes(n).len() == 4,
        four_bytes(n)[0] + 256 * four_bytes(n)[1] + 65536 * four_bytes(n)[2] + 16777216
            * four_bytes(n)[3] == n,
        four_bytes(n - 0x1_0000_0000) == four_bytes(n),
{
    assert((n - 0x1_0000_0000) % 0x1_0000_0000 == n % 0x1_0000_0000) by {
        assert(n % 0x1_0000_0000 == n);
    }
    let a = (n / 256) % 256;
    let b = (n / 65536) % 256;
    let c = (n / 16777216) % 256;
    assert(n == n % 256 + 256 * (n / 256));
    assert(n / 256 == a + 256 * ((n / 256) / 256));
    assert((n / 256) / 256 == n / 65536);
    assert(n / 65536 == b + 256 * ((n / 65536) / 256));
    assert((n / 65536) / 256 == n / 16777216);
}

/// What tells two messages apart: place, kind, sender and content are all among
/// the bytes that the number of a message is made of, each text with its end
/// marked.
pub proof fn law_every_part_is_hashed(
    i: int,
    j: int,
    msg_type: Seq<char>,
    other_type: Seq<char>,
    sender: Seq<char>,
    other_sender: Seq<char>,
    content: Seq<char>,
    other_content: Seq<char>,
)
    requires
        hashed(i, msg_type, sender, content) == hashed(j, other_type, other_sender, other_content),
    ensures
        four_bytes(bucket(i)) == four_bytes(bucket(j)),
        encode_utf8(msg_type) == encode_utf8(other_type),
        encode_utf8(sender) == encode_utf8(other_sender),
        encode_utf8(content) == encode_utf8(other_content),
{
    let a = hashed(i, msg_type, sender, content);
    let b = hashed(j, other_type, other_sender, other_content);
    assert(a[0] == b[0] && a[1] == b[1] && a[3] == b[3] && a[5] == b[5]);
}

} // verus!
