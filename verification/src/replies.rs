//! What is answered: to requests over the interface, to commands from afar,
//! and at the console.
use vstd::prelude::*;
use crate::cell;
use crate::commands;
use crate::commands::{ConsoleCommand, ConsoleView, RemoteCommand, RemoteView};
use crate::config;
use crate::config::ReloadPlan;
use crate::contacts::{DbSessionInfo, SessionView};
use crate::number;
use crate::outside;
use crate::text;

verus! {

// ---------------------------------------------------------------------
// What the input worker says
// ---------------------------------------------------------------------

/// What becomes of a request to listen to a chat.
#[derive(Debug, Clone)]
pub enum AddReply {
    Added,
    NotAdded,
    Failed(String),
    /// The worker dropped the request.
    Closed,
    /// There is no worker.
    Stopped,
}

/// What becomes of a request to stop listening to a chat.
#[derive(Debug, Clone, Copy)]
pub enum RemoveReply {
    Removed,
    NotFound,
    /// The worker dropped the request.
    Closed,
    /// There is no worker.
    Stopped,
}

/// What becomes of a message to send.
#[derive(Debug, Clone)]
pub enum SendReply {
    Done { sent: bool, verified: bool, message: String },
    Failed(String),
    /// The worker dropped the request.
    Closed,
    /// There is no worker.
    Stopped,
}

/// What becomes of a request to go to a chat.
#[derive(Debug, Clone)]
pub enum ChatReply {
    Entered(String),
    NotFound,
    Failed(String),
    /// The worker dropped the request.
    Closed,
    /// There is no worker.
    Stopped,
}

// ---------------------------------------------------------------------
// The interface
// ---------------------------------------------------------------------

/// An error of the interface: a status code and a text.
#[derive(Debug, Clone)]
pub struct ApiError {
    pub status: u16,
    pub message: String,
}

/// An error of the interface as a mathematical value.
pub struct ApiErrorView {
    pub status: u16,
    pub message: Seq<char>,
}

impl View for ApiError {
    type V = ApiErrorView;

    open spec fn view(&self) -> ApiErrorView {
        ApiErrorView { status: self.status, message: self.message@ }
    }
}

/// The error of a part that is not there.
pub open spec fn unavailable_error(message: Seq<char>) -> ApiErrorView {
    ApiErrorView { status: 503, message }
}

/// The error of a part that failed.
pub open spec fn internal_error(message: Seq<char>) -> ApiErrorView {
    ApiErrorView { status: 500, message }
}

/// The error where there is no input worker.
pub open spec fn no_worker() -> ApiErrorView {
    unavailable_error("InputEngine actor 已停止"@)
}

/// The error where the input worker drops a request.
pub open spec fn worker_gone() -> ApiErrorView {
    internal_error("actor 响应通道已关闭"@)
}

/// Two texts one after the other.
fn cat(a: &str, b: &str) -> (r: String)
    ensures
        r@ == a@ + b@,
{
    let mut s = a.to_owned();
    s.append(b);
    s
}

impl ApiError {
    /// The error of a part that is not there.
    pub fn unavailable(message: &str) -> (r: ApiError)
        ensures
            r@ == unavailable_error(message@),
    {
        ApiError { status: 503, message: message.to_owned() }
    }

    /// The error of a part that failed.
    pub fn internal(message: &str) -> (r: ApiError)
        ensures
            r@ == internal_error(message@),
    {
        ApiError { status: 500, message: message.to_owned() }
    }

    /// The error of a part that failed for a reason.
    pub fn failed(what: &str, reason: &str) -> (r: ApiError)
        ensures
            r@ == internal_error(what@ + reason@),
    {
        ApiError { status: 500, message: cat(what, reason) }
    }
}

/// The answer to a message to send.
#[derive(Debug, Clone)]
pub struct SendResponse {
    pub sent: bool,
    pub verified: bool,
    pub message: String,
}

/// The answer to a request to go to a chat.
#[derive(Debug, Clone)]
pub struct ChatResponse {
    pub success: bool,
    pub chat_name: Option<String>,
}

/// The answer to a request about listening.
#[derive(Debug, Clone)]
pub struct ListenResponse {
    pub success: bool,
    pub message: String,
}

/// The answer to something to send: whether it was sent, whether it was seen
/// then, and what is told of it. What the database showed of it counts more than
/// what the window showed.
pub open spec fn send_answer(reply: SendReply, in_db: Option<bool>, what: Seq<char>) -> Result<
    (bool, bool, Seq<char>),
    ApiErrorView,
> {
    match reply {
        SendReply::Done { sent, verified, message } => Ok(
            (
                sent,
                match in_db {
                    Some(seen) => seen,
                    None => verified,
                },
                message@,
            ),
        ),
        SendReply::Failed(e) => Err(internal_error(what + e@)),
        SendReply::Closed => Err(worker_gone()),
        SendReply::Stopped => Err(no_worker()),
    }
}

/// The answer to a request to go to a chat: whether it was entered, and its
/// name then.
pub open spec fn chat_answer(reply: ChatReply) -> Result<(bool, Option<Seq<char>>), ApiErrorView> {
    match reply {
        ChatReply::Entered(name) => Ok((true, Some(name@))),
        ChatReply::NotFound => Ok((false, None)),
        ChatReply::Failed(e) => Err(internal_error("切换聊天失败: "@ + e@)),
        ChatReply::Closed => Err(worker_gone()),
        ChatReply::Stopped => Err(no_worker()),
    }
}

/// The answer to a request to listen to a chat: whether that worked, and what is
/// told of it.
pub open spec fn add_answer(who: Seq<char>, reply: AddReply) -> Result<
    (bool, Seq<char>),
    ApiErrorView,
> {
    match reply {
        AddReply::Added => Ok((true, "已添加监听: "@ + who)),
        AddReply::NotAdded => Ok((false, "添加监听失败: "@ + who)),
        AddReply::Failed(e) => Err(internal_error("添加监听错误: "@ + e@)),
        AddReply::Closed => Err(worker_gone()),
        AddReply::Stopped => Err(no_worker()),
    }
}

/// The answer to a request to stop listening to a chat.
pub open spec fn remove_answer(who: Seq<char>, reply: RemoveReply) -> (bool, Seq<char>) {
    if reply is Removed {
        (true, "已移除监听: "@ + who)
    } else {
        (false, "未找到监听: "@ + who)
    }
}

/// The answer to a message to send. What the database showed of it counts more
/// than what the window showed.
pub fn send_response(reply: &SendReply, in_db: Option<bool>) -> (r: Result<SendResponse, ApiError>)
    ensures
        match (r, send_answer(*reply, in_db, "发送失败: "@)) {
            (Ok(a), Ok(b)) => (a.sent, a.verified, a.message@) == b,
            (Err(e), Err(f)) => e@ == f,
            _ => false,
        },
{
    match reply {
        SendReply::Done { sent, verified, message } => Ok(
            SendResponse {
                sent: *sent,
                verified: match in_db {
                    Some(seen) => seen,
                    None => *verified,
                },
                message: message.clone(),
            },
        ),
        SendReply::Failed(e) => Err(ApiError::failed("发送失败: ", e.as_str())),
        SendReply::Closed => Err(ApiError::internal("actor 响应通道已关闭")),
        SendReply::Stopped => Err(ApiError::unavailable("InputEngine actor 已停止")),
    }
}

/// The answer to a picture to send.
pub fn send_image_response(reply: &SendReply) -> (r: Result<SendResponse, ApiError>)
    ensures
        match (r, send_answer(*reply, None, "发送图片失败: "@)) {
            (Ok(a), Ok(b)) => (a.sent, a.verified, a.message@) == b,
            (Err(e), Err(f)) => e@ == f,
            _ => false,
        },
{
    match reply {
        SendReply::Failed(e) => Err(ApiError::failed("发送图片失败: ", e.as_str())),
        _ => send_response(reply, None),
    }
}

/// The answer to a request to go to a chat.
pub fn chat_response(reply: &ChatReply) -> (r: Result<ChatResponse, ApiError>)
    ensures
        match (r, chat_answer(*reply)) {
            (Ok(a), Ok(b)) => (a.success, text::opt_view(a.chat_name)) == b,
            (Err(e), Err(f)) => e@ == f,
            _ => false,
        },
{
    match reply {
        ChatReply::Entered(name) => Ok(
            ChatResponse { success: true, chat_name: Some(name.clone()) },
        ),
        ChatReply::NotFound => Ok(ChatResponse { success: false, chat_name: None }),
        ChatReply::Failed(e) => Err(ApiError::failed("切换聊天失败: ", e.as_str())),
        ChatReply::Closed => Err(ApiError::internal("actor 响应通道已关闭")),
        ChatReply::Stopped => Err(ApiError::unavailable("InputEngine actor 已停止")),
    }
}

/// The answer to a request to listen to a chat.
pub fn add_response(who: &str, reply: &AddReply) -> (r: Result<ListenResponse, ApiError>)
    ensures
        match (r, add_answer(who@, *reply)) {
            (Ok(a), Ok(b)) => (a.success, a.message@) == b,
            (Err(e), Err(f)) => e@ == f,
            _ => false,
        },
{
    match reply {
        AddReply::Added => Ok(
            ListenResponse { success: true, message: cat("已添加监听: ", who) },
        ),
        AddReply::NotAdded => Ok(
            ListenResponse { success: false, message: cat("添加监听失败: ", who) },
        ),
        AddReply::Failed(e) => Err(ApiError::failed("添加监听错误: ", e.as_str())),
        AddReply::Closed => Err(ApiError::internal("actor 响应通道已关闭")),
        AddReply::Stopped => Err(ApiError::unavailable("InputEngine actor 已停止")),
    }
}

/// The answer to a request to stop listening to a chat: whatever goes wrong,
/// the chat counts as not found.
pub fn remove_response(who: &str, reply: RemoveReply) -> (r: ListenResponse)
    ensures
        (r.success, r.message@) == remove_answer(who@, reply),
{
    match reply {
        RemoveReply::Removed => ListenResponse {
            success: true,
            message: cat("已移除监听: ", who),
        },
        _ => ListenResponse { success: false, message: cat("未找到监听: ", who) },
    }
}

// ---------------------------------------------------------------------
// Pictures
// ---------------------------------------------------------------------

/// The name of a picture where none is given.
pub fn default_image_name() -> (r: String)
    ensures
        r@ == "image.png"@,
{
    "image.png".to_owned()
}

/// Sixteen bits that differ from call to call, from parts of the time.
pub fn rand_u16(nanos: u32, millis: u64) -> (r: u16)
    ensures
        r == (nanos as u16) ^ (millis as u16),
{
    let mixed: u32 = nanos ^ (millis as u32);
    assert((nanos ^ (millis as u32)) as u16 == (nanos as u16) ^ (millis as u16)) by (bit_vector);
    mixed as u16
}

/// What stands behind the last dot of a name, or the usual ending where there
/// is no dot.
pub open spec fn extension(name: Seq<char>) -> Seq<char> {
    match text::last_index(name, '.') {
        Some(i) => name.skip(i + 1),
        None => "png"@,
    }
}

/// Where a picture is put for sending.
pub open spec fn picture_path(millis: nat, salt: nat, name: Seq<char>) -> Seq<char> {
    "/tmp/mimicwx_img_"@ + number::dec(millis) + "_"@ + number::hex_fixed(salt, 4) + "."@
        + extension(name)
}

/// Where a picture is put for sending, by the time, a random number and its
/// name.
pub fn image_path(millis: u64, salt: u16, name: &str) -> (r: String)
    ensures
        r@ == picture_path(millis as nat, salt as nat, name@),
{
    let v = text::to_chars(name);
    let ending = match text::find_last(&v, '.') {
        Some(i) => {
            assert(i < v.len());
            let e = text::cut(&v, i + 1, v.len());
            assert(e@ =~= name@.skip(i + 1));
            e
        },
        None => "png".to_owned(),
    };
    let mut s = "/tmp/mimicwx_img_".to_owned();
    s.append(number::decimal(millis).as_str());
    s.append("_");
    s.append(number::hex_padded(salt as u64, 4).as_str());
    s.append(".");
    s.append(ending.as_str());
    s
}

/// The bytes of a picture, from what decoding its text gave.
pub fn image_from(decoded: Result<Vec<u8>, String>) -> (r: Result<Vec<u8>, ApiError>)
    ensures
        match decoded {
            Ok(data) => r is Ok && r->Ok_0@ == data@,
            Err(e) => r is Err && r->Err_0@ == internal_error("base64 解码失败: "@ + e@),
        },
{
    match decoded {
        Ok(data) => Ok(data),
        Err(e) => Err(ApiError::failed("base64 解码失败: ", e.as_str())),
    }
}

/// The bytes of a picture that comes in base64.
pub fn decode_image(file: &str) -> (r: Result<Vec<u8>, ApiError>)
    ensures
        match outside::base64_decoded(file@) {
            Ok(data) => r is Ok && r->Ok_0@ == data,
            Err(e) => r is Err && r->Err_0@ == internal_error("base64 解码失败: "@ + e),
        },
{
    image_from(outside::base64_decode(file))
}

/// How deep a tree is shown: as deep as asked for, five levels where nothing
/// readable is asked, and fifteen at most.
pub open spec fn depth_shown(depth: Option<Seq<char>>) -> int {
    let asked = match depth {
        Some(d) => match number::read_unsigned(d, u32::MAX as int) {
            Some(n) => n,
            None => 5,
        },
        None => 5,
    };
    if asked < 15 {
        asked
    } else {
        15
    }
}

/// How deep a tree is shown.
pub fn tree_depth(depth: &Option<String>) -> (r: u32)
    ensures
        r == depth_shown(text::opt_view(*depth)),
{
    let asked: u32 = match depth {
        Some(d) => match number::parse_u32(d.as_str()) {
            Some(n) => n,
            None => 5,
        },
        None => 5,
    };
    if asked < 15 {
        asked
    } else {
        15
    }
}

// ---------------------------------------------------------------------
// Push connections
// ---------------------------------------------------------------------

/// What happens on a push connection.
#[derive(Debug, Clone)]
pub enum WsEvent {
    /// A text to push.
    Push(String),
    /// No more texts will come, or some were missed.
    PushEnded,
    /// The other side closed the connection, or it is gone.
    PeerClosed,
    /// The other side sent something else.
    PeerOther,
    /// Time for a sign of life.
    Tick,
}

/// What is done on a push connection.
#[derive(Debug, Clone)]
pub enum WsAction {
    Send(String),
    Ping,
    Nothing,
    Close,
}

/// How often a push connection shows a sign of life, in seconds.
pub const WS_PING_SECS: u64 = 30;

/// What an event on a push connection calls for.
pub open spec fn ws_reaction(event: WsEvent) -> WsAction {
    match event {
        WsEvent::Push(t) => WsAction::Send(t),
        WsEvent::PushEnded => WsAction::Close,
        WsEvent::PeerClosed => WsAction::Close,
        WsEvent::PeerOther => WsAction::Nothing,
        WsEvent::Tick => WsAction::Ping,
    }
}

/// What is done on a push connection for an event.
pub fn ws_step(event: WsEvent) -> (r: WsAction)
    ensures
        r == ws_reaction(event),
{
    match event {
        WsEvent::Push(t) => WsAction::Send(t),
        WsEvent::PushEnded => WsAction::Close,
        WsEvent::PeerClosed => WsAction::Close,
        WsEvent::PeerOther => WsAction::Nothing,
        WsEvent::Tick => WsAction::Ping,
    }
}

// ---------------------------------------------------------------------
// Commands from afar
// ---------------------------------------------------------------------

/// The word for whether the database is there.
pub open spec fn db_word(available: bool) -> Seq<char> {
    if available {
        "可用"@
    } else {
        "不可用"@
    }
}

/// The report on the state, for a command from afar.
pub open spec fn remote_status_text(
    status: Seq<char>,
    db: bool,
    contacts: nat,
    listening: nat,
    listed: Seq<char>,
    uptime: nat,
    version: Seq<char>,
) -> Seq<char> {
    "📊 微信: "@ + status + "\n📊 数据库: "@ + db_word(db) + " | 联系人: "@ + number::dec(contacts)
        + "\n📊 监听: "@ + number::dec(listening) + " 个 "@ + listed + "\n📊 运行: "@
        + number::dec(uptime / 3600) + "h"@ + number::dec((uptime % 3600) / 60) + "m | v"@ + version
}

/// The word for whether the database is there.
fn db_text(available: bool) -> (r: &'static str)
    ensures
        r@ == db_word(available),
{
    if available {
        "可用"
    } else {
        "不可用"
    }
}

/// The report on the state, for a command from afar, where the text for the
/// list of chats is given.
pub fn remote_status_with(
    status: &str,
    db: bool,
    contacts: usize,
    listening: usize,
    listed: &str,
    uptime: u64,
    version: &str,
) -> (r: String)
    ensures
        r@ == remote_status_text(
            status@,
            db,
            contacts as nat,
            listening as nat,
            listed@,
            uptime as nat,
            version@,
        ),
{
    let mut s = "📊 微信: ".to_owned();
    s.append(status);
    s.append("\n📊 数据库: ");
    s.append(db_text(db));
    s.append(" | 联系人: ");
    s.append(number::decimal(contacts as u64).as_str());
    s.append("\n📊 监听: ");
    s.append(number::decimal(listening as u64).as_str());
    s.append(" 个 ");
    s.append(listed);
    s.append("\n📊 运行: ");
    s.append(number::decimal(uptime / 3600).as_str());
    s.append("h");
    s.append(number::decimal((uptime % 3600) / 60).as_str());
    s.append("m | v");
    s.append(version);
    s
}

/// The report on the state, for a command from afar.
pub fn remote_status(
    status: &str,
    db: bool,
    contacts: usize,
    listening: &Vec<String>,
    uptime: u64,
    version: &str,
) -> (r: String)
    ensures
        r@ == remote_status_text(
            status@,
            db,
            contacts as nat,
            listening@.len(),
            outside::debug_text(text::views(listening@)),
            uptime as nat,
            version@,
        ),
{
    let listed = outside::debug_list(listening);
    assert(text::views(listening@) =~= Seq::new(listening@.len(), |i: int| listening@[i]@));
    remote_status_with(status, db, contacts, listening.len(), listed.as_str(), uptime, version)
}

/// What is told from afar of listening to a chat.
pub open spec fn told_of_adding(who: Seq<char>, reply: AddReply) -> Seq<char> {
    match reply {
        AddReply::Added => "✅ 监听已添加: "@ + who,
        AddReply::NotAdded => "⚠️ 添加失败: "@ + who,
        AddReply::Failed(e) => "⚠️ 错误: "@ + e@,
        AddReply::Closed => "⚠️ actor 响应通道已关闭"@,
        AddReply::Stopped => "⚠️ InputEngine 不可用"@,
    }
}

/// What is told from afar of listening to a chat no more.
pub open spec fn told_of_removing(who: Seq<char>, reply: RemoveReply) -> Seq<char> {
    match reply {
        RemoveReply::Removed => "✅ 监听已移除: "@ + who,
        RemoveReply::NotFound => "⚠️ 未找到监听: "@ + who,
        RemoveReply::Closed => "⚠️ actor 响应通道已关闭"@,
        RemoveReply::Stopped => "⚠️ InputEngine 不可用"@,
    }
}

/// What is told from afar of sending a message.
pub open spec fn told_of_sending(reply: SendReply) -> Seq<char> {
    match reply {
        SendReply::Done { sent, verified, message } => if sent {
            "✅ "@ + message@
        } else {
            "⚠️ "@ + message@
        },
        SendReply::Failed(e) => "⚠️ 发送失败: "@ + e@,
        SendReply::Closed => "⚠️ actor 响应通道已关闭"@,
        SendReply::Stopped => "⚠️ InputEngine 不可用"@,
    }
}

/// The answer to a command from afar to listen to a chat.
pub fn remote_add_text(who: &str, reply: &AddReply) -> (r: String)
    ensures
        r@ == told_of_adding(who@, *reply),
{
    match reply {
        AddReply::Added => cat("✅ 监听已添加: ", who),
        AddReply::NotAdded => cat("⚠️ 添加失败: ", who),
        AddReply::Failed(e) => cat("⚠️ 错误: ", e.as_str()),
        AddReply::Closed => "⚠️ actor 响应通道已关闭".to_owned(),
        AddReply::Stopped => "⚠️ InputEngine 不可用".to_owned(),
    }
}

/// The answer to a command from afar to stop listening to a chat.
pub fn remote_remove_text(who: &str, reply: RemoveReply) -> (r: String)
    ensures
        r@ == told_of_removing(who@, reply),
{
    match reply {
        RemoveReply::Removed => cat("✅ 监听已移除: ", who),
        RemoveReply::NotFound => cat("⚠️ 未找到监听: ", who),
        RemoveReply::Closed => "⚠️ actor 响应通道已关闭".to_owned(),
        RemoveReply::Stopped => "⚠️ InputEngine 不可用".to_owned(),
    }
}

/// The answer to a command from afar to send a message.
pub fn remote_send_text(reply: &SendReply) -> (r: String)
    ensures
        r@ == told_of_sending(*reply),
{
    match reply {
        SendReply::Done { sent, verified, message } => if *sent {
            cat("✅ ", message.as_str())
        } else {
            cat("⚠️ ", message.as_str())
        },
        SendReply::Failed(e) => cat("⚠️ 发送失败: ", e.as_str()),
        SendReply::Closed => "⚠️ actor 响应通道已关闭".to_owned(),
        SendReply::Stopped => "⚠️ InputEngine 不可用".to_owned(),
    }
}

/// The answer to a command from afar that is told already; nothing where
/// something has to be done first.
pub open spec fn remote_answer(cmd: RemoteView) -> Option<Seq<char>> {
    match cmd {
        RemoteView::AtMode => Some("📢 已发送仅@模式切换指令"@),
        RemoteView::ListenUsage => Some("❌ 用法: listen <联系人/群名>"@),
        RemoteView::UnlistenUsage => Some("❌ 用法: unlisten <联系人/群名>"@),
        RemoteView::SendUsage => Some("❌ 用法: send <收件人> <内容>"@),
        RemoteView::Unknown { cmd } => Some("❓ 未知命令: "@ + cmd),
        _ => None,
    }
}

/// The answer to a command from afar that is told already.
pub fn remote_text(cmd: &RemoteCommand) -> (r: Option<String>)
    ensures
        text::opt_view(r) == remote_answer(cmd@),
{
    match cmd {
        RemoteCommand::AtMode => Some("📢 已发送仅@模式切换指令".to_owned()),
        RemoteCommand::ListenUsage => Some("❌ 用法: listen <联系人/群名>".to_owned()),
        RemoteCommand::UnlistenUsage => Some("❌ 用法: unlisten <联系人/群名>".to_owned()),
        RemoteCommand::SendUsage => Some("❌ 用法: send <收件人> <内容>".to_owned()),
        RemoteCommand::Unknown { cmd } => Some(cat("❓ 未知命令: ", cmd.as_str())),
        _ => None,
    }
}

/// A command from afar is told already exactly where nothing waits to be done
/// that has an answer of its own.
pub proof fn law_told_or_done(cmd: RemoteView, db: bool)
    ensures
        remote_answer(cmd) is Some <==> commands::remote_action_of(cmd, db) is PushAtMode
            || commands::remote_action_of(
            cmd,
            db,
        ) is Nothing,
{
}

/// The list to write back once a chat was to be listened to: with it in, where
/// that worked.
pub open spec fn added_to(
    reply: AddReply,
    current: Seq<Seq<char>>,
    who: Seq<char>,
) -> Option<Seq<Seq<char>>> {
    match reply {
        AddReply::Added => Some(config::with_name(current, who)),
        _ => None,
    }
}

/// The list to write back once a chat was no longer to be listened to: without
/// it, where that worked.
pub open spec fn removed_from(
    reply: RemoveReply,
    current: Seq<Seq<char>>,
    who: Seq<char>,
) -> Option<Seq<Seq<char>>> {
    match reply {
        RemoveReply::Removed => Some(config::without(current, seq![who])),
        _ => None,
    }
}

/// The list to write back once a chat was to be listened to: with it in, where
/// that worked.
pub fn list_after_add(reply: &AddReply, current: &Vec<String>, who: &str) -> (r: Option<
    Vec<String>,
>)
    ensures
        match (r, added_to(*reply, text::views(current@), who@)) {
            (Some(a), Some(b)) => text::views(a@) == b,
            (None, None) => true,
            _ => false,
        },
{
    match reply {
        AddReply::Added => Some(config::list_with(current, who)),
        _ => None,
    }
}

/// The list to write back once a chat was no longer to be listened to: without
/// it, where that worked.
pub fn list_after_remove(reply: RemoveReply, current: &Vec<String>, who: &str) -> (r: Option<
    Vec<String>,
>)
    ensures
        match (r, removed_from(reply, text::views(current@), who@)) {
            (Some(a), Some(b)) => text::views(a@) == b,
            (None, None) => true,
            _ => false,
        },
{
    match reply {
        RemoveReply::Removed => Some(config::list_without(current, who)),
        _ => None,
    }
}

/// Why a configuration could not be loaded anew.
#[derive(Debug, Clone)]
pub enum ReloadFailure {
    /// Nobody knows where it is.
    NoPath,
    /// It cannot be read.
    Unreadable(String),
    /// It cannot be understood.
    Unparsable(String),
}

/// What became of a chat to be listened to in addition.
#[derive(Debug, Clone, Copy, PartialEq, Eq, Structural)]
pub enum AddOutcome {
    Added,
    Failed,
    /// There was no worker to ask.
    Unasked,
}

/// The answer to a reload that failed.
pub fn reload_failure_text(f: &ReloadFailure) -> (r: String)
    ensures
        r@ == told_of_reload_failure(*f),
{
    match f {
        ReloadFailure::NoPath => "⚠️ 未找到配置文件路径".to_owned(),
        ReloadFailure::Unreadable(e) => cat("⚠️ 读取配置失败: ", e.as_str()),
        ReloadFailure::Unparsable(e) => cat("⚠️ 配置解析失败: ", e.as_str()),
    }
}

/// The lines for the chats no longer listened to.
pub open spec fn removed_lines(names: Seq<Seq<char>>) -> Seq<Seq<char>> {
    Seq::new(names.len(), |i: int| "👂 移除监听: "@ + names[i])
}

/// The lines for the chats to be listened to in addition.
pub open spec fn added_lines(names: Seq<Seq<char>>, outcomes: Seq<AddOutcome>) -> Seq<Seq<char>>
    decreases names.len(),
{
    if names.len() == 0 {
        Seq::empty()
    } else {
        let before = added_lines(names.drop_last(), outcomes.drop_last());
        match outcomes.last() {
            AddOutcome::Added => before.push("✅ 添加监听: "@ + names.last()),
            AddOutcome::Failed => before.push("⚠️ 添加失败: "@ + names.last()),
            AddOutcome::Unasked => before,
        }
    }
}

/// The lines for a new waiting time.
pub open spec fn delay_lines(old: u64, new: Option<u64>) -> Seq<Seq<char>> {
    match new {
        Some(n) => seq![
            "⚙️ at_delay_ms: "@ + number::dec(old as nat) + " → "@ + number::dec(n as nat),
        ],
        None => Seq::empty(),
    }
}

/// The answer to a reload that was carried out.
pub open spec fn reload_text(
    old_delay: u64,
    new_delay: Option<u64>,
    removed: Seq<Seq<char>>,
    to_add: Seq<Seq<char>>,
    outcomes: Seq<AddOutcome>,
) -> Seq<char> {
    let lines = delay_lines(old_delay, new_delay) + removed_lines(removed) + added_lines(
        to_add,
        outcomes,
    );
    if lines.len() == 0 {
        "⚙️ 配置已重载 (无变化)"@
    } else {
        text::join(lines.push("⚙️ 配置已重载"@), "\n"@)
    }
}

/// The line for a new waiting time.
fn delay_line(old: u64, new: u64) -> (r: String)
    ensures
        r@ == "⚙️ at_delay_ms: "@ + number::dec(old as nat) + " → "@ + number::dec(new as nat),
{
    let mut s = "⚙️ at_delay_ms: ".to_owned();
    s.append(number::decimal(old).as_str());
    s.append(" → ");
    s.append(number::decimal(new).as_str());
    s
}

/// The answer to a reload that was carried out, where the outcomes stand in
/// the order of the chats to add.
pub fn reload_report(old_delay: u64, plan: &ReloadPlan, outcomes: &Vec<AddOutcome>) -> (r: String)
    requires
        outcomes@.len() == plan.to_add@.len(),
    ensures
        r@ == reload_text(
            old_delay,
            plan.at_delay_ms,
            text::views(plan.to_remove@),
            text::views(plan.to_add@),
            outcomes@,
        ),
{
    let mut lines: Vec<String> = Vec::new();
    if let Some(new) = plan.at_delay_ms {
        lines.push(delay_line(old_delay, new));
    }
    assert(text::views(lines@) =~= delay_lines(old_delay, plan.at_delay_ms));
    let ghost first = text::views(lines@);
    let ghost removed = text::views(plan.to_remove@);
    let mut i: usize = 0;
    assert(first + removed_lines(removed.take(0)) =~= first);
    while i < plan.to_remove.len()
        invariant
            0 <= i <= plan.to_remove@.len(),
            removed == text::views(plan.to_remove@),
            text::views(lines@) == first + removed_lines(removed.take(i as int)),
        decreases plan.to_remove@.len() - i,
    {
        let ghost before = lines@;
        let line = cat("👂 移除监听: ", plan.to_remove[i].as_str());
        lines.push(line);
        assert(text::views(lines@) =~= text::views(before).push(line@));
        assert(first + removed_lines(removed.take(i + 1)) =~= (first + removed_lines(
            removed.take(i as int),
        )).push(line@));
        i += 1;
    }
    assert(removed.take(removed.len() as int) =~= removed);
    let ghost second = text::views(lines@);
    let ghost added = text::views(plan.to_add@);
    let mut j: usize = 0;
    assert(second + added_lines(added.take(0), outcomes@.take(0)) =~= second);
    while j < plan.to_add.len()
        invariant
            0 <= j <= plan.to_add@.len(),
            outcomes@.len() == plan.to_add@.len(),
            added == text::views(plan.to_add@),
            text::views(lines@) == second + added_lines(
                added.take(j as int),
                outcomes@.take(j as int),
            ),
        decreases plan.to_add@.len() - j,
    {
        let ghost before = lines@;
        assert(added.take(j + 1).drop_last() =~= added.take(j as int));
        assert(outcomes@.take(j + 1).drop_last() =~= outcomes@.take(j as int));
        match outcomes[j] {
            AddOutcome::Added => {
                let line = cat("✅ 添加监听: ", plan.to_add[j].as_str());
                lines.push(line);
                assert(text::views(lines@) =~= text::views(before).push(line@));
            },
            AddOutcome::Failed => {
                let line = cat("⚠️ 添加失败: ", plan.to_add[j].as_str());
                lines.push(line);
                assert(text::views(lines@) =~= text::views(before).push(line@));
            },
            AddOutcome::Unasked => {},
        }
        assert(text::views(lines@) =~= second + added_lines(
            added.take(j + 1),
            outcomes@.take(j + 1),
        ));
        j += 1;
    }
    assert(added.take(added.len() as int) =~= added);
    assert(outcomes@.take(outcomes@.len() as int) =~= outcomes@);
    assert(text::views(lines@).len() == lines@.len());
    if lines.len() == 0 {
        return "⚙️ 配置已重载 (无变化)".to_owned();
    }
    let ghost before = lines@;
    let last = "⚙️ 配置已重载".to_owned();
    lines.push(last);
    assert(text::views(lines@) =~= text::views(before).push(last@));
    text::join_with(&lines, "\n")
}

// ---------------------------------------------------------------------
// The console
// ---------------------------------------------------------------------

/// A line shown at the console.
#[derive(Debug, Clone)]
pub struct Line {
    /// Whether it warns.
    pub warn: bool,
    pub text: String,
}

/// A line shown at the console, as a mathematical value.
pub struct LineView {
    pub warn: bool,
    pub text: Seq<char>,
}

impl View for Line {
    type V = LineView;

    open spec fn view(&self) -> LineView {
        LineView { warn: self.warn, text: self.text@ }
    }
}

/// A line that informs.
pub open spec fn info(text: Seq<char>) -> LineView {
    LineView { warn: false, text }
}

/// A line that warns.
pub open spec fn warn(text: Seq<char>) -> LineView {
    LineView { warn: true, text }
}

/// A line that informs.
fn informing(s: String) -> (r: Line)
    ensures
        r@ == info(s@),
{
    Line { warn: false, text: s }
}

/// A line that warns.
fn warning(s: String) -> (r: Line)
    ensures
        r@ == warn(s@),
{
    Line { warn: true, text: s }
}

/// What is shown before a command is carried out.
pub open spec fn announcement(cmd: ConsoleView, db: bool, config: bool) -> Seq<LineView> {
    match cmd {
        ConsoleView::Restart => seq![info("🔄 收到 /restart 命令, 准备重启..."@)],
        ConsoleView::Stop => seq![info("🛑 收到 /stop 命令, 正常关闭..."@)],
        ConsoleView::Status => Seq::empty(),
        ConsoleView::Refresh => if db {
            seq![info("👥 手动刷新联系人..."@)]
        } else {
            seq![info("⚠️ 数据库不可用"@)]
        },
        ConsoleView::AtMode => seq![info("📢 已发送仅@模式切换指令"@)],
        ConsoleView::Reload => if config {
            Seq::empty()
        } else {
            seq![info("⚠️ 未找到配置文件路径, 无法重载"@)]
        },
        ConsoleView::Sessions => if db {
            Seq::empty()
        } else {
            seq![info("⚠️ 数据库不可用"@)]
        },
        ConsoleView::Send { to, text } => seq![info("📤 发送消息: ["@ + to + "] → "@ + text)],
        ConsoleView::SendUsage => seq![info("❌ 用法: /send <收件人> <内容>"@)],
        ConsoleView::Listen { who } => seq![info("👂 添加监听: "@ + who)],
        ConsoleView::ListenUsage => seq![info("❌ 用法: /listen <联系人/群名>"@)],
        ConsoleView::Unlisten { who } => seq![info("👂 移除监听: "@ + who)],
        ConsoleView::UnlistenUsage => seq![info("❌ 用法: /unlisten <联系人/群名>"@)],
        ConsoleView::Help => help_text(),
        ConsoleView::Unknown { cmd } => seq![
            info("❓ 未知命令: "@ + cmd + " (/help 查看帮助)"@),
        ],
    }
}

/// The help.
pub open spec fn help_text() -> Seq<LineView> {
    seq![
        info("💡 === 可用命令 ==="@),
        info("💡 /restart  — 优雅重启    /stop — 关闭程序"@),
        info("💡 /status   — 运行状态    /refresh — 刷新联系人"@),
        info("💡 /atmode   — 切换仅@模式  /sessions — 查看会话列表"@),
        info("💡 /reload   — 热重载配置    /help — 显示帮助"@),
        info("💡 /send <收件人> <内容> — 发送消息"@),
        info("💡 /listen <名称>       — 添加监听"@),
        info("💡 /unlisten <名称>     — 移除监听"@),
        info("💡 快捷键: ↑↓历史 ←→光标 Ctrl+U清行 Ctrl+L清屏"@),
        info("💡 =================="@),
    ]
}

/// The help.
fn help_lines() -> (r: Vec<Line>)
    ensures
        cell::views_of(r@) == help_text(),
{
    let r: Vec<Line> = vec![
        informing("💡 === 可用命令 ===".to_owned()),
        informing("💡 /restart  — 优雅重启    /stop — 关闭程序".to_owned()),
        informing("💡 /status   — 运行状态    /refresh — 刷新联系人".to_owned()),
        informing("💡 /atmode   — 切换仅@模式  /sessions — 查看会话列表".to_owned()),
        informing("💡 /reload   — 热重载配置    /help — 显示帮助".to_owned()),
        informing("💡 /send <收件人> <内容> — 发送消息".to_owned()),
        informing("💡 /listen <名称>       — 添加监听".to_owned()),
        informing("💡 /unlisten <名称>     — 移除监听".to_owned()),
        informing("💡 快捷键: ↑↓历史 ←→光标 Ctrl+U清行 Ctrl+L清屏".to_owned()),
        informing("💡 ==================".to_owned()),
    ];
    assert(cell::views_of(r@) =~= help_text());
    r
}

/// What is shown before a command is carried out, by whether there is a
/// database and a known configuration.
pub fn announce(cmd: &ConsoleCommand, db: bool, config: bool) -> (r: Vec<Line>)
    ensures
        cell::views_of(r@) == announcement(cmd@, db, config),
{
    let mut r: Vec<Line> = Vec::new();
    match cmd {
        ConsoleCommand::Restart => {
            r.push(informing("🔄 收到 /restart 命令, 准备重启...".to_owned()));
        },
        ConsoleCommand::Stop => {
            r.push(informing("🛑 收到 /stop 命令, 正常关闭...".to_owned()));
        },
        ConsoleCommand::Status => {},
        ConsoleCommand::Refresh => {
            if db {
                r.push(informing("👥 手动刷新联系人...".to_owned()));
            } else {
                r.push(informing("⚠️ 数据库不可用".to_owned()));
            }
        },
        ConsoleCommand::AtMode => {
            r.push(informing("📢 已发送仅@模式切换指令".to_owned()));
        },
        ConsoleCommand::Reload => {
            if !config {
                r.push(informing("⚠️ 未找到配置文件路径, 无法重载".to_owned()));
            }
        },
        ConsoleCommand::Sessions => {
            if !db {
                r.push(informing("⚠️ 数据库不可用".to_owned()));
            }
        },
        ConsoleCommand::Send { to, text } => {
            let mut s = "📤 发送消息: [".to_owned();
            s.append(to.as_str());
            s.append("] → ");
            s.append(text.as_str());
            r.push(informing(s));
        },
        ConsoleCommand::SendUsage => {
            r.push(informing("❌ 用法: /send <收件人> <内容>".to_owned()));
        },
        ConsoleCommand::Listen { who } => {
            r.push(informing(cat("👂 添加监听: ", who.as_str())));
        },
        ConsoleCommand::ListenUsage => {
            r.push(informing("❌ 用法: /listen <联系人/群名>".to_owned()));
        },
        ConsoleCommand::Unlisten { who } => {
            r.push(informing(cat("👂 移除监听: ", who.as_str())));
        },
        ConsoleCommand::UnlistenUsage => {
            r.push(informing("❌ 用法: /unlisten <联系人/群名>".to_owned()));
        },
        ConsoleCommand::Help => {
            return help_lines();
        },
        ConsoleCommand::Unknown { cmd } => {
            let mut s = "❓ 未知命令: ".to_owned();
            s.append(cmd.as_str());
            s.append(" (/help 查看帮助)");
            r.push(informing(s));
        },
    }
    assert(cell::views_of(r@) =~= announcement(cmd@, db, config));
    r
}

/// The report on the state, at the console.
pub open spec fn status_text(
    status: Seq<char>,
    db: bool,
    contacts: nat,
    listening: nat,
    listed: Seq<char>,
    version: Seq<char>,
) -> Seq<LineView> {
    seq![
        info("📊 === 运行时状态 ==="@),
        info("📊 微信状态: "@ + status),
        info("📊 数据库: "@ + db_word(db) + " | 联系人: "@ + number::dec(contacts) + " 条"@),
        info("📊 监听窗口: "@ + number::dec(listening) + " 个 "@ + listed),
        info("📊 版本: v"@ + version),
        info("📊 =================="@),
    ]
}

/// The report on the state, at the console, where the text for the list of
/// chats is given.
pub fn status_lines_with(
    status: &str,
    db: bool,
    contacts: usize,
    listening: usize,
    listed: &str,
    version: &str,
) -> (r: Vec<Line>)
    ensures
        cell::views_of(r@) == status_text(
            status@,
            db,
            contacts as nat,
            listening as nat,
            listed@,
            version@,
        ),
{
    let mut second = "📊 数据库: ".to_owned();
    second.append(db_text(db));
    second.append(" | 联系人: ");
    second.append(number::decimal(contacts as u64).as_str());
    second.append(" 条");
    let mut third = "📊 监听窗口: ".to_owned();
    third.append(number::decimal(listening as u64).as_str());
    third.append(" 个 ");
    third.append(listed);
    let r: Vec<Line> = vec![
        informing("📊 === 运行时状态 ===".to_owned()),
        informing(cat("📊 微信状态: ", status)),
        informing(second),
        informing(third),
        informing(cat("📊 版本: v", version)),
        informing("📊 ==================".to_owned()),
    ];
    assert(cell::views_of(r@) =~= status_text(
        status@,
        db,
        contacts as nat,
        listening as nat,
        listed@,
        version@,
    ));
    r
}

/// The report on the state, at the console.
pub fn status_lines(
    status: &str,
    db: bool,
    contacts: usize,
    listening: &Vec<String>,
    version: &str,
) -> (r: Vec<Line>)
    ensures
        cell::views_of(r@) == status_text(
            status@,
            db,
            contacts as nat,
            listening@.len(),
            outside::debug_text(text::views(listening@)),
            version@,
        ),
{
    let listed = outside::debug_list(listening);
    assert(text::views(listening@) =~= Seq::new(listening@.len(), |i: int| listening@[i]@));
    status_lines_with(status, db, contacts, listening.len(), listed.as_str(), version)
}

/// The line for a session.
pub open spec fn session_text(s: SessionView) -> Seq<char> {
    "💬  "@ + s.display_name + " ("@ + s.username + ")"@ + (if s.unread_count > 0 {
        " [未读:"@ + number::dec(s.unread_count as nat) + "]"@
    } else {
        Seq::empty()
    })
}

/// The list of sessions, at the console.
pub open spec fn sessions_text(sessions: Seq<SessionView>) -> Seq<LineView> {
    seq![info("💬 === 会话列表 ("@ + number::dec(sessions.len()) + " 个) ==="@)] + Seq::new(
        sessions.len(),
        |i: int| info(session_text(sessions[i])),
    ) + seq![info("💬 =================="@)]
}

/// The line for a session.
fn session_line(s: &DbSessionInfo) -> (r: String)
    ensures
        r@ == session_text(s@),
{
    let mut t = "💬  ".to_owned();
    t.append(s.display_name.as_str());
    t.append(" (");
    t.append(s.username.as_str());
    t.append(")");
    let ghost base = t@;
    if s.unread_count > 0 {
        t.append(" [未读:");
        t.append(number::decimal(s.unread_count as u64).as_str());
        t.append("]");
        assert(t@ =~= session_text(s@));
    } else {
        assert(base + Seq::<char>::empty() =~= base);
    }
    t
}

/// The list of sessions, at the console.
pub fn sessions_lines(sessions: &Vec<DbSessionInfo>) -> (r: Vec<Line>)
    ensures
        cell::views_of(r@) == sessions_text(cell::views_of(sessions@)),
{
    let mut head = "💬 === 会话列表 (".to_owned();
    head.append(number::decimal(sessions.len() as u64).as_str());
    head.append(" 个) ===");
    let mut r: Vec<Line> = Vec::new();
    r.push(informing(head));
    let ghost all = cell::views_of(sessions@);
    let mut i: usize = 0;
    while i < sessions.len()
        invariant
            0 <= i <= sessions@.len(),
            all == cell::views_of(sessions@),
            r@.len() == i + 1,
            r@[0]@ == info("💬 === 会话列表 ("@ + number::dec(all.len()) + " 个) ==="@),
            forall|j: int|
                0 <= j < i ==> (#[trigger] r@[j + 1])@ == info(session_text(all[j])),
        decreases sessions@.len() - i,
    {
        r.push(informing(session_line(&sessions[i])));
        assert forall|j: int| 0 <= j < i + 1 implies (#[trigger] r@[j + 1])@ == info(
            session_text(all[j]),
        ) by {}
        i += 1;
    }
    r.push(informing("💬 ==================".to_owned()));
    let ghost goal = sessions_text(all);
    assert forall|k: int| 0 <= k < goal.len() implies cell::views_of(r@)[k] == goal[k] by {
        if 0 < k < goal.len() - 1 {
            assert(r@[(k - 1) + 1]@ == info(session_text(all[k - 1])));
        }
    }
    assert(cell::views_of(r@) =~= goal);
    r
}

/// What is shown of a refresh of the contacts.
pub open spec fn shown_of_refresh(result: Result<usize, String>) -> LineView {
    match result {
        Ok(n) => info("👥 刷新完成: "@ + number::dec(n as nat) + " 条"@),
        Err(e) => warn("⚠️ 刷新失败: "@ + e@),
    }
}

/// What is shown of sending a message.
pub open spec fn shown_of_sending(reply: SendReply) -> LineView {
    match reply {
        SendReply::Done { sent, verified, message } => if sent {
            info("✅ "@ + message@)
        } else {
            warn("⚠️ "@ + message@)
        },
        SendReply::Failed(e) => warn("⚠️ 发送失败: "@ + e@),
        SendReply::Closed => warn("⚠️ actor 响应通道已关闭"@),
        SendReply::Stopped => warn("⚠️ InputEngine actor 已停止"@),
    }
}

/// What is shown of listening to a chat.
pub open spec fn shown_of_adding(who: Seq<char>, reply: AddReply) -> LineView {
    match reply {
        AddReply::Added => info("✅ 监听已添加: "@ + who),
        AddReply::NotAdded => warn("⚠️ 添加监听失败: "@ + who),
        AddReply::Failed(e) => warn("⚠️ 添加监听错误: "@ + e@),
        AddReply::Closed => warn("⚠️ actor 响应通道已关闭"@),
        AddReply::Stopped => warn("⚠️ InputEngine actor 已停止"@),
    }
}

/// What is shown of listening to a chat no more.
pub open spec fn shown_of_removing(who: Seq<char>, reply: RemoveReply) -> LineView {
    match reply {
        RemoveReply::Removed => info("✅ 监听已移除: "@ + who),
        RemoveReply::NotFound => info("⚠️ 未找到监听: "@ + who),
        RemoveReply::Closed => warn("⚠️ actor 响应通道已关闭"@),
        RemoveReply::Stopped => warn("⚠️ InputEngine actor 已停止"@),
    }
}

/// What is shown of listening to a chat from the start, and whether the next one
/// is tried.
pub open spec fn shown_of_auto_adding(who: Seq<char>, reply: AddReply) -> (LineView, bool) {
    match reply {
        AddReply::Added => (info("✅ 自动监听已添加: "@ + who), true),
        AddReply::NotAdded => (warn("⚠️ 自动监听添加失败: "@ + who), true),
        AddReply::Failed(e) => (warn("⚠️ 自动监听错误: "@ + who + " - "@ + e@), true),
        AddReply::Closed => (warn("⚠️ actor 响应通道已关闭"@), true),
        AddReply::Stopped => (warn("⚠️ InputEngine actor 已停止, 无法自动添加监听"@), false),
    }
}

/// What is shown of one addition of a reload.
pub open spec fn shown_of_outcome(who: Seq<char>, outcome: AddOutcome) -> Option<LineView> {
    match outcome {
        AddOutcome::Added => Some(info("✅ 监听已添加: "@ + who)),
        AddOutcome::Failed => Some(warn("⚠️ 添加监听失败: "@ + who)),
        AddOutcome::Unasked => None,
    }
}

/// What is shown of a reload that failed.
pub open spec fn shown_of_reload_failure(f: ReloadFailure) -> LineView {
    match f {
        ReloadFailure::NoPath => info("⚠️ 未找到配置文件路径, 无法重载"@),
        ReloadFailure::Unreadable(e) => warn("⚠️ 读取配置失败: "@ + e@),
        ReloadFailure::Unparsable(e) => warn("⚠️ 配置解析失败: "@ + e@),
    }
}

/// What is told from afar of a reload that failed.
pub open spec fn told_of_reload_failure(f: ReloadFailure) -> Seq<char> {
    match f {
        ReloadFailure::NoPath => "⚠️ 未找到配置文件路径"@,
        ReloadFailure::Unreadable(e) => "⚠️ 读取配置失败: "@ + e@,
        ReloadFailure::Unparsable(e) => "⚠️ 配置解析失败: "@ + e@,
    }
}

/// The line that ends a refresh of the contacts.
pub fn refresh_line(result: &Result<usize, String>) -> (r: Line)
    ensures
        r@ == shown_of_refresh(*result),
{
    match result {
        Ok(n) => {
            let mut s = "👥 刷新完成: ".to_owned();
            s.append(number::decimal(*n as u64).as_str());
            s.append(" 条");
            informing(s)
        },
        Err(e) => warning(cat("⚠️ 刷新失败: ", e.as_str())),
    }
}

/// The line that ends an attempt to send a message.
pub fn send_line(reply: &SendReply) -> (r: Line)
    ensures
        r@ == shown_of_sending(*reply),
{
    match reply {
        SendReply::Done { sent, verified, message } => if *sent {
            informing(cat("✅ ", message.as_str()))
        } else {
            warning(cat("⚠️ ", message.as_str()))
        },
        SendReply::Failed(e) => warning(cat("⚠️ 发送失败: ", e.as_str())),
        SendReply::Closed => warning("⚠️ actor 响应通道已关闭".to_owned()),
        SendReply::Stopped => warning("⚠️ InputEngine actor 已停止".to_owned()),
    }
}

/// The line that ends an attempt to listen to a chat.
pub fn add_line(who: &str, reply: &AddReply) -> (r: Line)
    ensures
        r@ == shown_of_adding(who@, *reply),
{
    match reply {
        AddReply::Added => informing(cat("✅ 监听已添加: ", who)),
        AddReply::NotAdded => warning(cat("⚠️ 添加监听失败: ", who)),
        AddReply::Failed(e) => warning(cat("⚠️ 添加监听错误: ", e.as_str())),
        AddReply::Closed => warning("⚠️ actor 响应通道已关闭".to_owned()),
        AddReply::Stopped => warning("⚠️ InputEngine actor 已停止".to_owned()),
    }
}

/// The line that ends an attempt to stop listening to a chat.
pub fn remove_line(who: &str, reply: RemoveReply) -> (r: Line)
    ensures
        r@ == shown_of_removing(who@, reply),
{
    match reply {
        RemoveReply::Removed => informing(cat("✅ 监听已移除: ", who)),
        RemoveReply::NotFound => informing(cat("⚠️ 未找到监听: ", who)),
        RemoveReply::Closed => warning("⚠️ actor 响应通道已关闭".to_owned()),
        RemoveReply::Stopped => warning("⚠️ InputEngine actor 已停止".to_owned()),
    }
}

/// The lines that open a reload at the console: the new waiting time, and
/// whether the list stays as it is.
pub open spec fn reload_opening(
    old_delay: u64,
    new_delay: Option<u64>,
    removed: nat,
    added: nat,
) -> Seq<LineView> {
    let delay = delay_lines(old_delay, new_delay);
    let first = Seq::new(delay.len(), |i: int| info(delay[i]));
    if removed == 0 && added == 0 {
        first.push(info("⚙️ 监听列表无变化"@))
    } else {
        first
    }
}

/// The lines that open a reload at the console.
pub fn reload_opening_lines(old_delay: u64, plan: &ReloadPlan) -> (r: Vec<Line>)
    ensures
        cell::views_of(r@) == reload_opening(
            old_delay,
            plan.at_delay_ms,
            plan.to_remove@.len(),
            plan.to_add@.len(),
        ),
{
    let mut r: Vec<Line> = Vec::new();
    if let Some(new) = plan.at_delay_ms {
        r.push(informing(delay_line(old_delay, new)));
    }
    if plan.to_add.len() == 0 && plan.to_remove.len() == 0 {
        r.push(informing("⚙️ 监听列表无变化".to_owned()));
    }
    assert(cell::views_of(r@) =~= reload_opening(
        old_delay,
        plan.at_delay_ms,
        plan.to_remove@.len(),
        plan.to_add@.len(),
    ));
    r
}

/// The line that ends one addition of a reload at the console; none where
/// nobody could be asked.
pub fn reload_add_line(who: &str, outcome: AddOutcome) -> (r: Option<Line>)
    ensures
        match (r, shown_of_outcome(who@, outcome)) {
            (Some(a), Some(b)) => a@ == b,
            (None, None) => true,
            _ => false,
        },
{
    match outcome {
        AddOutcome::Added => Some(informing(cat("✅ 监听已添加: ", who))),
        AddOutcome::Failed => Some(warning(cat("⚠️ 添加监听失败: ", who))),
        AddOutcome::Unasked => None,
    }
}

/// The line for a reload at the console that failed.
pub fn reload_failure_line(f: &ReloadFailure) -> (r: Line)
    ensures
        r@ == shown_of_reload_failure(*f),
{
    match f {
        ReloadFailure::NoPath => informing("⚠️ 未找到配置文件路径, 无法重载".to_owned()),
        ReloadFailure::Unreadable(e) => warning(cat("⚠️ 读取配置失败: ", e.as_str())),
        ReloadFailure::Unparsable(e) => warning(cat("⚠️ 配置解析失败: ", e.as_str())),
    }
}

/// The line where the sessions cannot be listed.
pub fn sessions_failure_line(e: &str) -> (r: Line)
    ensures
        r@ == warn("⚠️ 获取会话失败: "@ + e@),
{
    warning(cat("⚠️ 获取会话失败: ", e))
}

/// The line for a chat to be listened to from the start, and whether the next
/// one is tried.
pub fn auto_add_line(who: &str, reply: &AddReply) -> (r: (Line, bool))
    ensures
        (r.0@, r.1) == shown_of_auto_adding(who@, *reply),
{
    match reply {
        AddReply::Added => (informing(cat("✅ 自动监听已添加: ", who)), true),
        AddReply::NotAdded => (warning(cat("⚠️ 自动监听添加失败: ", who)), true),
        AddReply::Failed(e) => {
            let mut s = cat("⚠️ 自动监听错误: ", who);
            s.append(" - ");
            s.append(e.as_str());
            (warning(s), true)
        },
        AddReply::Closed => (warning("⚠️ actor 响应通道已关闭".to_owned()), true),
        AddReply::Stopped => (
            warning("⚠️ InputEngine actor 已停止, 无法自动添加监听".to_owned()),
            false,
        ),
    }
}

// ---------------------------------------------------------------------
// Laws on answers
// ---------------------------------------------------------------------

/// A worker that is not there is told by one status, everything else that fails
/// by another, and a reason is told as it is.
pub proof fn law_errors_have_their_status(
    send: SendReply,
    chat: ChatReply,
    add: AddReply,
    in_db: Option<bool>,
    what: Seq<char>,
    who: Seq<char>,
)
    ensures
        send_answer(send, in_db, what) matches Err(e) ==> e.status == if send is Stopped {
            503u16
        } else {
            500u16
        },
        chat_answer(chat) matches Err(e) ==> e.status == if chat is Stopped {
            503u16
        } else {
            500u16
        },
        add_answer(who, add) matches Err(e) ==> e.status == if add is Stopped {
            503u16
        } else {
            500u16
        },
        send matches SendReply::Failed(r) ==> (send_answer(send, in_db, what) matches Err(e)
            && text::ends(e.message, r@)),
        chat matches ChatReply::Failed(r) ==> (chat_answer(chat) matches Err(e) && text::ends(
            e.message,
            r@,
        )),
        add matches AddReply::Failed(r) ==> (add_answer(who, add) matches Err(e) && text::ends(
            e.message,
            r@,
        )),
{
    if let SendReply::Failed(r) = send {
        text::lemma_both_ends(what, r@);
    }
    if let ChatReply::Failed(r) = chat {
        text::lemma_both_ends("切换聊天失败: "@, r@);
    }
    if let AddReply::Failed(r) = add {
        text::lemma_both_ends("添加监听错误: "@, r@);
    }
}

/// What was carried out is answered with what became of it: sent or not, with
/// the message as it is, and seen as the databases tell, or as the window tells
/// where they do not.
pub proof fn law_sending_is_answered(
    sent: bool,
    verified: bool,
    message: String,
    seen: bool,
    what: Seq<char>,
    reply: SendReply,
    in_db: Option<bool>,
)
    ensures
        send_answer(SendReply::Done { sent, verified, message }, Some(seen), what) == Ok::<
            (bool, bool, Seq<char>),
            ApiErrorView,
        >((sent, seen, message@)),
        send_answer(SendReply::Done { sent, verified, message }, None, what) == Ok::<
            (bool, bool, Seq<char>),
            ApiErrorView,
        >((sent, verified, message@)),
        send_answer(reply, in_db, what) is Ok <==> reply is Done,
{
}

/// A request succeeds exactly where the worker says so, and names the chat.
pub proof fn law_requests_are_answered(
    chat: ChatReply,
    add: AddReply,
    remove: RemoveReply,
    who: Seq<char>,
)
    ensures
        chat_answer(chat) matches Ok(a) && a.0 <==> chat is Entered,
        chat matches ChatReply::Entered(name) ==> (chat_answer(chat) matches Ok(a) && a.1 == Some(
            name@,
        )),
        chat is NotFound ==> (chat_answer(chat) matches Ok(a) && !a.0 && a.1 is None),
        add_answer(who, add) matches Ok(a) && a.0 <==> add is Added,
        add_answer(who, add) is Ok <==> add is Added || add is NotAdded,
        add_answer(who, add) matches Ok(a) ==> text::ends(a.1, who),
        remove_answer(who, remove).0 <==> remove is Removed,
        text::ends(remove_answer(who, remove).1, who),
{
    text::lemma_both_ends("已添加监听: "@, who);
    text::lemma_both_ends("添加监听失败: "@, who);
    text::lemma_both_ends("已移除监听: "@, who);
    text::lemma_both_ends("未找到监听: "@, who);
}

/// The ending of a picture is what stands behind the last dot of its name, and
/// the usual one where the name has no dot; the picture is put where it keeps
/// its ending.
pub proof fn law_pictures_keep_their_ending(
    name: Seq<char>,
    ending: Seq<char>,
    plain: Seq<char>,
    millis: nat,
    salt: nat,
)
    requires
        !ending.contains('.'),
        !plain.contains('.'),
    ensures
        extension(name + seq!['.'] + ending) == ending,
        extension(plain) == "png"@,
        text::ends(picture_path(millis, salt, name + seq!['.'] + ending), "."@ + ending),
        text::begins(picture_path(millis, salt, name), "/tmp/mimicwx_img_"@ + number::dec(millis)),
{
    let s = name + seq!['.'] + ending;
    text::law_last_index_is_last(s, '.');
    text::law_last_index_is_last(plain, '.');
    if text::last_index(plain, '.') is Some {
        assert(plain.contains('.'));
    }
    let n = name.len() as int;
    assert(s[n] == '.');
    assert(s.contains('.'));
    let k = text::last_index(s, '.')->0;
    if k > n {
        assert(ending[k - n - 1] == s[k]);
        assert(ending.contains('.'));
    }
    assert(s.skip(n + 1) =~= ending);
    lemma_picture_path(millis, salt, s);
    lemma_picture_path(millis, salt, name);
}

proof fn lemma_picture_path(millis: nat, salt: nat, name: Seq<char>)
    ensures
        text::ends(picture_path(millis, salt, name), "."@ + extension(name)),
        text::begins(picture_path(millis, salt, name), "/tmp/mimicwx_img_"@ + number::dec(millis)),
{
    let start = "/tmp/mimicwx_img_"@ + number::dec(millis);
    let salted = number::hex_fixed(salt, 4);
    let head = start + "_"@ + salted;
    let e = extension(name);
    text::lemma_both_ends(head, "."@ + e);
    assert(head + ("."@ + e) =~= head + "."@ + e);
    let rest = "_"@ + salted + "."@ + e;
    text::lemma_both_ends(start, rest);
    assert(start + rest =~= head + "."@ + e);
}

/// A tree is shown as deep as asked for, but never deeper than fifteen levels,
/// and five where nothing readable is asked for.
pub proof fn law_depth_is_as_asked(n: nat, depth: Seq<char>)
    requires
        n <= u32::MAX,
    ensures
        n <= 15 ==> depth_shown(Some(number::int_dec(n as int))) == n,
        n >= 15 ==> depth_shown(Some(number::int_dec(n as int))) == 15,
        depth_shown(None) == 5,
        number::read_unsigned(depth, u32::MAX as int) is None ==> depth_shown(Some(depth)) == 5,
        depth_shown(Some(depth)) <= 15,
{
    number::law_number_reads_back(n as int, 0, u32::MAX as int);
}

/// A push connection sends exactly what is pushed, shows a sign of life when it
/// is time, and is closed exactly where either side is done.
pub proof fn law_push_connections(event: WsEvent)
    ensures
        event matches WsEvent::Push(t) ==> ws_reaction(event) == WsAction::Send(t),
        ws_reaction(event) is Send <==> event is Push,
        ws_reaction(event) is Ping <==> event is Tick,
        ws_reaction(event) is Close <==> event is PushEnded || event is PeerClosed,
{
}

/// The list is written back exactly where something became of the request, and
/// then with the chat in it, or without it; all other names stay.
pub proof fn law_list_follows_the_reply(
    add: AddReply,
    remove: RemoveReply,
    current: Seq<Seq<char>>,
    who: Seq<char>,
    name: Seq<char>,
)
    ensures
        added_to(add, current, who) is Some <==> add is Added,
        removed_from(remove, current, who) is Some <==> remove is Removed,
        added_to(add, current, who) matches Some(l) ==> l.contains(who) && (name != who
            ==> l.contains(name) == current.contains(name)),
        removed_from(remove, current, who) matches Some(l) ==> !l.contains(who) && (name != who
            ==> l.contains(name) == current.contains(name)),
{
    config::lemma_one_name_out(current, who);
    config::lemma_one_name_in(current, who);
    assert(config::without(current, seq![who]).contains(who) <==> current.contains(who) && who
        != who);
    assert(config::without(current, seq![who]).contains(name) <==> current.contains(name) && name
        != who);
    config::law_name_is_added_last(current, who);
    if !current.contains(who) {
        let l = current + seq![who];
        if current.contains(name) {
            let i = choose|i: int| 0 <= i < current.len() && current[i] == name;
            assert(l[i] == name);
        }
        if l.contains(name) && name != who {
            let i = choose|i: int| 0 <= i < l.len() && l[i] == name;
            assert(current[i] == name);
        }
    }
}

/// A line warns exactly where something went wrong, and a chat that was not
/// listened to is no harm.
pub proof fn law_lines_warn_of_failures(
    send: SendReply,
    add: AddReply,
    remove: RemoveReply,
    refresh: Result<usize, String>,
    who: Seq<char>,
)
    ensures
        shown_of_sending(send).warn <==> !(send matches SendReply::Done { sent, .. } && sent),
        shown_of_adding(who, add).warn <==> !(add is Added),
        shown_of_removing(who, remove).warn <==> remove is Closed || remove is Stopped,
        shown_of_auto_adding(who, add).0.warn <==> !(add is Added),
        shown_of_auto_adding(who, add).1 <==> !(add is Stopped),
        shown_of_refresh(refresh).warn <==> refresh is Err,
        send matches SendReply::Done { message, .. } ==> text::ends(
            shown_of_sending(send).text,
            message@,
        ) && text::ends(told_of_sending(send), message@),
        add is Added || add is NotAdded ==> text::ends(shown_of_adding(who, add).text, who)
            && text::ends(told_of_adding(who, add), who) && text::ends(
            shown_of_auto_adding(who, add).0.text,
            who,
        ),
        remove is Removed || remove is NotFound ==> text::ends(
            shown_of_removing(who, remove).text,
            who,
        ) && told_of_removing(who, remove) == shown_of_removing(who, remove).text,
{
    if let SendReply::Done { sent, verified, message } = send {
        text::lemma_both_ends("✅ "@, message@);
        text::lemma_both_ends("⚠️ "@, message@);
    }
    text::lemma_both_ends("✅ 监听已添加: "@, who);
    text::lemma_both_ends("⚠️ 添加监听失败: "@, who);
    text::lemma_both_ends("⚠️ 添加失败: "@, who);
    text::lemma_both_ends("✅ 自动监听已添加: "@, who);
    text::lemma_both_ends("⚠️ 自动监听添加失败: "@, who);
    text::lemma_both_ends("✅ 监听已移除: "@, who);
    text::lemma_both_ends("⚠️ 未找到监听: "@, who);
}

/// Of a reload every chat that was added or could not be added is told, in
/// order, each by its name, and one that nobody was asked about is not.
pub proof fn law_additions_are_told_one_by_one(
    names: Seq<Seq<char>>,
    outcomes: Seq<AddOutcome>,
    who: Seq<char>,
    outcome: AddOutcome,
)
    requires
        names.len() == outcomes.len(),
    ensures
        outcome == AddOutcome::Unasked ==> added_lines(names.push(who), outcomes.push(outcome))
            == added_lines(names, outcomes),
        outcome == AddOutcome::Added ==> added_lines(names.push(who), outcomes.push(outcome))
            == added_lines(names, outcomes) + seq!["✅ 添加监听: "@ + who],
        outcome == AddOutcome::Failed ==> added_lines(names.push(who), outcomes.push(outcome))
            == added_lines(names, outcomes) + seq!["⚠️ 添加失败: "@ + who],
        shown_of_outcome(who, outcome) is None <==> outcome == AddOutcome::Unasked,
        shown_of_outcome(who, outcome) matches Some(l) ==> (l.warn <==> outcome
            == AddOutcome::Failed) && text::ends(l.text, who),
        added_lines(Seq::empty(), Seq::empty()) == Seq::<Seq<char>>::empty(),
{
    assert(names.push(who).drop_last() =~= names);
    assert(outcomes.push(outcome).drop_last() =~= outcomes);
    let before = added_lines(names, outcomes);
    assert(before.push("✅ 添加监听: "@ + who) =~= before + seq!["✅ 添加监听: "@ + who]);
    assert(before.push("⚠️ 添加失败: "@ + who) =~= before + seq!["⚠️ 添加失败: "@ + who]);
    text::lemma_both_ends("✅ 监听已添加: "@, who);
    text::lemma_both_ends("⚠️ 添加监听失败: "@, who);
}

/// The answer to a reload tells the waiting time, then what was removed, then
/// what was added, a line for each; without any of these it says that nothing
/// changed.
pub proof fn law_reload_is_told_line_by_line(
    old_delay: u64,
    new_delay: Option<u64>,
    removed: Seq<Seq<char>>,
    to_add: Seq<Seq<char>>,
    outcomes: Seq<AddOutcome>,
    i: int,
)
    ensures
        removed_lines(removed).len() == removed.len(),
        0 <= i < removed.len() ==> removed_lines(removed)[i] == "👂 移除监听: "@ + removed[i],
        delay_lines(old_delay, new_delay).len() == if new_delay is Some {
            1nat
        } else {
            0
        },
        new_delay matches Some(n) ==> delay_lines(old_delay, new_delay)[0] == "⚙️ at_delay_ms: "@
            + number::int_dec(old_delay as int) + " → "@ + number::int_dec(n as int),
        new_delay is None && removed.len() == 0 && to_add.len() == 0 ==> reload_text(
            old_delay,
            new_delay,
            removed,
            to_add,
            outcomes,
        ) == "⚙️ 配置已重载 (无变化)"@,
        new_delay is Some || removed.len() > 0 ==> reload_text(
            old_delay,
            new_delay,
            removed,
            to_add,
            outcomes,
        ) == text::join(
            delay_lines(old_delay, new_delay) + removed_lines(removed) + added_lines(
                to_add,
                outcomes,
            ) + seq!["⚙️ 配置已重载"@],
            "\n"@,
        ),
{
    let lines = delay_lines(old_delay, new_delay) + removed_lines(removed) + added_lines(
        to_add,
        outcomes,
    );
    assert(lines.push("⚙️ 配置已重载"@) =~= lines + seq!["⚙️ 配置已重载"@]);
}

/// The opening of a reload says that the list stays exactly where nothing is
/// removed and nothing added, and tells the waiting time where it changes.
pub proof fn law_reload_opens(old_delay: u64, new_delay: Option<u64>, removed: nat, added: nat)
    ensures
        reload_opening(old_delay, new_delay, removed, added).len() == (if new_delay is Some {
            1int
        } else {
            0
        }) + (if removed + added == 0 {
            1int
        } else {
            0
        }),
        new_delay is Some ==> reload_opening(old_delay, new_delay, removed, added)[0] == info(
            delay_lines(old_delay, new_delay)[0],
        ),
        removed + added == 0 ==> reload_opening(old_delay, new_delay, removed, added).last()
            == info("⚙️ 监听列表无变化"@),
{
}

/// A reason for a failed reload is shown and told alike, and warned of where the
/// file is there.
pub proof fn law_failed_reloads_are_told(f: ReloadFailure)
    ensures
        shown_of_reload_failure(f).warn <==> !(f is NoPath),
        !(f is NoPath) ==> shown_of_reload_failure(f).text == told_of_reload_failure(f),
        f matches ReloadFailure::Unreadable(e) ==> text::ends(told_of_reload_failure(f), e@),
        f matches ReloadFailure::Unparsable(e) ==> text::ends(told_of_reload_failure(f), e@),
{
    if let ReloadFailure::Unreadable(e) = f {
        text::lemma_both_ends("⚠️ 读取配置失败: "@, e@);
    }
    if let ReloadFailure::Unparsable(e) = f {
        text::lemma_both_ends("⚠️ 配置解析失败: "@, e@);
    }
}

/// Nothing is shown before a command that shows something of its own, the help
/// is shown for the help, and one line before every other, which names what the
/// command names; none of them warns.
pub proof fn law_commands_are_announced(cmd: ConsoleView, db: bool, config: bool)
    ensures
        announcement(cmd, db, config).len() == 0 <==> cmd is Status || cmd is Reload && config
            || cmd is Sessions && db,
        !(cmd is Help) ==> announcement(cmd, db, config).len() <= 1,
        cmd is Help ==> announcement(cmd, db, config) == help_text(),
        announcement(cmd, db, config).len() == 1 ==> !announcement(cmd, db, config)[0].warn,
        cmd matches ConsoleView::Listen { who } ==> text::ends(
            announcement(cmd, db, config)[0].text,
            who,
        ),
        cmd matches ConsoleView::Unlisten { who } ==> text::ends(
            announcement(cmd, db, config)[0].text,
            who,
        ),
        cmd matches ConsoleView::Send { to, text } ==> text::ends(
            announcement(cmd, db, config)[0].text,
            to + "] → "@ + text,
        ),
        cmd matches ConsoleView::Unknown { cmd: c } ==> text::occurs(
            announcement(cmd, db, config)[0].text,
            c,
        ),
        cmd is Refresh && !db ==> announcement(cmd, db, config) == announcement(
            ConsoleView::Sessions,
            db,
            config,
        ),
{
    match cmd {
        ConsoleView::Listen { who } => {
            text::lemma_both_ends("👂 添加监听: "@, who);
        },
        ConsoleView::Unlisten { who } => {
            text::lemma_both_ends("👂 移除监听: "@, who);
        },
        ConsoleView::Send { to, text } => {
            text::lemma_both_ends("📤 发送消息: ["@, to + "] → "@ + text);
            lemma_regroup("📤 发送消息: ["@, to, "] → "@, text);
        },
        ConsoleView::Unknown { cmd: c } => {
            lemma_between("❓ 未知命令: "@, c, " (/help 查看帮助)"@);
        },
        _ => {},
    }
}

proof fn lemma_regroup(a: Seq<char>, b: Seq<char>, c: Seq<char>, d: Seq<char>)
    ensures
        a + b + c + d == a + (b + c + d),
{
    assert(a + b + c + d =~= a + (b + c + d));
}

proof fn lemma_between(a: Seq<char>, b: Seq<char>, c: Seq<char>)
    ensures
        text::occurs(a + b + c, b),
{
    text::law_occurs_is_in_between(a, b, c);
}

/// A session is shown by its name and its account, and by how many messages are
/// unread exactly where some are.
pub proof fn law_sessions_are_shown(s: SessionView, sessions: Seq<SessionView>, i: int)
    ensures
        s.unread_count <= 0 ==> session_text(s) == "💬  "@ + s.display_name + " ("@ + s.username
            + ")"@,
        s.unread_count > 0 ==> session_text(s) == "💬  "@ + s.display_name + " ("@ + s.username
            + ")"@ + (" [未读:"@ + number::int_dec(s.unread_count as int) + "]"@),
        sessions_text(sessions).len() == sessions.len() + 2,
        0 <= i < sessions.len() ==> sessions_text(sessions)[i + 1] == info(
            session_text(sessions[i]),
        ),
        sessions_text(sessions)[0] == info(
            "💬 === 会话列表 ("@ + number::int_dec(sessions.len() as int) + " 个) ==="@,
        ),
{
    let base = "💬  "@ + s.display_name + " ("@ + s.username + ")"@;
    assert(base + Seq::<char>::empty() =~= base);
}

/// The report from afar tells status, databases, contacts and chats, and how
/// long the program runs, in hours and minutes.
pub proof fn law_uptime_is_told(
    status: Seq<char>,
    db: bool,
    contacts: nat,
    listening: nat,
    listed: Seq<char>,
    hours: nat,
    minutes: nat,
    seconds: nat,
    version: Seq<char>,
)
    requires
        minutes < 60,
        seconds < 60,
    ensures
        remote_status_text(
            status,
            db,
            contacts,
            listening,
            listed,
            3600 * hours + 60 * minutes + seconds,
            version,
        ) == "📊 微信: "@ + status + "\n📊 数据库: "@ + (if db {
            "可用"@
        } else {
            "不可用"@
        }) + " | 联系人: "@ + number::dec(contacts) + "\n📊 监听: "@ + number::dec(listening)
            + " 个 "@ + listed + "\n📊 运行: "@ + number::dec(hours) + "h"@ + number::dec(minutes)
            + "m | v"@ + version,
{
    let uptime = 3600 * hours + 60 * minutes + seconds;
    assert(uptime / 3600 == hours);
    assert(uptime % 3600 == 60 * minutes + seconds);
    assert((uptime % 3600) / 60 == minutes);
}

/// A worker that drops a request, or is not there, is told of alike whatever was
/// asked of it.
pub proof fn law_lost_workers_are_told_alike(who: Seq<char>, what: Seq<char>, in_db: Option<bool>)
    ensures
        shown_of_sending(SendReply::Closed) == shown_of_adding(who, AddReply::Closed),
        shown_of_sending(SendReply::Closed) == shown_of_removing(who, RemoveReply::Closed),
        shown_of_sending(SendReply::Closed) == shown_of_auto_adding(who, AddReply::Closed).0,
        shown_of_sending(SendReply::Stopped) == shown_of_adding(who, AddReply::Stopped),
        shown_of_sending(SendReply::Stopped) == shown_of_removing(who, RemoveReply::Stopped),
        told_of_sending(SendReply::Closed) == shown_of_sending(SendReply::Closed).text,
        told_of_sending(SendReply::Closed) == told_of_adding(who, AddReply::Closed),
        told_of_sending(SendReply::Closed) == told_of_removing(who, RemoveReply::Closed),
        told_of_sending(SendReply::Stopped) == told_of_adding(who, AddReply::Stopped),
        told_of_sending(SendReply::Stopped) == told_of_removing(who, RemoveReply::Stopped),
        send_answer(SendReply::Closed, in_db, what) matches Err(e) && shown_of_sending(
            SendReply::Closed,
        ).text == "⚠️ "@ + e.message,
        send_answer(SendReply::Stopped, in_db, what) matches Err(e) && shown_of_sending(
            SendReply::Stopped,
        ).text == "⚠️ "@ + e.message,
{
    reveal_strlit("⚠️ ");
    reveal_strlit("⚠️ actor 响应通道已关闭");
    reveal_strlit("actor 响应通道已关闭");
    reveal_strlit("⚠️ InputEngine actor 已停止");
    reveal_strlit("InputEngine actor 已停止");
    assert("⚠️ actor 响应通道已关闭"@ =~= "⚠️ "@ + "actor 响应通道已关闭"@);
    assert("⚠️ InputEngine actor 已停止"@ =~= "⚠️ "@ + "InputEngine actor 已停止"@);
}

/// From afar a command is answered as on the console, but is written without the
/// slash; an unknown one is named.
pub proof fn law_answers_from_afar(cmd: Seq<char>, db: bool, config: bool)
    ensures
        remote_answer(RemoteView::AtMode) == Some(
            announcement(ConsoleView::AtMode, db, config)[0].text,
        ),
        remote_answer(RemoteView::Unknown { cmd }) matches Some(t) && text::ends(t, cmd),
        announcement(ConsoleView::ListenUsage, db, config)[0].text == "❌ 用法: /"@
            + remote_answer(RemoteView::ListenUsage)->0.skip(6),
        announcement(ConsoleView::UnlistenUsage, db, config)[0].text == "❌ 用法: /"@
            + remote_answer(RemoteView::UnlistenUsage)->0.skip(6),
        announcement(ConsoleView::SendUsage, db, config)[0].text == "❌ 用法: /"@
            + remote_answer(RemoteView::SendUsage)->0.skip(6),
{
    text::lemma_both_ends("❓ 未知命令: "@, cmd);
    reveal_strlit("❌ 用法: /");
    reveal_strlit("❌ 用法: listen <联系人/群名>");
    reveal_strlit("❌ 用法: /listen <联系人/群名>");
    reveal_strlit("❌ 用法: unlisten <联系人/群名>");
    reveal_strlit("❌ 用法: /unlisten <联系人/群名>");
    reveal_strlit("❌ 用法: send <收件人> <内容>");
    reveal_strlit("❌ 用法: /send <收件人> <内容>");
    assert("❌ 用法: /listen <联系人/群名>"@ =~= "❌ 用法: /"@
        + "❌ 用法: listen <联系人/群名>"@.skip(6));
    assert("❌ 用法: /unlisten <联系人/群名>"@ =~= "❌ 用法: /"@
        + "❌ 用法: unlisten <联系人/群名>"@.skip(6));
    assert("❌ 用法: /send <收件人> <内容>"@ =~= "❌ 用法: /"@
        + "❌ 用法: send <收件人> <内容>"@.skip(6));
}

} // verus!
