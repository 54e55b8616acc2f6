//! Who may use the interface, and which parts of it are open to everyone.
use vstd::prelude::*;
use vstd::utf8::*;
use crate::outside;
use crate::text;

verus! {

// ---------------------------------------------------------------------
// Percent encoding
// ---------------------------------------------------------------------

/// The value of a hexadecimal digit.
pub open spec fn hex_value(b: u8) -> Option<u8> {
    if 0x30 <= b <= 0x39 {
        Some((b - 0x30) as u8)
    } else if 0x61 <= b <= 0x66 {
        Some((b - 0x61 + 10) as u8)
    } else if 0x41 <= b <= 0x46 {
        Some((b - 0x41 + 10) as u8)
    } else {
        None
    }
}

/// The byte at a place, or zero behind the end.
pub open spec fn byte_or_zero(b: Seq<u8>, i: int) -> u8 {
    if i < b.len() {
        b[i]
    } else {
        0
    }
}

/// Bytes with each percent sign and the two digits behind it taken together. A
/// percent sign without digits stays, and what should be digits is dropped.
pub open spec fn unescaped(b: Seq<u8>) -> Seq<u8>
    decreases b.len(),
{
    if b.len() == 0 {
        Seq::empty()
    } else if b[0] == 0x25 {
        let rest = b.skip(if b.len() < 3 {
            b.len() as int
        } else {
            3
        });
        match (hex_value(byte_or_zero(b, 1)), hex_value(byte_or_zero(b, 2))) {
            (Some(high), Some(low)) => seq![(high * 16 + low) as u8] + unescaped(rest),
            _ => seq![b[0]] + unescaped(rest),
        }
    } else {
        seq![b[0]] + unescaped(b.skip(1))
    }
}

/// A text with its percent signs taken as escapes; unchanged where that gives
/// no UTF-8.
pub open spec fn percent_decoded(s: Seq<char>) -> Seq<char> {
    let b = unescaped(encode_utf8(s));
    if valid_utf8(b) {
        decode_utf8(b)
    } else {
        s
    }
}

/// The value of a hexadecimal digit.
pub fn hex_val(b: u8) -> (r: Option<u8>)
    ensures
        r == hex_value(b),
{
    if 0x30 <= b && b <= 0x39 {
        Some(b - 0x30)
    } else if 0x61 <= b && b <= 0x66 {
        Some(b - 0x61 + 10)
    } else if 0x41 <= b && b <= 0x46 {
        Some(b - 0x41 + 10)
    } else {
        None
    }
}

/// A text with its percent signs taken as escapes.
pub fn percent_decode(input: &str) -> (r: String)
    ensures
        r@ == percent_decoded(input@),
{
    let b = input.as_bytes();
    let mut out: Vec<u8> = Vec::new();
    let mut i: usize = 0;
    let ghost all = encode_utf8(input@);
    assert(all.skip(0) =~= all);
    assert(out@ + unescaped(all) =~= unescaped(all));
    while i < b.len()
        invariant
            0 <= i <= b@.len(),
            b@ == all,
            out@ + unescaped(all.skip(i as int)) == unescaped(all),
        decreases b@.len() - i,
    {
        let ghost rest = all.skip(i as int);
        let ghost before = out@;
        if b[i] == 0x25 {
            let left: usize = b.len() - i;
            let high: u8 = if left > 1 {
                b[i + 1]
            } else {
                0
            };
            let low: u8 = if left > 2 {
                b[i + 2]
            } else {
                0
            };
            let step: usize = if left < 3 {
                left
            } else {
                3
            };
            assert(high == byte_or_zero(rest, 1));
            assert(low == byte_or_zero(rest, 2));
            assert(rest.skip(step as int) =~= all.skip(i + step));
            match (hex_val(high), hex_val(low)) {
                (Some(h), Some(l)) => {
                    out.push(h * 16 + l);
                },
                _ => {
                    out.push(0x25);
                },
            }
            assert(out@ + unescaped(rest.skip(step as int)) =~= before + unescaped(rest));
            i = i + step;
        } else {
            out.push(b[i]);
            assert(rest.skip(1) =~= all.skip(i + 1));
            assert(out@ + unescaped(rest.skip(1)) =~= before + unescaped(rest));
            i = i + 1;
        }
    }
    assert(out@ + Seq::<u8>::empty() =~= out@);
    match outside::utf8_string(out) {
        Some(s) => s,
        None => input.to_owned(),
    }
}

/// Whether bytes spell others: each as itself, unless it is a percent sign, or
/// as a percent sign and two hexadecimal digits, small or capital.
pub open spec fn spells(e: Seq<u8>, b: Seq<u8>) -> bool
    decreases e.len(),
{
    if e.len() == 0 || b.len() == 0 {
        e.len() == 0 && b.len() == 0
    } else if e[0] == 0x25 {
        &&& e.len() >= 3
        &&& hex_value(e[1]) == Some(b[0] / 16)
        &&& hex_value(e[2]) == Some(b[0] % 16)
        &&& spells(e.skip(3), b.skip(1))
    } else {
        e[0] == b[0] && spells(e.skip(1), b.skip(1))
    }
}

/// However bytes are escaped, taking the escapes back gives the same bytes.
pub proof fn law_escapes_read_back(e: Seq<u8>, b: Seq<u8>)
    requires
        spells(e, b),
    ensures
        unescaped(e) == b,
    decreases e.len(),
{
    if e.len() > 0 {
        assert(seq![b[0]] + b.skip(1) =~= b);
        if e[0] == 0x25 {
            law_escapes_read_back(e.skip(3), b.skip(1));
            assert(((b[0] / 16) * 16 + b[0] % 16) as u8 == b[0]);
        } else {
            law_escapes_read_back(e.skip(1), b.skip(1));
        }
    }
}

/// Every byte has a spelling of its own: a percent sign and its digits, in
/// small letters or in capitals.
pub proof fn law_every_byte_can_be_escaped(b: u8, high: u8, low: u8)
    requires
        hex_value(high) == Some(b / 16),
        hex_value(low) == Some(b % 16),
    ensures
        spells(seq![0x25u8, high, low], seq![b]),
{
    let e = seq![0x25u8, high, low];
    assert(e.skip(3) =~= Seq::<u8>::empty());
    assert(seq![b].skip(1) =~= Seq::<u8>::empty());
    assert(spells(e.skip(3), seq![b].skip(1)));
}

// ---------------------------------------------------------------------
// Tokens
// ---------------------------------------------------------------------

/// Whether a header carries a token.
pub open spec fn header_carries(header: Seq<char>, token: Seq<char>) -> bool {
    match text::after_prefix(header, "Bearer "@) {
        Some(rest) => text::trim(rest) == token,
        None => false,
    }
}

/// Whether a parameter of a query carries a token.
pub open spec fn parameter_carries(pair: Seq<char>, token: Seq<char>) -> bool {
    match text::after_prefix(pair, "token="@) {
        Some(value) => percent_decoded(value) == token,
        None => false,
    }
}

/// Whether a query carries a token.
pub open spec fn query_carries(query: Seq<char>, token: Seq<char>) -> bool {
    exists|i: int|
        0 <= i < text::split(query, '&').len() && parameter_carries(
            #[trigger] text::split(query, '&')[i],
            token,
        )
}

/// Whether a request may pass: always without a token set up, else where its
/// header or its query carries the token.
pub open spec fn may_pass(
    token: Option<Seq<char>>,
    header: Option<Seq<char>>,
    query: Option<Seq<char>>,
) -> bool {
    match token {
        None => true,
        Some(t) => {
            ||| header is Some && header_carries(header->0, t)
            ||| query is Some && query_carries(query->0, t)
        },
    }
}

/// Whether a query carries a token.
fn query_has(query: &str, token: &str) -> (r: bool)
    ensures
        r == query_carries(query@, token@),
{
    let pairs = text::split_on(query, '&');
    let ghost all = text::split(query@, '&');
    let mut i: usize = 0;
    while i < pairs.len()
        invariant
            0 <= i <= pairs@.len(),
            all == text::split(query@, '&'),
            text::views(pairs@) == all,
            forall|j: int| 0 <= j < i ==> !parameter_carries(#[trigger] all[j], token@),
        decreases pairs@.len() - i,
    {
        assert(text::views(pairs@)[i as int] == pairs@[i as int]@);
        if let Some(value) = text::strip_prefix(pairs[i].as_str(), "token=") {
            if text::same(percent_decode(value.as_str()).as_str(), token) {
                assert(parameter_carries(all[i as int], token@));
                return true;
            }
        }
        i += 1;
    }
    assert(text::views(pairs@).len() == pairs@.len());
    false
}

/// Whether a request may pass, by its header and its query.
pub fn authorize(token: &Option<String>, header: &Option<String>, query: &Option<String>) -> (r:
    bool)
    ensures
        r == may_pass(text::opt_view(*token), text::opt_view(*header), text::opt_view(*query)),
{
    let token = match token {
        Some(t) => t.as_str(),
        None => {
            return true;
        },
    };
    if let Some(h) = header {
        if let Some(rest) = text::strip_prefix(h.as_str(), "Bearer ") {
            if text::same(text::trimmed(rest.as_str()).as_str(), token) {
                return true;
            }
        }
    }
    if let Some(q) = query {
        if query_has(q.as_str(), token) {
            return true;
        }
    }
    false
}

/// A header that names the token passes, white space around it or not, as long
/// as the token itself has none around it.
pub proof fn law_bearer_passes(token: Seq<char>, query: Option<Seq<char>>)
    requires
        text::trim(token) == token,
    ensures
        may_pass(Some(token), Some("Bearer "@ + token), query),
{
    let h = "Bearer "@ + token;
    reveal_strlit("Bearer ");
    assert(h.take(7) =~= "Bearer "@);
    assert(h.skip(7) =~= token);
    assert(text::after_prefix(h, "Bearer "@) == Some(token));
}

/// A query with a parameter that names the token passes, wherever it stands, as
/// long as the token has no percent sign.
pub proof fn law_plain_query_passes(
    token: Seq<char>,
    header: Option<Seq<char>>,
    query: Seq<char>,
    i: int,
)
    requires
        0 <= i < text::split(query, '&').len(),
        text::split(query, '&')[i] == "token="@ + token,
        !token.contains('%'),
    ensures
        may_pass(Some(token), header, Some(query)),
{
    lemma_after_key(token);
    lemma_no_percent(token);
    encode_utf8_valid_utf8(token);
    encode_utf8_decode_utf8(token);
    assert(parameter_carries(text::split(query, '&')[i], token));
}

/// A query with a parameter that names the token in escaped form passes,
/// wherever it stands, whatever the token holds and however it is escaped.
pub proof fn law_escaped_query_passes(
    token: Seq<char>,
    value: Seq<char>,
    header: Option<Seq<char>>,
    query: Seq<char>,
    i: int,
)
    requires
        0 <= i < text::split(query, '&').len(),
        text::split(query, '&')[i] == "token="@ + value,
        spells(encode_utf8(value), encode_utf8(token)),
    ensures
        may_pass(Some(token), header, Some(query)),
{
    lemma_after_key(value);
    law_escapes_read_back(encode_utf8(value), encode_utf8(token));
    encode_utf8_valid_utf8(token);
    encode_utf8_decode_utf8(token);
    assert(parameter_carries(text::split(query, '&')[i], token));
}

proof fn lemma_after_key(value: Seq<char>)
    ensures
        text::after_prefix("token="@ + value, "token="@) == Some(value),
{
    let p = "token="@ + value;
    reveal_strlit("token=");
    assert(p.subrange(0, 6) =~= "token="@);
    assert(p.skip(6) =~= value);
}

/// Bytes without a percent sign hold no escapes.
proof fn lemma_nothing_escaped(b: Seq<u8>)
    requires
        forall|k: int| 0 <= k < b.len() ==> b[k] != 0x25,
    ensures
        unescaped(b) == b,
    decreases b.len(),
{
    if b.len() > 0 {
        lemma_nothing_escaped(b.skip(1));
        assert(seq![b[0]] + b.skip(1) =~= b);
    }
}

proof fn lemma_scalar_bytes(u: u32)
    requires
        u != 0x25,
    ensures
        forall|k: int| 0 <= k < encode_scalar(u).len() ==> encode_scalar(u)[k] != 0x25,
{
    assert(u <= 0x7f && u != 0x25 ==> (u & 0x7f) as u8 != 0x25) by (bit_vector);
    assert((0xC0u8 | (((u >> 6) & 0x1F) as u8)) != 0x25) by (bit_vector);
    assert((0xE0u8 | (((u >> 12) & 0x0F) as u8)) != 0x25) by (bit_vector);
    assert((0xF0u8 | (((u >> 18) & 0x7) as u8)) != 0x25) by (bit_vector);
    assert((0x80u8 | ((u & 0x3F) as u8)) != 0x25) by (bit_vector);
    assert((0x80u8 | (((u >> 6) & 0x3F) as u8)) != 0x25) by (bit_vector);
    assert((0x80u8 | (((u >> 12) & 0x3F) as u8)) != 0x25) by (bit_vector);
    if has_width_1_encoding(u) {
        assert(leading_byte_width_1(u) != 0x25);
    } else if has_width_2_encoding(u) {
        assert(leading_byte_width_2(u) != 0x25);
    } else if has_width_3_encoding(u) {
        assert(leading_byte_width_3(u) != 0x25);
    } else {
        assert(leading_byte_width_4(u) != 0x25);
    }
}

/// In UTF-8 only a percent sign gives the byte of one.
proof fn lemma_percent_bytes(s: Seq<char>)
    requires
        !s.contains('%'),
    ensures
        forall|k: int| 0 <= k < encode_utf8(s).len() ==> encode_utf8(s)[k] != 0x25,
    decreases s.len(),
{
    if s.len() > 0 {
        let rest = s.drop_first();
        assert(!rest.contains('%')) by {
            if rest.contains('%') {
                let k = choose|k: int| 0 <= k < rest.len() && rest[k] == '%';
                assert(s[k + 1] == '%');
            }
        }
        lemma_percent_bytes(rest);
        assert(s[0] != '%') by {
            if s[0] == '%' {
                assert(s.contains('%'));
            }
        }
        let u = s[0] as u32;
        char_u32_cast(s[0], u);
        assert(u != 0x25);
        lemma_scalar_bytes(u);
        let first = encode_scalar(u);
        assert(encode_utf8(s) =~= first + encode_utf8(rest));
        assert forall|k: int| 0 <= k < encode_utf8(s).len() implies encode_utf8(s)[k] != 0x25 by {
            if k >= first.len() {
                assert(encode_utf8(s)[k] == encode_utf8(rest)[k - first.len()]);
            }
        }
    }
}

proof fn lemma_no_percent(s: Seq<char>)
    requires
        !s.contains('%'),
    ensures
        unescaped(encode_utf8(s)) == encode_utf8(s),
{
    lemma_percent_bytes(s);
    lemma_nothing_escaped(encode_utf8(s));
}

/// Without header and query nothing passes once a token is set up.
pub proof fn law_nothing_passes_bare(token: Seq<char>)
    ensures
        !may_pass(Some(token), None, None),
{
}

// ---------------------------------------------------------------------
// Routes
// ---------------------------------------------------------------------

/// How a route is called.
#[derive(Debug, Clone, Copy, PartialEq, Eq, Structural)]
pub enum Method {
    Get,
    Post,
    Delete,
}

/// What a route does.
#[derive(Debug, Clone, Copy, PartialEq, Eq, Structural)]
pub enum Endpoint {
    Status,
    Contacts,
    NewMessages,
    Send,
    SendImage,
    Sessions,
    Chat,
    ListenList,
    AddListen,
    RemoveListen,
    ListenMessages,
    Command,
    Tree,
    SessionTree,
    WebSocket,
}

/// A route of the interface.
#[derive(Debug, Clone, Copy)]
pub struct Route {
    pub method: Method,
    pub path: &'static str,
    pub endpoint: Endpoint,
    /// Whether it asks for the token.
    pub guarded: bool,
}

/// A route as a mathematical value.
pub struct RouteView {
    pub method: Method,
    pub path: Seq<char>,
    pub endpoint: Endpoint,
    pub guarded: bool,
}

impl View for Route {
    type V = RouteView;

    open spec fn view(&self) -> RouteView {
        RouteView {
            method: self.method,
            path: self.path@,
            endpoint: self.endpoint,
            guarded: self.guarded,
        }
    }
}

/// A route that asks for the token.
pub open spec fn guarded(method: Method, path: Seq<char>, endpoint: Endpoint) -> RouteView {
    RouteView { method, path, endpoint, guarded: true }
}

/// All routes.
pub open spec fn all_routes() -> Seq<RouteView> {
    seq![
        RouteView {
            method: Method::Get,
            path: "/status"@,
            endpoint: Endpoint::Status,
            guarded: false,
        },
        guarded(Method::Get, "/contacts"@, Endpoint::Contacts),
        guarded(Method::Get, "/messages/new"@, Endpoint::NewMessages),
        guarded(Method::Post, "/send"@, Endpoint::Send),
        guarded(Method::Post, "/send_image"@, Endpoint::SendImage),
        guarded(Method::Get, "/sessions"@, Endpoint::Sessions),
        guarded(Method::Post, "/chat"@, Endpoint::Chat),
        guarded(Method::Get, "/listen"@, Endpoint::ListenList),
        guarded(Method::Post, "/listen"@, Endpoint::AddListen),
        guarded(Method::Delete, "/listen"@, Endpoint::RemoveListen),
        guarded(Method::Get, "/listen/messages"@, Endpoint::ListenMessages),
        guarded(Method::Post, "/command"@, Endpoint::Command),
        guarded(Method::Get, "/debug/tree"@, Endpoint::Tree),
        guarded(Method::Get, "/debug/sessions"@, Endpoint::SessionTree),
        guarded(Method::Get, "/debug/session_tree"@, Endpoint::SessionTree),
        guarded(Method::Get, "/ws"@, Endpoint::WebSocket),
    ]
}

/// The views of some routes.
pub open spec fn route_views(routes: Seq<Route>) -> Seq<RouteView> {
    Seq::new(routes.len(), |i: int| routes[i]@)
}

/// A route that asks for the token.
fn guard(method: Method, path: &'static str, endpoint: Endpoint) -> (r: Route)
    ensures
        r@ == guarded(method, path@, endpoint),
{
    Route { method, path, endpoint, guarded: true }
}

/// All routes.
pub fn routes() -> (r: Vec<Route>)
    ensures
        route_views(r@) == all_routes(),
{
    let r: Vec<Route> = vec![
        Route {
            method: Method::Get,
            path: "/status",
            endpoint: Endpoint::Status,
            guarded: false,
        },
        guard(Method::Get, "/contacts", Endpoint::Contacts),
        guard(Method::Get, "/messages/new", Endpoint::NewMessages),
        guard(Method::Post, "/send", Endpoint::Send),
        guard(Method::Post, "/send_image", Endpoint::SendImage),
        guard(Method::Get, "/sessions", Endpoint::Sessions),
        guard(Method::Post, "/chat", Endpoint::Chat),
        guard(Method::Get, "/listen", Endpoint::ListenList),
        guard(Method::Post, "/listen", Endpoint::AddListen),
        guard(Method::Delete, "/listen", Endpoint::RemoveListen),
        guard(Method::Get, "/listen/messages", Endpoint::ListenMessages),
        guard(Method::Post, "/command", Endpoint::Command),
        guard(Method::Get, "/debug/tree", Endpoint::Tree),
        guard(Method::Get, "/debug/sessions", Endpoint::SessionTree),
        guard(Method::Get, "/debug/session_tree", Endpoint::SessionTree),
        guard(Method::Get, "/ws", Endpoint::WebSocket),
    ];
    assert(route_views(r@) =~= all_routes());
    r
}

/// Whether a request to a route is let through: an unguarded one always.
pub fn lets_through(
    route: &Route,
    token: &Option<String>,
    header: &Option<String>,
    query: &Option<String>,
) -> (r: bool)
    ensures
        r == (!route@.guarded || may_pass(
            text::opt_view(*token),
            text::opt_view(*header),
            text::opt_view(*query),
        )),
{
    !route.guarded || authorize(token, header, query)
}

/// Every route but the one for the status asks for the token.
pub proof fn law_only_status_is_open(i: int)
    requires
        0 <= i < all_routes().len(),
    ensures
        all_routes()[i].guarded <==> !(all_routes()[i].endpoint == Endpoint::Status),
{
}

// ---------------------------------------------------------------------
// Laws on who may pass
// ---------------------------------------------------------------------

/// Two hexadecimal digits in either case, and only those, have a value; equal
/// letters in different cases have the same.
pub proof fn law_sixteen_digits(b: u8)
    ensures
        hex_value(b) matches Some(n) ==> n < 16,
        48 <= b <= 57 ==> hex_value(b) == Some((b - 48) as u8),
        97 <= b <= 102 ==> hex_value(b) == hex_value((b - 32) as u8) && hex_value(b) == Some(
            (b - 87) as u8,
        ),
        hex_value(b) is Some <==> 48 <= b <= 57 || 65 <= b <= 70 || 97 <= b <= 102,
{
}

/// What is no escape stays as it is; an escape that is none stays as its percent
/// sign.
pub proof fn law_only_escapes_change(plain: Seq<u8>, x: u8, y: u8, rest: Seq<u8>)
    requires
        forall|k: int| 0 <= k < plain.len() ==> plain[k] != 0x25,
    ensures
        unescaped(plain + rest) == plain + unescaped(rest),
        hex_value(x) is None || hex_value(y) is None ==> unescaped(seq![0x25u8, x, y] + rest)
            == seq![0x25u8] + unescaped(rest),
        hex_value(x) is Some && hex_value(y) is Some ==> unescaped(seq![0x25u8, x, y] + rest)
            == seq![(16 * hex_value(x)->0 + hex_value(y)->0) as u8] + unescaped(rest),
        unescaped(Seq::empty()) == Seq::<u8>::empty(),
    decreases plain.len(),
{
    let e = seq![0x25u8, x, y] + rest;
    assert(e[0] == 0x25 && e[1] == x && e[2] == y);
    assert(e.skip(3) =~= rest);
    if plain.len() == 0 {
        assert(plain + rest =~= rest);
        assert(plain + unescaped(rest) =~= unescaped(rest));
    } else {
        let all = plain + rest;
        law_only_escapes_change(plain.skip(1), x, y, rest);
        assert(all[0] == plain[0]);
        assert(all.skip(1) =~= plain.skip(1) + rest);
        assert(plain + unescaped(rest) =~= seq![plain[0]] + (plain.skip(1) + unescaped(rest)));
    }
}

/// Without a token everyone passes.
pub proof fn law_all_pass_without_token(header: Option<Seq<char>>, query: Option<Seq<char>>)
    ensures
        may_pass(None, header, query),
{
}

/// A header alone passes exactly where it holds the token behind the word that
/// announces it, with white space around the token or not.
pub proof fn law_header_must_hold_the_token(
    token: Seq<char>,
    before: Seq<char>,
    value: Seq<char>,
    after: Seq<char>,
    header: Seq<char>,
)
    requires
        text::all_space(before),
        text::all_space(after),
        value.len() > 0,
        !text::is_space(value[0]),
        !text::is_space(value.last()),
    ensures
        may_pass(Some(token), Some("Bearer "@ + (before + value + after)), None) <==> value
            == token,
        may_pass(Some(token), Some(header), None) ==> text::begins(header, "Bearer "@)
            && text::occurs(header, token),
{
    let rest = before + value + after;
    text::law_trimmed_between(before, value, after);
    text::law_prefix_comes_off("Bearer "@, rest);
    if may_pass(Some(token), Some(header), None) {
        let r = text::after_prefix(header, "Bearer "@)->0;
        text::law_prefix_comes_off("Bearer "@, header);
        let cut = text::law_trim_takes_white_space(r);
        text::law_occurs_is_in_between("Bearer "@ + cut.0, token, cut.1);
        assert("Bearer "@ + cut.0 + token + cut.1 =~= header);
    }
}

/// A query alone passes exactly where one of its parts names the token: a part
/// of another name does not, nor one with another token, wherever it stands.
pub proof fn law_query_must_hold_the_token(
    token: Seq<char>,
    parts: Seq<Seq<char>>,
    values: Seq<Seq<char>>,
)
    requires
        parts.len() > 0,
        parts.len() == values.len(),
        forall|i: int| 0 <= i < parts.len() ==> !(#[trigger] parts[i]).contains('&'),
        forall|i: int|
            0 <= i < parts.len() ==> !text::begins(#[trigger] parts[i], "token="@) || parts[i]
                == "token="@ + values[i] && !values[i].contains('%'),
    ensures
        may_pass(Some(token), None, Some(text::join(parts, seq!['&']))) <==> exists|i: int|
            0 <= i < parts.len() && #[trigger] parts[i] == "token="@ + token,
{
    let query = text::join(parts, seq!['&']);
    text::law_joined_splits(parts, '&');
    assert forall|i: int| 0 <= i < parts.len() implies parameter_carries(#[trigger] parts[i], token)
        == (parts[i] == "token="@ + token) by {
        if text::begins(parts[i], "token="@) {
            let v = values[i];
            lemma_after_key(v);
            lemma_after_key(token);
            lemma_no_percent(v);
            encode_utf8_valid_utf8(v);
            encode_utf8_decode_utf8(v);
            assert(percent_decoded(v) == v);
        } else if parts[i] == "token="@ + token {
            lemma_after_key(token);
        }
    }
    if query_carries(query, token) {
        let i = choose|i: int|
            0 <= i < text::split(query, '&').len() && parameter_carries(
                #[trigger] text::split(query, '&')[i],
                token,
            );
        assert(parts[i] == "token="@ + token);
    }
    if exists|i: int| 0 <= i < parts.len() && #[trigger] parts[i] == "token="@ + token {
        let i = choose|i: int| 0 <= i < parts.len() && #[trigger] parts[i] == "token="@ + token;
        assert(parameter_carries(text::split(query, '&')[i], token));
    }
}

/// Whoever passes by header or query alone passes by both.
pub proof fn law_either_is_enough(
    token: Seq<char>,
    header: Option<Seq<char>>,
    query: Option<Seq<char>>,
)
    ensures
        may_pass(Some(token), header, query) <==> may_pass(Some(token), header, None) || may_pass(
            Some(token),
            None,
            query,
        ),
{
}

/// Every route but the one that tells the status asks for the token, and no two
/// routes have the same method and path.
pub proof fn law_only_the_status_is_open(i: int, j: int)
    requires
        0 <= i < all_routes().len(),
        0 <= j < all_routes().len(),
    ensures
        all_routes()[i].guarded <==> all_routes()[i].endpoint != Endpoint::Status,
        i != j ==> all_routes()[i].method != all_routes()[j].method || all_routes()[i].path
            != all_routes()[j].path,
        i != j && all_routes()[i].endpoint == all_routes()[j].endpoint ==> all_routes()[i].endpoint
            == Endpoint::SessionTree,
        all_routes()[i].endpoint == Endpoint::Send || all_routes()[i].endpoint
            == Endpoint::SendImage || all_routes()[i].endpoint == Endpoint::Chat
            || all_routes()[i].endpoint == Endpoint::AddListen || all_routes()[i].endpoint
            == Endpoint::Command ==> all_routes()[i].method == Method::Post,
        all_routes()[i].method == Method::Delete <==> all_routes()[i].endpoint
            == Endpoint::RemoveListen,
{
    reveal_strlit("/status");
    reveal_strlit("/contacts");
    reveal_strlit("/messages/new");
    reveal_strlit("/send");
    reveal_strlit("/send_image");
    reveal_strlit("/sessions");
    reveal_strlit("/chat");
    reveal_strlit("/listen");
    reveal_strlit("/listen/messages");
    reveal_strlit("/command");
    reveal_strlit("/debug/tree");
    reveal_strlit("/debug/sessions");
    reveal_strlit("/debug/session_tree");
    reveal_strlit("/ws");
    assert("/status"@.len() == 7 && "/contacts"@.len() == 9 && "/messages/new"@.len() == 13
        && "/send"@.len() == 5 && "/send_image"@.len() == 11 && "/sessions"@.len() == 9
        && "/chat"@.len() == 5 && "/listen"@.len() == 7 && "/listen/messages"@.len() == 16
        && "/command"@.len() == 8 && "/debug/tree"@.len() == 11 && "/debug/sessions"@.len() == 15
        && "/debug/session_tree"@.len() == 19 && "/ws"@.len() == 3);
    assert("/contacts"@[1] == 'c' && "/sessions"@[1] == 's' && "/send"@[1] == 's' && "/chat"@[1]
        == 'c' && "/status"@[1] == 's' && "/listen"@[1] == 'l' && "/debug/tree"@[1] == 'd'
        && "/send_image"@[1] == 's');
}

} // verus!
