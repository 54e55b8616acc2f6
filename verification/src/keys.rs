//! Database keys: their hexadecimal form, which one a database has, and how a
//! database is opened with it.
use vstd::prelude::*;
use crate::bytes;
use crate::number;
use crate::outside;
use crate::schema;
use crate::text;

verus! {

// ---------------------------------------------------------------------
// Hexadecimal digits
// ---------------------------------------------------------------------

/// What is wrong with a text of hexadecimal digits.
#[derive(Debug, Clone)]
pub enum HexError {
    /// It has an odd number of bytes.
    OddLength,
    /// Two bytes of it are no number.
    BadPair { pair: String },
}

/// What is wrong with a text of hexadecimal digits, as a mathematical value.
pub enum HexErrorView {
    OddLength,
    BadPair { pair: Seq<char> },
}

impl View for HexError {
    type V = HexErrorView;

    open spec fn view(&self) -> HexErrorView {
        match self {
            HexError::OddLength => HexErrorView::OddLength,
            HexError::BadPair { pair } => HexErrorView::BadPair { pair: pair@ },
        }
    }
}

/// The value of a hexadecimal digit.
pub open spec fn hex_value(c: char) -> Option<u8> {
    if '0' <= c && c <= '9' {
        Some((c as int - '0' as int) as u8)
    } else if 'a' <= c && c <= 'f' {
        Some((c as int - 'a' as int + 10) as u8)
    } else if 'A' <= c && c <= 'F' {
        Some((c as int - 'A' as int + 10) as u8)
    } else {
        None
    }
}

/// The number that two characters stand for: two digits, or a plus sign and
/// one digit.
pub open spec fn pair_value(a: char, b: char) -> Option<u8> {
    match hex_value(b) {
        Some(low) => if a == '+' {
            Some(low)
        } else {
            match hex_value(a) {
                Some(high) => Some((high * 16 + low) as u8),
                None => None,
            }
        },
        None => None,
    }
}

/// The bytes that a text of hexadecimal digits stands for, up to the first two
/// bytes that are no number.
pub open spec fn hex_read(s: Seq<char>) -> Result<Seq<u8>, HexErrorView>
    decreases s.len(),
{
    if s.len() == 0 {
        Ok(Seq::empty())
    } else if s.len() == 1 || bytes::width(s[0]) != 1 {
        Err(HexErrorView::BadPair { pair: s.take(1) })
    } else {
        match pair_value(s[0], s[1]) {
            Some(n) => match hex_read(s.skip(2)) {
                Ok(rest) => Ok(seq![n] + rest),
                Err(e) => Err(e),
            },
            None => Err(HexErrorView::BadPair { pair: s.take(2) }),
        }
    }
}

/// The bytes that a text stands for, or what is wrong with it.
pub open spec fn hex_bytes(s: Seq<char>) -> Result<Seq<u8>, HexErrorView> {
    if bytes::byte_len(s) % 2 != 0 {
        Err(HexErrorView::OddLength)
    } else {
        hex_read(s)
    }
}

/// Whether cutting a text into pieces of two bytes, up to the first piece that
/// is no number, never cuts through a character.
pub open spec fn cut_cleanly(s: Seq<char>) -> bool
    decreases s.len(),
{
    if s.len() == 0 {
        true
    } else if bytes::width(s[0]) == 2 {
        true
    } else {
        &&& bytes::width(s[0]) == 1
        &&& s.len() >= 2
        &&& bytes::width(s[1]) == 1
        &&& pair_value(s[0], s[1]) is Some ==> cut_cleanly(s.skip(2))
    }
}

/// Whether a text can be read as hexadecimal digits at all.
pub open spec fn hex_readable(s: Seq<char>) -> bool {
    bytes::byte_len(s) % 2 == 0 ==> cut_cleanly(s)
}

/// The value of a hexadecimal digit.
fn hex_digit(c: char) -> (r: Option<u8>)
    ensures
        r == hex_value(c),
{
    let n: u32 = c as u32;
    if '0' <= c && c <= '9' {
        Some((n - 48) as u8)
    } else if 'a' <= c && c <= 'f' {
        Some((n - 87) as u8)
    } else if 'A' <= c && c <= 'F' {
        Some((n - 55) as u8)
    } else {
        None
    }
}

/// The number that two characters stand for.
fn hex_pair(a: char, b: char) -> (r: Option<u8>)
    ensures
        r == pair_value(a, b),
{
    match hex_digit(b) {
        Some(low) => if a == '+' {
            Some(low)
        } else {
            match hex_digit(a) {
                Some(high) => Some(high * 16 + low),
                None => None,
            }
        },
        None => None,
    }
}

/// Whether a text can be read as hexadecimal digits at all.
pub fn is_hex_readable(hex: &str) -> (r: bool)
    ensures
        r == hex_readable(hex@),
{
    if bytes::len_bytes(hex) % 2 != 0 {
        return true;
    }
    let v = text::to_chars(hex);
    let mut i: usize = 0;
    assert(v@.skip(0) =~= v@);
    while i < v.len()
        invariant
            0 <= i <= v.len(),
            v@ == hex@,
            bytes::byte_len(hex@) % 2 == 0,
            cut_cleanly(v@) == cut_cleanly(v@.skip(i as int)),
        decreases v@.len() - i,
    {
        let ghost rest = v@.skip(i as int);
        if bytes::char_width(v[i]) == 2 {
            return true;
        }
        if bytes::char_width(v[i]) != 1 || i + 1 >= v.len() || bytes::char_width(v[i + 1]) != 1 {
            return false;
        }
        assert(rest[0] == v@[i as int] && rest[1] == v@[i + 1]);
        assert(rest.skip(2) =~= v@.skip(i + 2));
        match hex_pair(v[i], v[i + 1]) {
            Some(_) => {},
            None => {
                return true;
            },
        }
        i += 2;
    }
    true
}

/// The bytes that a text of hexadecimal digits stands for.
pub fn hex_to_bytes(hex: &str) -> (r: Result<Vec<u8>, HexError>)
    requires
        hex_readable(hex@),
    ensures
        match r {
            Ok(b) => hex_bytes(hex@) == Ok::<Seq<u8>, HexErrorView>(b@),
            Err(e) => hex_bytes(hex@) == Err::<Seq<u8>, HexErrorView>(e@),
        },
{
    if bytes::len_bytes(hex) % 2 != 0 {
        return Err(HexError::OddLength);
    }
    let v = text::to_chars(hex);
    let mut out: Vec<u8> = Vec::new();
    let mut i: usize = 0;
    assert(v@.skip(0) =~= v@);
    proof {
        if hex_read(v@) is Ok {
            assert(Seq::<u8>::empty() + hex_read(v@)->Ok_0 =~= hex_read(v@)->Ok_0);
        }
    }
    while i < v.len()
        invariant
            0 <= i <= v.len(),
            v@ == hex@,
            bytes::byte_len(hex@) % 2 == 0,
            hex_read(v@) == match hex_read(v@.skip(i as int)) {
                Ok(rest) => Ok::<Seq<u8>, HexErrorView>(out@ + rest),
                Err(e) => Err(e),
            },
        decreases v@.len() - i,
    {
        let ghost rest = v@.skip(i as int);
        let ghost before = out@;
        if i + 1 >= v.len() || bytes::char_width(v[i]) != 1 {
            let pair = text::cut(&v, i, i + 1);
            assert(pair@ =~= rest.take(1));
            return Err(HexError::BadPair { pair });
        }
        assert(rest[0] == v@[i as int] && rest[1] == v@[i + 1]);
        assert(rest.skip(2) =~= v@.skip(i + 2));
        match hex_pair(v[i], v[i + 1]) {
            Some(n) => {
                out.push(n);
                proof {
                    if hex_read(rest.skip(2)) is Ok {
                        assert(before + (seq![n] + hex_read(rest.skip(2))->Ok_0) =~= out@
                            + hex_read(rest.skip(2))->Ok_0);
                    }
                }
            },
            None => {
                let pair = text::cut(&v, i, i + 2);
                assert(pair@ =~= rest.take(2));
                return Err(HexError::BadPair { pair });
            },
        }
        i += 2;
    }
    assert(v@.skip(v@.len() as int).len() == 0);
    assert(out@ + Seq::<u8>::empty() =~= out@);
    Ok(out)
}

proof fn lemma_hex_byte(b: u8)
    ensures
        number::hex_fixed(b as nat, 2).len() == 2,
        bytes::width(number::hex_fixed(b as nat, 2)[0]) == 1,
        bytes::width(number::hex_fixed(b as nat, 2)[1]) == 1,
        pair_value(number::hex_fixed(b as nat, 2)[0], number::hex_fixed(b as nat, 2)[1]) == Some(b),
{
    reveal_with_fuel(number::hex_fixed, 3);
    let high = number::hex_digit((b as int / 16) % 16);
    let low = number::hex_digit(b as int % 16);
    let s = number::hex_fixed(b as nat, 2);
    assert(s =~= seq![high, low]);
    assert((b as int / 16) % 16 == b as int / 16);
    assert(hex_value(high) == Some((b as int / 16) as u8));
    assert(hex_value(low) == Some((b as int % 16) as u8));
    assert(high != '+');
}

/// Reading on behind what is there reads one text after the other.
proof fn lemma_hex_read_concat(b: Seq<u8>, tail: Seq<char>)
    ensures
        hex_read(number::hex_text(b) + tail) == match hex_read(tail) {
            Ok(rest) => Ok::<Seq<u8>, HexErrorView>(b + rest),
            Err(e) => Err(e),
        },
        cut_cleanly(tail) ==> cut_cleanly(number::hex_text(b) + tail),
        bytes::byte_len(number::hex_text(b) + tail) == 2 * b.len() + bytes::byte_len(tail),
    decreases b.len(),
{
    if b.len() == 0 {
        assert(number::hex_text(b) + tail =~= tail);
        if hex_read(tail) is Ok {
            assert(b + hex_read(tail)->Ok_0 =~= hex_read(tail)->Ok_0);
        }
    } else {
        let last = b.last();
        let pair = number::hex_fixed(last as nat, 2);
        lemma_hex_byte(last);
        let longer = pair + tail;
        lemma_hex_read_concat(b.drop_last(), longer);
        assert(number::hex_text(b) + tail =~= number::hex_text(b.drop_last()) + longer);
        assert(longer.skip(2) =~= tail);
        assert(longer[0] == pair[0] && longer[1] == pair[1]);
        if hex_read(tail) is Ok {
            assert(b.drop_last() + (seq![last] + hex_read(tail)->Ok_0) =~= b
                + hex_read(tail)->Ok_0);
        }
        bytes::lemma_byte_len(longer);
        bytes::lemma_byte_len(tail);
        bytes::lemma_encode_concat(pair, tail);
        bytes::lemma_encode_concat(seq![pair[0]], seq![pair[1]]);
        bytes::lemma_encode_one(pair[0]);
        bytes::lemma_encode_one(pair[1]);
        assert(seq![pair[0]] + seq![pair[1]] =~= pair);
    }
}

/// Bytes written as hexadecimal digits are read back as they were.
pub proof fn law_hex_reads_back(b: Seq<u8>)
    ensures
        hex_readable(number::hex_text(b)),
        hex_bytes(number::hex_text(b)) == Ok::<Seq<u8>, HexErrorView>(b),
{
    lemma_hex_read_concat(b, Seq::empty());
    assert(number::hex_text(b) + Seq::<char>::empty() =~= number::hex_text(b));
    assert(b + Seq::<u8>::empty() =~= b);
}

// ---------------------------------------------------------------------
// Which key
// ---------------------------------------------------------------------

/// The last of the pieces of a path that are neither empty nor a dot.
pub open spec fn last_piece(pieces: Seq<Seq<char>>) -> Seq<char>
    decreases pieces.len(),
{
    if pieces.len() == 0 {
        Seq::empty()
    } else if pieces.last().len() == 0 || pieces.last() == "."@ {
        last_piece(pieces.drop_last())
    } else {
        pieces.last()
    }
}

/// The file name of a path: its last piece, unless that leads to the parent.
pub open spec fn base_name(path: Seq<char>) -> Seq<char> {
    let last = last_piece(text::split(path, '/'));
    if last == ".."@ {
        Seq::empty()
    } else {
        last
    }
}

/// The value of the first pair with a key.
pub open spec fn exact_match(pairs: Seq<(Seq<char>, Seq<char>)>, key: Seq<char>) -> Option<Seq<char>>
    decreases pairs.len(),
{
    if pairs.len() == 0 {
        None
    } else if pairs[0].0 == key {
        Some(pairs[0].1)
    } else {
        exact_match(pairs.skip(1), key)
    }
}

/// The value of the first pair whose key ends in a name.
pub open spec fn suffix_match(
    pairs: Seq<(Seq<char>, Seq<char>)>,
    name: Seq<char>,
) -> Option<Seq<char>>
    decreases pairs.len(),
{
    if pairs.len() == 0 {
        None
    } else if text::ends(pairs[0].0, name) {
        Some(pairs[0].1)
    } else {
        suffix_match(pairs.skip(1), name)
    }
}

/// The key of a database: under its full name, else under any name that ends
/// in its file name.
pub open spec fn key_for(pairs: Seq<(Seq<char>, Seq<char>)>, db: Seq<char>) -> Option<Seq<char>> {
    match exact_match(pairs, db) {
        Some(key) => Some(key),
        None => suffix_match(pairs, base_name(db)),
    }
}

/// The views of some pairs.
pub open spec fn pair_views(pairs: Seq<(String, String)>) -> Seq<(Seq<char>, Seq<char>)> {
    Seq::new(pairs.len(), |i: int| (pairs[i].0@, pairs[i].1@))
}

/// The file name of a path.
pub fn file_name(path: &str) -> (r: String)
    ensures
        r@ == base_name(path@),
{
    let pieces = text::split_on(path, '/');
    let ghost all = text::views(pieces@);
    let mut n: usize = pieces.len();
    assert(all.take(all.len() as int) =~= all);
    while n > 0
        invariant
            0 <= n <= pieces@.len(),
            all == text::views(pieces@),
            last_piece(all) == last_piece(all.take(n as int)),
            all == text::split(path@, '/'),
        decreases n,
    {
        let piece = &pieces[n - 1];
        assert(all.take(n as int).last() == piece@);
        assert(all.take(n as int).drop_last() =~= all.take(n - 1));
        if !(piece.as_str().is_empty() || text::same(piece.as_str(), ".")) {
            if text::same(piece.as_str(), "..") {
                return String::new();
            }
            return piece.clone();
        }
        n -= 1;
    }
    proof {
        reveal_strlit("..");
    }
    String::new()
}

/// The key of a database among some pairs of names and keys.
pub fn find_key(pairs: &Vec<(String, String)>, db: &str) -> (r: Option<String>)
    ensures
        text::opt_view(r) == key_for(pair_views(pairs@), db@),
{
    let ghost all = pair_views(pairs@);
    let mut i: usize = 0;
    assert(all.skip(0) =~= all);
    while i < pairs.len()
        invariant
            0 <= i <= pairs@.len(),
            all == pair_views(pairs@),
            exact_match(all, db@) == exact_match(all.skip(i as int), db@),
        decreases pairs@.len() - i,
    {
        assert(all.skip(i as int)[0] == (pairs@[i as int].0@, pairs@[i as int].1@));
        assert(all.skip(i as int).skip(1) =~= all.skip(i + 1));
        if text::same(pairs[i].0.as_str(), db) {
            return Some(pairs[i].1.clone());
        }
        i += 1;
    }
    let name = file_name(db);
    let mut j: usize = 0;
    while j < pairs.len()
        invariant
            0 <= j <= pairs@.len(),
            all == pair_views(pairs@),
            name@ == base_name(db@),
            exact_match(all, db@) is None,
            suffix_match(all, name@) == suffix_match(all.skip(j as int), name@),
        decreases pairs@.len() - j,
    {
        assert(all.skip(j as int)[0] == (pairs@[j as int].0@, pairs@[j as int].1@));
        assert(all.skip(j as int).skip(1) =~= all.skip(j + 1));
        if text::ends_with(pairs[j].0.as_str(), name.as_str()) {
            return Some(pairs[j].1.clone());
        }
        j += 1;
    }
    None
}

/// The key of a database in a text of JSON that maps names to keys.
pub fn lookup_db_key(json: &str, db: &str) -> (r: Option<String>)
    ensures
        text::opt_view(r) == match outside::json_strings(json@) {
            Some(pairs) => key_for(pairs, db@),
            None => None,
        },
{
    match outside::parse_json_strings(json) {
        Some(pairs) => {
            proof {
                assert(outside::json_strings(json@)->0 =~= pair_views(pairs@));
            }
            find_key(&pairs, db)
        },
        None => None,
    }
}

/// How a database is unlocked.
#[derive(Debug, Clone)]
pub enum Unlock {
    /// By a statement that carries a key already derived.
    Statement { sql: String },
    /// By a raw key that the database derives its own from.
    RawKey { key: Vec<u8> },
}

/// How a database is unlocked, as a mathematical value.
pub enum UnlockView {
    Statement { sql: Seq<char> },
    RawKey { key: Seq<u8> },
}

impl View for Unlock {
    type V = UnlockView;

    open spec fn view(&self) -> UnlockView {
        match self {
            Unlock::Statement { sql } => UnlockView::Statement { sql: sql@ },
            Unlock::RawKey { key } => UnlockView::RawKey { key: key@ },
        }
    }
}

/// How a database is unlocked with a key: one of 48 bytes is derived already.
pub open spec fn unlock_with(hex: Seq<char>, key: Seq<u8>) -> UnlockView {
    if key.len() == 48 {
        UnlockView::Statement { sql: "PRAGMA key = \"x'"@ + hex + "'\";"@ }
    } else {
        UnlockView::RawKey { key }
    }
}

/// How a database is unlocked: with its own key, else with the default one. An
/// own key that is no text of hexadecimal digits counts as empty.
pub open spec fn unlock_for(
    own: Option<Seq<char>>,
    default_hex: Seq<char>,
    default_key: Seq<u8>,
) -> UnlockView {
    match own {
        Some(hex) => unlock_with(
            hex,
            match hex_bytes(hex) {
                Ok(b) => b,
                Err(_) => Seq::empty(),
            },
        ),
        None => unlock_with(default_hex, default_key),
    }
}

/// How a database is unlocked with a key.
fn unlock_by(hex: &str, key: Vec<u8>) -> (r: Unlock)
    ensures
        r@ == unlock_with(hex@, key@),
{
    if key.len() == 48 {
        let mut sql = "PRAGMA key = \"x'".to_owned();
        sql.append(hex);
        sql.append("'\";");
        Unlock::Statement { sql }
    } else {
        Unlock::RawKey { key }
    }
}

/// How a database is unlocked, given its own key, if it has one, and the
/// default one.
pub fn unlock(own: &Option<String>, default_hex: &str, default_key: &Vec<u8>) -> (r: Unlock)
    requires
        own is Some ==> hex_readable(own->0@),
    ensures
        r@ == unlock_for(text::opt_view(*own), default_hex@, default_key@),
{
    match own {
        Some(hex) => {
            let key = match hex_to_bytes(hex.as_str()) {
                Ok(b) => b,
                Err(_) => Vec::new(),
            };
            unlock_by(hex.as_str(), key)
        },
        None => unlock_by(default_hex, default_key.clone()),
    }
}

/// The statements that set a database up once it is unlocked, in order: its
/// cipher's version, no checkpoints of the log, no writing, and how long to
/// wait for a lock.
pub fn setup_statements() -> (r: Vec<&'static str>)
    ensures
        schema::str_views(r@) == seq![
            "PRAGMA cipher_compatibility = 4;"@,
            "PRAGMA wal_autocheckpoint = 0;"@,
            "PRAGMA query_only = ON;"@,
            "PRAGMA busy_timeout = 5000;"@,
        ],
{
    let r: Vec<&'static str> = vec![
        "PRAGMA cipher_compatibility = 4;",
        "PRAGMA wal_autocheckpoint = 0;",
        "PRAGMA query_only = ON;",
        "PRAGMA busy_timeout = 5000;",
    ];
    assert(schema::str_views(r@) =~= seq![
        "PRAGMA cipher_compatibility = 4;"@,
        "PRAGMA wal_autocheckpoint = 0;"@,
        "PRAGMA query_only = ON;"@,
        "PRAGMA busy_timeout = 5000;"@,
    ]);
    r
}

/// The query that shows whether a database is unlocked.
pub fn probe_sql() -> (r: &'static str)
    ensures
        r@ == "SELECT count(*) FROM sqlite_master"@,
{
    "SELECT count(*) FROM sqlite_master"
}

// ---------------------------------------------------------------------
// Files and accounts
// ---------------------------------------------------------------------

/// Whether a file name is that of a message database: a number between
/// "message_" and ".db".
pub open spec fn names_message_db(name: Seq<char>) -> bool {
    match text::after_prefix(name, "message_"@) {
        Some(rest) => match text::before_suffix(rest, ".db"@) {
            Some(number) => number.len() > 0 && text::all_digits(number),
            None => false,
        },
        None => false,
    }
}

/// The message databases among some file names, by their path below the
/// storage directory.
pub open spec fn message_paths(names: Seq<Seq<char>>) -> Seq<Seq<char>>
    decreases names.len(),
{
    if names.len() == 0 {
        Seq::empty()
    } else if names_message_db(names.last()) {
        message_paths(names.drop_last()).push("message/"@ + names.last())
    } else {
        message_paths(names.drop_last())
    }
}

/// Whether the end of a directory's name marks a device: two to six letters or
/// digits.
pub open spec fn is_device_mark(s: Seq<char>) -> bool {
    &&& 2 <= s.len() <= 6
    &&& text::all_alnum(s)
    &&& !text::begins(s, "wxid"@)
}

/// The account of a directory's name: without the mark of a device behind its
/// last underscore.
pub open spec fn without_device(s: Seq<char>) -> Seq<char> {
    match text::last_index(s, '_') {
        Some(pos) => if is_device_mark(s.skip(pos + 1)) {
            s.take(pos)
        } else {
            s
        },
        None => s,
    }
}

/// The own account: from the first piece of the storage directory's path that
/// begins like an account; empty where there is none.
pub open spec fn own_account(pieces: Seq<Seq<char>>) -> Seq<char>
    decreases pieces.len(),
{
    if pieces.len() == 0 {
        Seq::empty()
    } else if text::begins(pieces[0], "wxid_"@) {
        without_device(pieces[0])
    } else {
        own_account(pieces.skip(1))
    }
}

/// Whether a file name is that of a message database.
pub fn is_message_db(name: &str) -> (r: bool)
    ensures
        r == names_message_db(name@),
{
    match text::strip_prefix(name, "message_") {
        Some(rest) => match text::strip_suffix(rest.as_str(), ".db") {
            Some(number) => !number.as_str().is_empty() && text::only_digits(number.as_str()),
            None => false,
        },
        None => false,
    }
}

/// The message databases among some file names, by their path below the
/// storage directory.
pub fn message_dbs(names: &Vec<String>) -> (r: Vec<String>)
    ensures
        text::views(r@) == message_paths(text::views(names@)),
{
    let mut r: Vec<String> = Vec::new();
    let mut i: usize = 0;
    let ghost all = text::views(names@);
    assert(text::views(r@) =~= message_paths(all.take(0)));
    while i < names.len()
        invariant
            0 <= i <= names@.len(),
            all == text::views(names@),
            text::views(r@) == message_paths(all.take(i as int)),
        decreases names@.len() - i,
    {
        assert(all.take(i + 1).drop_last() =~= all.take(i as int));
        let ghost before = r@;
        if is_message_db(names[i].as_str()) {
            let mut path = "message/".to_owned();
            path.append(names[i].as_str());
            r.push(path);
            assert(text::views(r@) =~= text::views(before).push(path@));
        }
        i += 1;
    }
    assert(all.take(all.len() as int) =~= all);
    r
}

/// The account of a directory's name.
fn strip_device(s: &str) -> (r: String)
    ensures
        r@ == without_device(s@),
{
    let v = text::to_chars(s);
    if let Some(pos) = text::find_last(&v, '_') {
        assert(pos < v.len());
        let suffix = text::cut(&v, pos + 1, v.len());
        assert(suffix@ =~= s@.skip(pos + 1));
        let n: usize = v.len() - pos - 1;
        if n <= 6 && n >= 2 && text::only_alnum(suffix.as_str()) && !text::starts_with(
            suffix.as_str(),
            "wxid",
        ) {
            let r = text::cut(&v, 0, pos);
            assert(r@ =~= s@.take(pos as int));
            return r;
        }
    }
    s.to_owned()
}

/// The own account, from the pieces of the storage directory's path.
pub fn find_own_account(pieces: &Vec<String>) -> (r: String)
    ensures
        r@ == own_account(text::views(pieces@)),
{
    let ghost all = text::views(pieces@);
    let mut i: usize = 0;
    assert(all.skip(0) =~= all);
    while i < pieces.len()
        invariant
            0 <= i <= pieces@.len(),
            all == text::views(pieces@),
            own_account(all) == own_account(all.skip(i as int)),
        decreases pieces@.len() - i,
    {
        assert(all.skip(i as int)[0] == pieces@[i as int]@);
        assert(all.skip(i as int).skip(1) =~= all.skip(i + 1));
        if text::starts_with(pieces[i].as_str(), "wxid_") {
            return strip_device(pieces[i].as_str());
        }
        i += 1;
    }
    String::new()
}

// ---------------------------------------------------------------------
// Laws on keys, files and accounts
// ---------------------------------------------------------------------

/// Two hexadecimal digits count sixteen times the first and once the second,
/// large letters like small ones; a second digit alone counts behind a plus.
pub proof fn law_pair_counts(high: nat, low: nat)
    requires
        high < 16,
        low < 16,
    ensures
        pair_value(number::hex_digit(high as int), number::hex_digit(low as int)) == Some(
            (16 * high + low) as u8,
        ),
        pair_value('+', number::hex_digit(low as int)) == Some(low as u8),
        forall|a: char, b: char|
            'a' <= a <= 'f' ==> #[trigger] pair_value(a, b) == pair_value(
                ((a as int) - 32) as char,
                b,
            ),
        forall|a: char, b: char|
            'a' <= b <= 'f' ==> #[trigger] pair_value(a, b) == pair_value(
                a,
                ((b as int) - 32) as char,
            ),
{
}

/// What is read is read whole: as many bytes as pairs, each the value of its
/// pair. A text that is not made of such pairs is not read.
pub proof fn law_hex_is_read_in_pairs(s: Seq<char>)
    ensures
        hex_read(s) matches Ok(b) ==> s.len() == 2 * b.len() && forall|i: int|
            0 <= i < b.len() ==> #[trigger] b[i] == pair_value(s[2 * i], s[2 * i + 1])->0
                && pair_value(s[2 * i], s[2 * i + 1]) is Some,
    decreases s.len(),
{
    if s.len() >= 2 && bytes::width(s[0]) == 1 && pair_value(s[0], s[1]) is Some {
        law_hex_is_read_in_pairs(s.skip(2));
        if let Ok(rest) = hex_read(s.skip(2)) {
            let n = pair_value(s[0], s[1])->0;
            let b = seq![n] + rest;
            assert forall|i: int| 0 <= i < b.len() implies #[trigger] b[i] == pair_value(
                s[2 * i],
                s[2 * i + 1],
            )->0 && pair_value(s[2 * i], s[2 * i + 1]) is Some by {
                if i > 0 {
                    assert(b[i] == rest[i - 1]);
                    assert(s.skip(2)[2 * (i - 1)] == s[2 * i]);
                    assert(s.skip(2)[2 * (i - 1) + 1] == s[2 * i + 1]);
                }
            }
        }
    }
}

/// The first pair that is not hexadecimal is what the error shows, whatever
/// follows; bytes of an odd number are refused before that.
pub proof fn law_first_bad_pair_is_shown(b: Seq<u8>, x: char, y: char, rest: Seq<char>)
    requires
        bytes::width(x) == 1,
        pair_value(x, y) is None,
    ensures
        hex_read(number::hex_text(b) + seq![x, y] + rest) == Err::<Seq<u8>, HexErrorView>(
            HexErrorView::BadPair { pair: seq![x, y] },
        ),
        bytes::byte_len(seq![x, y] + rest) % 2 != 0 ==> hex_bytes(seq![x, y] + rest) == Err::<
            Seq<u8>,
            HexErrorView,
        >(HexErrorView::OddLength),
{
    let tail = seq![x, y] + rest;
    lemma_hex_read_concat(b, tail);
    assert(number::hex_text(b) + seq![x, y] + rest =~= number::hex_text(b) + tail);
    assert(tail[0] == x && tail[1] == y);
    assert(tail.take(2) =~= seq![x, y]);
}

/// The name of a file is the last piece of its path, with a slash behind it or
/// not.
pub proof fn law_file_name_is_the_last_piece(dirs: Seq<Seq<char>>, name: Seq<char>)
    requires
        forall|i: int| 0 <= i < dirs.len() ==> !(#[trigger] dirs[i]).contains('/'),
        !name.contains('/'),
        name.len() > 0,
        name != "."@,
        name != ".."@,
    ensures
        base_name(text::join(dirs.push(name), seq!['/'])) == name,
        base_name(text::join(dirs.push(name).push(Seq::empty()), seq!['/'])) == name,
{
    let all = dirs.push(name);
    let more = all.push(Seq::empty());
    text::law_joined_splits(all, '/');
    text::law_joined_splits(more, '/');
    assert(more.drop_last() =~= all);
}

/// A key for exactly the file that is opened comes first, and of several the
/// first one.
pub proof fn law_exact_key_comes_first(
    before: Seq<(Seq<char>, Seq<char>)>,
    after: Seq<(Seq<char>, Seq<char>)>,
    db: Seq<char>,
    key: Seq<char>,
)
    requires
        forall|i: int| 0 <= i < before.len() ==> (#[trigger] before[i]).0 != db,
    ensures
        key_for(before + seq![(db, key)] + after, db) == Some(key),
{
    lemma_exact(before, after, db, key);
}

proof fn lemma_exact(
    before: Seq<(Seq<char>, Seq<char>)>,
    after: Seq<(Seq<char>, Seq<char>)>,
    db: Seq<char>,
    key: Seq<char>,
)
    requires
        forall|i: int| 0 <= i < before.len() ==> (#[trigger] before[i]).0 != db,
    ensures
        exact_match(before + seq![(db, key)] + after, db) == Some(key),
    decreases before.len(),
{
    let all = before + seq![(db, key)] + after;
    if before.len() > 0 {
        let rest = before.skip(1);
        assert forall|i: int| 0 <= i < rest.len() implies (#[trigger] rest[i]).0 != db by {
            assert(rest[i] == before[i + 1]);
        }
        lemma_exact(rest, after, db, key);
        assert(all[0] == before[0]);
        assert(all.skip(1) =~= rest + seq![(db, key)] + after);
    } else {
        assert(all[0] == (db, key));
    }
}

/// Without one for exactly that file the first key is taken whose path ends in
/// the file's name; where there is none there is no key.
pub proof fn law_else_key_by_name(
    before: Seq<(Seq<char>, Seq<char>)>,
    after: Seq<(Seq<char>, Seq<char>)>,
    path: Seq<char>,
    db: Seq<char>,
    key: Seq<char>,
)
    requires
        forall|i: int|
            0 <= i < before.len() ==> (#[trigger] before[i]).0 != db && !text::ends(
                before[i].0,
                base_name(db),
            ),
        forall|i: int| 0 <= i < after.len() ==> (#[trigger] after[i]).0 != db,
        path != db,
        text::ends(path, base_name(db)),
    ensures
        key_for(before + seq![(path, key)] + after, db) == Some(key),
        key_for(before, db) is None,
{
    lemma_no_exact(before, db);
    let all = before + seq![(path, key)] + after;
    assert forall|i: int| 0 <= i < all.len() implies (#[trigger] all[i]).0 != db by {
        if i < before.len() {
            assert(all[i] == before[i]);
        } else if i > before.len() {
            assert(all[i] == after[i - before.len() - 1]);
        }
    }
    lemma_no_exact(all, db);
    lemma_suffix(before, after, path, base_name(db), key);
}

proof fn lemma_no_exact(pairs: Seq<(Seq<char>, Seq<char>)>, db: Seq<char>)
    requires
        forall|i: int| 0 <= i < pairs.len() ==> (#[trigger] pairs[i]).0 != db,
    ensures
        exact_match(pairs, db) is None,
    decreases pairs.len(),
{
    if pairs.len() > 0 {
        let rest = pairs.skip(1);
        assert forall|i: int| 0 <= i < rest.len() implies (#[trigger] rest[i]).0 != db by {
            assert(rest[i] == pairs[i + 1]);
        }
        assert(pairs[0].0 != db);
        lemma_no_exact(rest, db);
    }
}

proof fn lemma_suffix(
    before: Seq<(Seq<char>, Seq<char>)>,
    after: Seq<(Seq<char>, Seq<char>)>,
    path: Seq<char>,
    name: Seq<char>,
    key: Seq<char>,
)
    requires
        forall|i: int| 0 <= i < before.len() ==> !text::ends((#[trigger] before[i]).0, name),
        text::ends(path, name),
    ensures
        suffix_match(before + seq![(path, key)] + after, name) == Some(key),
        suffix_match(before, name) is None,
    decreases before.len(),
{
    let all = before + seq![(path, key)] + after;
    if before.len() > 0 {
        let rest = before.skip(1);
        assert forall|i: int| 0 <= i < rest.len() implies !text::ends(
            (#[trigger] rest[i]).0,
            name,
        ) by {
            assert(rest[i] == before[i + 1]);
        }
        lemma_suffix(rest, after, path, name, key);
        assert(all[0] == before[0]);
        assert(all.skip(1) =~= rest + seq![(path, key)] + after);
        assert(!text::ends(before[0].0, name));
    } else {
        assert(all[0] == (path, key));
    }
}

/// A key of a file's own is used before the common one. One of forty-eight bytes
/// is given in a statement that quotes it, any other as its bytes, and one that
/// cannot be read as no bytes.
pub proof fn law_own_key_unlocks(key: Seq<u8>, bad: Seq<char>, hex: Seq<char>, common: Seq<u8>)
    requires
        hex_bytes(bad) is Err,
    ensures
        key.len() != 48 ==> unlock_for(Some(number::hex_text(key)), hex, common) == (
        UnlockView::RawKey { key }),
        key.len() == 48 ==> unlock_for(Some(number::hex_text(key)), hex, common) == (
        UnlockView::Statement { sql: "PRAGMA key = \"x'"@ + number::hex_text(key) + "'\";"@ }),
        unlock_for(Some(bad), hex, common) == (UnlockView::RawKey { key: Seq::empty() }),
        common.len() != 48 ==> unlock_for(None, hex, common) == (UnlockView::RawKey { key: common }),
        common.len() == 48 ==> unlock_for(None, hex, common) == (UnlockView::Statement {
            sql: "PRAGMA key = \"x'"@ + hex + "'\";"@,
        }),
{
    law_hex_reads_back(key);
}

/// A message database is named by its number between two fixed parts, and
/// nothing else is one.
pub proof fn law_message_databases_are_numbered(number: Seq<char>, name: Seq<char>)
    ensures
        number.len() > 0 && text::all_digits(number) ==> names_message_db(
            "message_"@ + number + ".db"@,
        ),
        number.len() == 0 || !text::all_digits(number) ==> !names_message_db(
            "message_"@ + number + ".db"@,
        ),
        names_message_db(name) ==> exists|n: Seq<char>|
            n.len() > 0 && text::all_digits(n) && name == #[trigger] ("message_"@ + n) + ".db"@,
{
    text::law_prefix_comes_off("message_"@, number + ".db"@);
    text::law_prefix_comes_off(".db"@, number);
    assert("message_"@ + number + ".db"@ =~= "message_"@ + (number + ".db"@));
    if names_message_db(name) {
        text::law_prefix_comes_off("message_"@, name);
        let rest = text::after_prefix(name, "message_"@)->0;
        text::law_prefix_comes_off(".db"@, rest);
        let n = text::before_suffix(rest, ".db"@)->0;
        assert(name =~= ("message_"@ + n) + ".db"@);
    }
}

/// Every message database of a directory is used, in the order they are listed
/// and in that directory, and no other file.
pub proof fn law_databases_one_by_one(a: Seq<Seq<char>>, b: Seq<Seq<char>>, name: Seq<char>)
    ensures
        message_paths(a + b) == message_paths(a) + message_paths(b),
        names_message_db(name) ==> message_paths(seq![name]) == seq!["message/"@ + name],
        !names_message_db(name) ==> message_paths(seq![name]) == Seq::<Seq<char>>::empty(),
        message_paths(Seq::empty()) == Seq::<Seq<char>>::empty(),
    decreases b.len(),
{
    let one = seq![name];
    assert(one.drop_last() =~= Seq::empty());
    reveal_with_fuel(message_paths, 2);
    if b.len() == 0 {
        assert(a + b =~= a);
        assert(message_paths(a) + message_paths(b) =~= message_paths(a));
    } else {
        law_databases_one_by_one(a, b.drop_last(), name);
        assert((a + b).drop_last() =~= a + b.drop_last());
        assert((a + b).last() == b.last());
        assert(message_paths(a + b) =~= message_paths(a) + message_paths(b));
    }
}

/// The mark of a device, two to six letters and digits behind the last
/// underscore, is taken off an account; anything else behind it stays, and so
/// does an account without an underscore.
pub proof fn law_device_comes_off(account: Seq<char>, mark: Seq<char>, plain: Seq<char>)
    requires
        text::all_alnum(mark),
        !plain.contains('_'),
    ensures
        2 <= mark.len() <= 6 && !text::begins(mark, "wxid"@) ==> without_device(
            account + seq!['_'] + mark,
        ) == account,
        !(2 <= mark.len() <= 6) || text::begins(mark, "wxid"@) ==> without_device(
            account + seq!['_'] + mark,
        ) == account + seq!['_'] + mark,
        without_device(plain) == plain,
{
    let s = account + seq!['_'] + mark;
    text::law_last_index_is_last(s, '_');
    text::law_last_index_is_last(plain, '_');
    if text::last_index(plain, '_') is Some {
        assert(plain.contains('_'));
    }
    let n = account.len() as int;
    assert(s[n] == '_');
    assert(s.contains('_'));
    let k = text::last_index(s, '_')->0;
    if k > n {
        assert(text::is_alnum(mark[k - n - 1]));
        assert(s[k] == mark[k - n - 1]);
        assert(false);
    }
    assert(s.skip(n + 1) =~= mark);
    assert(s.take(n) =~= account);
}

/// The own account is in the first piece of the path that begins like one,
/// whatever follows; where none does there is none.
pub proof fn law_first_account_is_mine(
    before: Seq<Seq<char>>,
    rest: Seq<char>,
    after: Seq<Seq<char>>,
)
    requires
        forall|i: int| 0 <= i < before.len() ==> !text::begins(#[trigger] before[i], "wxid_"@),
    ensures
        own_account(before + seq!["wxid_"@ + rest] + after) == without_device("wxid_"@ + rest),
        own_account(before) == Seq::<char>::empty(),
    decreases before.len(),
{
    let account = "wxid_"@ + rest;
    let all = before + seq![account] + after;
    if before.len() > 0 {
        let less = before.skip(1);
        assert forall|i: int| 0 <= i < less.len() implies !text::begins(
            #[trigger] less[i],
            "wxid_"@,
        ) by {
            assert(less[i] == before[i + 1]);
        }
        law_first_account_is_mine(less, rest, after);
        assert(all[0] == before[0]);
        assert(all.skip(1) =~= less + seq![account] + after);
        assert(!text::begins(before[0], "wxid_"@));
    } else {
        assert(all[0] == account);
        text::law_occurs_is_in_between(Seq::empty(), "wxid_"@, rest);
    }
}

} // verus!
