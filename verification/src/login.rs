use vstd::prelude::*;

use crate::protocol::{
    ascii_chars, lemma_read_string2_accepts_names, i16_le_bytes, push_i16_le, read_string2, spec_read_string2, string2,
    write_string2, AUTH_BANNED, AUTH_FAILED, AUTH_IN_GAME, AUTH_NOT_FOUND, AUTH_OK, LS_LOGIN_REQ,
    MAX_ID_SIZE, MAX_PW_SIZE,
};

verus! {

/// The authority value of a blocked account.
pub const AUTHORITY_BLOCK_USER: u8 = 255;

/// Nanoseconds in a day.
pub const NANOS_PER_DAY: u128 = 86_400_000_000_000;

/// A wall-clock date and time, as whole seconds since 1970-01-01 00:00
/// and the nanoseconds past that second (a leap second shows as 10^9 or
/// more nanoseconds, and is counted as such).
#[derive(Clone, Copy, Debug)]
pub struct Timestamp {
    pub secs: i64,
    pub nanos: u32,
}

/// The nanoseconds since 1970-01-01 00:00 that `t` stands for.
pub open spec fn timestamp_nanos(t: Timestamp) -> int {
    t.secs * 1_000_000_000 + t.nanos
}

/// The whole days from `from` to `to`, truncated toward zero (negative
/// when `to` is earlier).
pub open spec fn spec_whole_days(from: Timestamp, to: Timestamp) -> int {
    let d = timestamp_nanos(to) - timestamp_nanos(from);
    if d >= 0 {
        d / (NANOS_PER_DAY as int)
    } else {
        -((-d) / (NANOS_PER_DAY as int))
    }
}

/// What a database query for one row came back with.
pub enum RowLookup<T> {
    /// The query could not be run or its row not fetched.
    Failed,
    /// The query found no row.
    NoRow,
    /// The row's columns, each `None` where it was NULL.
    Row(T),
}

/// The next step of a login: the answer to send, or the query to make.
pub enum LoginAction {
    /// Send this answer; the login is over.
    Reply(Vec<u8>),
    /// Look up the account's password and authority.
    CheckAccount { account_id: String, password: String },
    /// Look up whether the account is in game, and where.
    CheckCurrentUser { account_id: String },
    /// Look up when the account's premium time expires.
    LoadPremium { account_id: String },
}

/// The answer that ends a login with a status code.
pub open spec fn login_status_reply(status: u8) -> Seq<u8> {
    seq![LS_LOGIN_REQ, status]
}

/// The answer to an account that is already in game: the address and
/// number of its server.
pub open spec fn in_game_reply(server_ip: Seq<char>, server_no: i16) -> Seq<u8> {
    seq![LS_LOGIN_REQ, AUTH_IN_GAME] + string2(server_ip) + i16_le_bytes(server_no)
}

/// The answer to a successful login: the days of premium time left, or -1.
pub open spec fn login_ok_reply(premium_days: i16) -> Seq<u8> {
    seq![LS_LOGIN_REQ, AUTH_OK] + i16_le_bytes(premium_days)
}

/// The account name and password bytes of a login request, read from just
/// past its opcode; `None` when either is unreadable, the name is empty or
/// longer than `MAX_ID_SIZE`, or the password is longer than `MAX_PW_SIZE`.
pub open spec fn spec_login_request(payload: Seq<u8>) -> Option<(Seq<u8>, Seq<u8>)> {
    match spec_read_string2(payload, 1) {
        None => None,
        Some((id, offset)) => match spec_read_string2(payload, offset) {
            None => None,
            Some((pw, _)) => {
                if id.len() == 0 || id.len() > MAX_ID_SIZE || pw.len() > MAX_PW_SIZE {
                    None
                } else {
                    Some((id, pw))
                }
            },
        },
    }
}

/// The status of a login with `password` against the account's row: a
/// failed lookup or a NULL column fails, an unknown account or a wrong
/// password is not found, a blocked account is banned.
pub open spec fn spec_account_status(
    lookup: RowLookup<(Option<String>, Option<u8>)>,
    password: Seq<char>,
) -> u8 {
    match lookup {
        RowLookup::Failed => AUTH_FAILED,
        RowLookup::NoRow => AUTH_NOT_FOUND,
        RowLookup::Row((stored, authority)) => match (stored, authority) {
            (Some(p), Some(a)) => {
                if p@ != password {
                    AUTH_NOT_FOUND
                } else if a == AUTHORITY_BLOCK_USER {
                    AUTH_BANNED
                } else {
                    AUTH_OK
                }
            },
            _ => AUTH_FAILED,
        },
    }
}

/// The server that the account is in game on, when its row holds an
/// address and a server number that fits an `i16`.
pub open spec fn spec_current_user(lookup: RowLookup<(Option<String>, Option<i32>)>) -> Option<
    (Seq<char>, i16),
> {
    match lookup {
        RowLookup::Row((Some(ip), Some(no))) => {
            if i16::MIN <= no <= i16::MAX {
                Some((ip@, no as i16))
            } else {
                None
            }
        },
        _ => None,
    }
}

/// The premium days shown for `days` whole days of premium time left:
/// the count truncated to an `i16`, or -1 when none are left.
pub open spec fn premium_days_for(days: i64) -> i16 {
    if days > 0 {
        days as i16
    } else {
        -1i16
    }
}

/// Reads a login request: account name and password (see
/// `spec_login_request`). A malformed request is answered at once with
/// `AUTH_NOT_FOUND`; a well-formed one asks for the account's row.
pub fn login_start(payload: &[u8]) -> (r: LoginAction)
    ensures
        spec_login_request(payload@) is None ==> (r matches LoginAction::Reply(v) && v@
            == login_status_reply(AUTH_NOT_FOUND)),
        spec_login_request(payload@) matches Some((id, pw)) ==> (r matches LoginAction::CheckAccount {
            account_id,
            password,
        } && account_id@ == ascii_chars(id) && password@ == ascii_chars(pw)),
{
    let not_found: Vec<u8> = vec![LS_LOGIN_REQ, AUTH_NOT_FOUND];
    assert(not_found@ =~= login_status_reply(AUTH_NOT_FOUND));
    let (account_id, offset): (String, usize) = match read_string2(payload, 1) {
        Some(x) => x,
        None => return LoginAction::Reply(not_found),
    };
    let (password, _end): (String, usize) = match read_string2(payload, offset) {
        Some(x) => x,
        None => return LoginAction::Reply(not_found),
    };
    let id_len: usize = account_id.as_str().len();
    let pw_len: usize = password.as_str().len();
    if id_len == 0 || id_len > MAX_ID_SIZE {
        return LoginAction::Reply(not_found);
    }
    if pw_len > MAX_PW_SIZE {
        return LoginAction::Reply(not_found);
    }
    LoginAction::CheckAccount { account_id, password }
}

/// The status of a login against the account's row (see
/// `spec_account_status`).
pub fn account_status(lookup: &RowLookup<(Option<String>, Option<u8>)>, password: &String) -> (r:
    u8)
    ensures
        r == spec_account_status(*lookup, password@),
{
    match lookup {
        RowLookup::Failed => AUTH_FAILED,
        RowLookup::NoRow => AUTH_NOT_FOUND,
        RowLookup::Row((stored, authority)) => match (stored, authority) {
            (Some(p), Some(a)) => {
                if !p.eq(password) {
                    AUTH_NOT_FOUND
                } else if *a == AUTHORITY_BLOCK_USER {
                    AUTH_BANNED
                } else {
                    AUTH_OK
                }
            },
            _ => AUTH_FAILED,
        },
    }
}

/// After the account's row: a login that is not `AUTH_OK` is answered
/// with its status; otherwise the next step asks whether the account is
/// in game.
pub fn login_after_account(
    account_id: String,
    password: &String,
    lookup: &RowLookup<(Option<String>, Option<u8>)>,
) -> (r: LoginAction)
    ensures
        spec_account_status(*lookup, password@) != AUTH_OK ==> (r matches LoginAction::Reply(v)
            && v@ == login_status_reply(spec_account_status(*lookup, password@))),
        spec_account_status(*lookup, password@) == AUTH_OK ==> (
        r matches LoginAction::CheckCurrentUser { account_id: a } && a@ == account_id@),
{
    let status: u8 = account_status(lookup, password);
    if status != AUTH_OK {
        let reply: Vec<u8> = vec![LS_LOGIN_REQ, status];
        assert(reply@ =~= login_status_reply(status));
        return LoginAction::Reply(reply);
    }
    LoginAction::CheckCurrentUser { account_id }
}

/// The server the account is in game on (see `spec_current_user`).
pub fn current_user_server(lookup: &RowLookup<(Option<String>, Option<i32>)>) -> (r: Option<
    (String, i16),
>)
    ensures
        r matches Some((ip, no)) ==> spec_current_user(*lookup) == Some((ip@, no)),
        r is None ==> spec_current_user(*lookup) is None,
{
    match lookup {
        RowLookup::Row((Some(ip), Some(no))) => {
            if -32768 <= *no && *no <= 32767 {
                Some((ip.clone(), *no as i16))
            } else {
                None
            }
        },
        _ => None,
    }
}

/// After the in-game lookup: an account in game is told where; otherwise
/// the next step loads its premium time.
pub fn login_after_current_user(
    account_id: String,
    lookup: &RowLookup<(Option<String>, Option<i32>)>,
) -> (r: LoginAction)
    ensures
        spec_current_user(*lookup) matches Some((ip, no)) ==> (r matches LoginAction::Reply(v)
            && v@ == in_game_reply(ip, no)),
        spec_current_user(*lookup) is None ==> (r matches LoginAction::LoadPremium {
            account_id: a,
        } && a@ == account_id@),
{
    match current_user_server(lookup) {
        Some((ip, no)) => {
            let mut reply: Vec<u8> = Vec::new();
            reply.push(LS_LOGIN_REQ);
            reply.push(AUTH_IN_GAME);
            write_string2(&mut reply, ip.as_str());
            push_i16_le(&mut reply, no);
            assert(reply@ =~= in_game_reply(ip@, no));
            LoginAction::Reply(reply)
        },
        None => LoginAction::LoadPremium { account_id },
    }
}

/// The whole days from `from` to `to` (see `spec_whole_days`).
pub fn whole_days(from: &Timestamp, to: &Timestamp) -> (r: i64)
    ensures
        r == spec_whole_days(*from, *to),
{
    let f: i128 = from.secs as i128 * 1_000_000_000 + from.nanos as i128;
    let t: i128 = to.secs as i128 * 1_000_000_000 + to.nanos as i128;
    let d: i128 = t - f;
    if d >= 0 {
        let q: u128 = (d as u128) / NANOS_PER_DAY;
        assert(q <= 300_000_000_000_000);
        q as i64
    } else {
        let q: u128 = ((-d) as u128) / NANOS_PER_DAY;
        assert(q <= 300_000_000_000_000);
        -(q as i64)
    }
}

/// The premium days shown for `days` whole days left (see
/// `premium_days_for`).
pub fn premium_days_from(days: i64) -> (r: i16)
    ensures
        r == premium_days_for(days),
{
    if days > 0 {
        days as i16
    } else {
        -1
    }
}

/// The premium days shown for an account at time `now`: -1 without an
/// expiry, else for the whole days from `now` until it.
pub open spec fn spec_premium_days(lookup: RowLookup<Option<Timestamp>>, now: Timestamp) -> i16 {
    match lookup {
        RowLookup::Row(Some(expire)) => premium_days_for(spec_whole_days(now, expire) as i64),
        _ => -1i16,
    }
}

/// The premium days of an account at time `now`, from its expiry row (see
/// `spec_premium_days`).
pub fn premium_days(lookup: &RowLookup<Option<Timestamp>>, now: &Timestamp) -> (r: i16)
    ensures
        r == spec_premium_days(*lookup, *now),
{
    match lookup {
        RowLookup::Row(Some(expire)) => {
            let days: i64 = whole_days(now, expire);
            premium_days_from(days)
        },
        _ => -1,
    }
}

/// The answer that ends a successful login at time `now`, with the premium
/// days from the expiry row.
pub fn login_finish(lookup: &RowLookup<Option<Timestamp>>, now: &Timestamp) -> (r: Vec<u8>)
    ensures
        r@ == login_ok_reply(spec_premium_days(*lookup, *now)),
{
    let p: i16 = premium_days(lookup, now);
    let mut reply: Vec<u8> = Vec::new();
    reply.push(LS_LOGIN_REQ);
    reply.push(AUTH_OK);
    push_i16_le(&mut reply, p);
    assert(reply@ =~= login_ok_reply(p));
    reply
}

/// Every well-formed login request goes on to the account check: for an
/// account name of 1 to `MAX_ID_SIZE` bytes and a password of at most
/// `MAX_PW_SIZE` bytes, each an ASCII letter (either case), digit or `_`,
/// the request reads as exactly that name and password.
pub proof fn lemma_login_request_accepts(id: Seq<u8>, pw: Seq<u8>, rest: Seq<u8>)
    requires
        1 <= id.len() <= 20,
        pw.len() <= 12,
        forall|i: int|
            0 <= i < id.len() ==> ({
                let x = #[trigger] id[i];
                ||| 0x30 <= x <= 0x39
                ||| 0x41 <= x <= 0x5A
                ||| 0x61 <= x <= 0x7A
                ||| x == 0x5F
            }),
        forall|i: int|
            0 <= i < pw.len() ==> ({
                let x = #[trigger] pw[i];
                ||| 0x30 <= x <= 0x39
                ||| 0x41 <= x <= 0x5A
                ||| 0x61 <= x <= 0x7A
                ||| x == 0x5F
            }),
    ensures
        spec_login_request(
            seq![0xF3u8, id.len() as u8, 0u8] + id + seq![pw.len() as u8, 0u8] + pw + rest,
        ) == Some((id, pw)),
{
    lemma_login_request_reads(id, pw, rest);
}

/// A login request whose strings read but whose account name is empty or
/// longer than `MAX_ID_SIZE` bytes, or whose password is longer than
/// `MAX_PW_SIZE` bytes, is refused.
pub proof fn lemma_login_request_length_limits(id: Seq<u8>, pw: Seq<u8>, rest: Seq<u8>)
    requires
        id.len() <= 255,
        pw.len() <= 255,
        id.len() == 0 || id.len() > 20 || pw.len() > 12,
        forall|i: int|
            0 <= i < id.len() ==> ({
                let x = #[trigger] id[i];
                ||| 0x30 <= x <= 0x39
                ||| 0x41 <= x <= 0x5A
                ||| 0x61 <= x <= 0x7A
                ||| x == 0x5F
            }),
        forall|i: int|
            0 <= i < pw.len() ==> ({
                let x = #[trigger] pw[i];
                ||| 0x30 <= x <= 0x39
                ||| 0x41 <= x <= 0x5A
                ||| 0x61 <= x <= 0x7A
                ||| x == 0x5F
            }),
    ensures
        spec_login_request(
            seq![0xF3u8, id.len() as u8, 0u8] + id + seq![pw.len() as u8, 0u8] + pw + rest,
        ) is None,
{
    lemma_login_request_reads(id, pw, rest);
}

proof fn lemma_login_request_reads(id: Seq<u8>, pw: Seq<u8>, rest: Seq<u8>)
    requires
        id.len() <= 255,
        pw.len() <= 255,
        forall|i: int|
            0 <= i < id.len() ==> ({
                let x = #[trigger] id[i];
                ||| 0x30 <= x <= 0x39
                ||| 0x41 <= x <= 0x5A
                ||| 0x61 <= x <= 0x7A
                ||| x == 0x5F
            }),
        forall|i: int|
            0 <= i < pw.len() ==> ({
                let x = #[trigger] pw[i];
                ||| 0x30 <= x <= 0x39
                ||| 0x41 <= x <= 0x5A
                ||| 0x61 <= x <= 0x7A
                ||| x == 0x5F
            }),
    ensures
        ({
            let data = seq![0xF3u8, id.len() as u8, 0u8] + id + seq![pw.len() as u8, 0u8] + pw
                + rest;
            &&& spec_read_string2(data, 1) == Some((id, 3int + id.len()))
            &&& spec_read_string2(data, 3int + id.len()) == Some((pw, 5int + id.len() + pw.len()))
        }),
{
    let data = seq![0xF3u8, id.len() as u8, 0u8] + id + seq![pw.len() as u8, 0u8] + pw + rest;
    assert(data =~= seq![0xF3u8] + seq![(id.len() % 256) as u8, (id.len() / 256) as u8] + id + (
    seq![pw.len() as u8, 0u8] + pw + rest));
    lemma_read_string2_accepts_names(seq![0xF3u8], id, seq![pw.len() as u8, 0u8] + pw + rest);
    let pre = seq![0xF3u8, id.len() as u8, 0u8] + id;
    assert(data =~= pre + seq![(pw.len() % 256) as u8, (pw.len() / 256) as u8] + pw + rest);
    lemma_read_string2_accepts_names(pre, pw, rest);
}

/// How a login's status follows from the account's row: a failed lookup or
/// a NULL column fails, no row is not found, a stored password that
/// differs from the one given is not found, and a matching one is banned
/// for a blocked account and accepted for any other.
pub proof fn lemma_account_status(stored: String, authority: u8, password: Seq<char>)
    ensures
        spec_account_status(RowLookup::Failed, password) == 0xFF,
        spec_account_status(RowLookup::NoRow, password) == 0x02,
        spec_account_status(RowLookup::Row((None, Some(authority))), password) == 0xFF,
        spec_account_status(RowLookup::Row((Some(stored), None)), password) == 0xFF,
        stored@ != password ==> spec_account_status(
            RowLookup::Row((Some(stored), Some(authority))),
            password,
        ) == 0x02,
        stored@ == password && authority == 255 ==> spec_account_status(
            RowLookup::Row((Some(stored), Some(authority))),
            password,
        ) == 0x04,
        stored@ == password && authority != 255 ==> spec_account_status(
            RowLookup::Row((Some(stored), Some(authority))),
            password,
        ) == 0x01,
{
}

/// The login answers: a status ends a login as `0xF3` and the status; an
/// account in game gets `0xF3 0x05`, its server's address and its server
/// number, little-endian; a successful login gets `0xF3 0x01` and the
/// premium days, little-endian.
pub proof fn lemma_login_replies(status: u8, server_ip: Seq<char>, server_no: i16, premium: i16)
    ensures
        login_status_reply(status) == seq![0xF3u8, status],
        ({
            let u: int = if server_no < 0 {
                server_no + 65536
            } else {
                server_no as int
            };
            in_game_reply(server_ip, server_no) == seq![0xF3u8, 0x05u8] + string2(server_ip)
                + seq![(u % 256) as u8, (u / 256) as u8]
        }),
        ({
            let u: int = if premium < 0 {
                premium + 65536
            } else {
                premium as int
            };
            login_ok_reply(premium) == seq![0xF3u8, 0x01u8, (u % 256) as u8, (u / 256) as u8]
        }),
{
    let u: int = if server_no < 0 {
        server_no + 65536
    } else {
        server_no as int
    };
    assert(in_game_reply(server_ip, server_no) =~= seq![0xF3u8, 0x05u8] + string2(server_ip)
        + seq![(u % 256) as u8, (u / 256) as u8]);
    let w: int = if premium < 0 {
        premium + 65536
    } else {
        premium as int
    };
    assert(login_ok_reply(premium) =~= seq![0xF3u8, 0x01u8, (w % 256) as u8, (w / 256) as u8]);
}

/// An account in game is found exactly when its row holds an address and a
/// server number that fits an `i16`; that address and number are given.
pub proof fn lemma_current_user(ip: Option<String>, no: Option<i32>)
    ensures
        (ip is Some && no is Some && -32768 <= no->0 <= 32767) ==> spec_current_user(
            RowLookup::Row((ip, no)),
        ) == Some((ip->0@, no->0 as i16)),
        !(ip is Some && no is Some && -32768 <= no->0 <= 32767) ==> spec_current_user(
            RowLookup::Row((ip, no)),
        ) is None,
        spec_current_user(RowLookup::Failed) is None,
        spec_current_user(RowLookup::NoRow) is None,
{
}

/// The whole days between two times are the days of their difference
/// rounded toward zero: `days` full days fit in the difference and one
/// more does not.
pub proof fn lemma_whole_days_bounds(from: Timestamp, to: Timestamp)
    ensures
        ({
            let d = (to.secs * 1_000_000_000 + to.nanos) - (from.secs * 1_000_000_000 + from.nanos);
            let w = spec_whole_days(from, to);
            &&& d >= 0 ==> w >= 0 && w * 86_400_000_000_000 <= d < (w + 1) * 86_400_000_000_000
            &&& d < 0 ==> w <= 0 && (w - 1) * 86_400_000_000_000 < d <= w * 86_400_000_000_000
        }),
{
    let d = (to.secs * 1_000_000_000 + to.nanos) - (from.secs * 1_000_000_000 + from.nanos);
    let w = spec_whole_days(from, to);
    let dd: int = 86_400_000_000_000;
    if d >= 0 {
        vstd::arithmetic::div_mod::lemma_fundamental_div_mod(d, dd);
        assert(w == d / dd);
        assert(0 <= d % dd < dd);
        assert(w * dd == dd * w) by (nonlinear_arith);
        assert((w + 1) * dd == w * dd + dd) by (nonlinear_arith);
    } else {
        let m = -d;
        vstd::arithmetic::div_mod::lemma_fundamental_div_mod(m, dd);
        assert(w == -(m / dd));
        assert(0 <= m % dd < dd);
        assert((m / dd) * dd == dd * (m / dd)) by (nonlinear_arith);
        assert(w * dd == -((m / dd) * dd)) by (nonlinear_arith)
            requires
                w == -(m / dd),
        ;
        assert((w - 1) * dd == w * dd - dd) by (nonlinear_arith);
        assert(m / dd >= 0) by (nonlinear_arith)
            requires
                m > 0,
                dd > 0,
        ;
    }
}

/// The premium days shown: -1 when no whole day is left, else the day
/// count itself when it fits an `i16`, and its 16-bit truncation beyond.
pub proof fn lemma_premium_days_for(days: i64)
    ensures
        days <= 0 ==> premium_days_for(days) == -1,
        0 < days <= 32767 ==> premium_days_for(days) == days,
        days > 0 ==> premium_days_for(days) == days as i16,
{
}

} // verus!
