use vstd::prelude::*;

use crate::config::{ServerConfig, ServerState};

verus! {

/// The state of the configured servers before any user count is known:
/// each server as configured, with no users.
pub fn initial_server_states(servers: &Vec<ServerConfig>) -> (r: Vec<ServerState>)
    ensures
        r@.len() == servers@.len(),
        forall|i: int|
            0 <= i < r@.len() ==> {
                &&& #[trigger] r@[i].id == servers@[i].id
                &&& r@[i].ip@ == servers@[i].ip@
                &&& r@[i].name@ == servers@[i].name@
                &&& r@[i].user_count == 0
                &&& r@[i].user_limit == servers@[i].user_limit
            },
{
    let mut out: Vec<ServerState> = Vec::new();
    let n: usize = servers.len();
    let mut i: usize = 0;
    while i < n
        invariant
            n == servers@.len(),
            i <= n,
            out@.len() == i,
            forall|k: int|
                0 <= k < i ==> {
                    &&& #[trigger] out@[k].id == servers@[k].id
                    &&& out@[k].ip@ == servers@[k].ip@
                    &&& out@[k].name@ == servers@[k].name@
                    &&& out@[k].user_count == 0
                    &&& out@[k].user_limit == servers@[k].user_limit
                },
        decreases n - i,
    {
        let s: &ServerConfig = &servers[i];
        out.push(
            ServerState {
                id: s.id,
                ip: s.ip.clone(),
                name: s.name.clone(),
                user_count: 0,
                user_limit: s.user_limit,
            },
        );
        i += 1;
    }
    out
}

/// The user count reported for server `id`: the first count with that id,
/// or 0 when none has it.
pub open spec fn user_count_for(counts: Seq<(u8, i16)>, id: u8) -> i16
    decreases counts.len(),
{
    if counts.len() == 0 {
        0
    } else if counts[0].0 == id {
        counts[0].1
    } else {
        user_count_for(counts.drop_first(), id)
    }
}

fn find_user_count(counts: &Vec<(u8, i16)>, id: u8) -> (r: i16)
    ensures
        r == user_count_for(counts@, id),
{
    let n: usize = counts.len();
    let mut j: usize = 0;
    assert(counts@.subrange(0, n as int) =~= counts@);
    while j < n
        invariant
            n == counts@.len(),
            j <= n,
            user_count_for(counts@, id) == user_count_for(counts@.subrange(j as int, n as int), id),
        decreases n - j,
    {
        let (k, c): (u8, i16) = counts[j];
        if k == id {
            return c;
        }
        assert(counts@.subrange(j as int, n as int).drop_first() =~= counts@.subrange(
            j + 1,
            n as int,
        ));
        j += 1;
    }
    0
}

/// Sets each server's user count to the one reported for its id (0 when
/// none is), and leaves everything else as it was.
pub fn apply_user_counts(servers: &mut Vec<ServerState>, counts: &Vec<(u8, i16)>)
    ensures
        final(servers)@.len() == old(servers)@.len(),
        forall|i: int|
            0 <= i < final(servers)@.len() ==> {
                &&& #[trigger] final(servers)@[i].id == old(servers)@[i].id
                &&& final(servers)@[i].ip@ == old(servers)@[i].ip@
                &&& final(servers)@[i].name@ == old(servers)@[i].name@
                &&& final(servers)@[i].user_limit == old(servers)@[i].user_limit
                &&& final(servers)@[i].user_count == user_count_for(counts@, old(servers)@[i].id)
            },
{
    let n: usize = servers.len();
    let mut i: usize = 0;
    while i < n
        invariant
            n == servers@.len(),
            n == old(servers)@.len(),
            i <= n,
            forall|k: int|
                0 <= k < i ==> {
                    &&& #[trigger] servers@[k].id == old(servers)@[k].id
                    &&& servers@[k].ip@ == old(servers)@[k].ip@
                    &&& servers@[k].name@ == old(servers)@[k].name@
                    &&& servers@[k].user_limit == old(servers)@[k].user_limit
                    &&& servers@[k].user_count == user_count_for(counts@, old(servers)@[k].id)
                },
            forall|k: int| i <= k < n ==> #[trigger] servers@[k] == old(servers)@[k],
        decreases n - i,
    {
        let s: &ServerState = &servers[i];
        let c: i16 = find_user_count(counts, s.id);
        let updated: ServerState = ServerState {
            id: s.id,
            ip: s.ip.clone(),
            name: s.name.clone(),
            user_count: c,
            user_limit: s.user_limit,
        };
        servers.set(i, updated);
        i += 1;
    }
}

/// The user counts in the rows of the database's user count query: rows
/// without a server id are left out, and a missing total counts as 0.
pub open spec fn spec_user_counts(rows: Seq<(Option<u8>, Option<i16>)>) -> Seq<(u8, i16)>
    decreases rows.len(),
{
    if rows.len() == 0 {
        seq![]
    } else {
        let before = spec_user_counts(rows.drop_last());
        match rows.last().0 {
            Some(id) => before.push(
                (
                    id,
                    match rows.last().1 {
                        Some(t) => t,
                        None => 0i16,
                    },
                ),
            ),
            None => before,
        }
    }
}

/// Turns the rows of the user count query into `(server id, users)` pairs
/// (see `spec_user_counts`).
pub fn collect_user_counts(rows: &Vec<(Option<u8>, Option<i16>)>) -> (r: Vec<(u8, i16)>)
    ensures
        r@ == spec_user_counts(rows@),
{
    let mut out: Vec<(u8, i16)> = Vec::new();
    let n: usize = rows.len();
    let mut i: usize = 0;
    while i < n
        invariant
            n == rows@.len(),
            i <= n,
            out@ == spec_user_counts(rows@.subrange(0, i as int)),
        decreases n - i,
    {
        let (id, total): (Option<u8>, Option<i16>) = rows[i];
        assert(rows@.subrange(0, i + 1).drop_last() =~= rows@.subrange(0, i as int));
        match id {
            Some(id) => {
                let t: i16 = match total {
                    Some(t) => t,
                    None => 0,
                };
                out.push((id, t));
            },
            None => {},
        }
        i += 1;
    }
    assert(rows@.subrange(0, n as int) =~= rows@);
    out
}

/// The user count for a server id is the count of the first pair with that
/// id, and 0 when no pair has it.
pub proof fn lemma_user_count_for(counts: Seq<(u8, i16)>, id: u8, j: int)
    ensures
        (0 <= j < counts.len() && counts[j].0 == id && forall|k: int|
            0 <= k < j ==> counts[k].0 != id) ==> user_count_for(counts, id) == counts[j].1,
        (forall|k: int| 0 <= k < counts.len() ==> counts[k].0 != id) ==> user_count_for(counts, id)
            == 0,
    decreases counts.len(),
{
    if counts.len() > 0 {
        let rest = counts.drop_first();
        if counts[0].0 != id {
            lemma_user_count_for(rest, id, j - 1);
            assert forall|k: int| 0 <= k < rest.len() implies rest[k] == counts[k + 1] by {}
        }
    }
}

/// Each row with a server id gives one pair, in row order, with a missing
/// total as 0; rows without an id give none.
pub proof fn lemma_user_counts(rows: Seq<(Option<u8>, Option<i16>)>, id: u8, total: Option<i16>)
    ensures
        spec_user_counts(Seq::<(Option<u8>, Option<i16>)>::empty()) == Seq::<(u8, i16)>::empty(),
        spec_user_counts(rows.push((Some(id), total))) == spec_user_counts(rows).push(
            (
                id,
                match total {
                    Some(t) => t,
                    None => 0i16,
                },
            ),
        ),
        spec_user_counts(rows.push((None, total))) == spec_user_counts(rows),
{
    assert(rows.push((Some(id), total)).drop_last() =~= rows);
    assert(rows.push((None, total)).drop_last() =~= rows);
}

} // verus!
