use vstd::prelude::*;

use crate::config::{HandlerContext, PatchEntry, ServerState};
use crate::protocol::{
    i16_le_bytes, len_field, push_i16_le, push_len_field, read_i16, spec_read_i16, string2,
    write_string2, LS_DOWNLOAD_INFO_REQ, LS_LOGIN_REQ, LS_NEWS, LS_SERVER_LIST, LS_VERSION_REQ,
};

verus! {

/// The answer to a version request: the newest client version.
pub open spec fn version_reply(last_version: i16) -> Seq<u8> {
    seq![LS_VERSION_REQ] + i16_le_bytes(last_version)
}

/// The patches newer than `client_version`, in configured order.
pub open spec fn newer_patches(patches: Seq<PatchEntry>, client_version: i16) -> Seq<PatchEntry> {
    patches.filter(|p: PatchEntry| p.version > client_version)
}

/// The file names of `patches`, each as a length-prefixed string.
pub open spec fn patch_names(patches: Seq<PatchEntry>) -> Seq<u8>
    decreases patches.len(),
{
    if patches.len() == 0 {
        seq![]
    } else {
        patch_names(patches.drop_last()) + string2(patches.last().filename@)
    }
}

/// The answer to a download information request from a client at
/// `client_version`: where to download, then how many patches it needs and
/// their file names.
pub open spec fn download_info_reply(ctx: HandlerContext, client_version: i16) -> Seq<u8> {
    let needed = newer_patches(ctx.patches@, client_version);
    seq![LS_DOWNLOAD_INFO_REQ] + string2(ctx.ftp_url@) + string2(ctx.ftp_path@) + len_field(
        needed.len(),
    ) + patch_names(needed)
}

/// The user count that the server list shows: -1 for a server over its
/// limit.
pub open spec fn shown_user_count(server: ServerState) -> i16 {
    if server.user_count <= server.user_limit {
        server.user_count
    } else {
        -1i16
    }
}

/// Each server's address, name and shown user count.
pub open spec fn server_entries(servers: Seq<ServerState>) -> Seq<u8>
    decreases servers.len(),
{
    if servers.len() == 0 {
        seq![]
    } else {
        let s = servers.last();
        server_entries(servers.drop_last()) + string2(s.ip@) + string2(s.name@) + i16_le_bytes(
            shown_user_count(s),
        )
    }
}

/// The answer to a server list request: the number of servers, truncated
/// to a byte, then each server.
pub open spec fn server_list_reply(servers: Seq<ServerState>) -> Seq<u8> {
    seq![LS_SERVER_LIST, (servers.len() % 256) as u8] + server_entries(servers)
}

/// The answer to a news request: its title and message.
pub open spec fn news_reply(ctx: HandlerContext) -> Seq<u8> {
    seq![LS_NEWS] + string2(ctx.news_title@) + string2(ctx.news_message@)
}

/// What `handle` answers to `payload`: nothing to an empty payload, an
/// unknown opcode, a login request (the login flow answers those) or a
/// download information request without a client version.
pub open spec fn spec_handle(payload: Seq<u8>, ctx: HandlerContext) -> Option<Seq<u8>> {
    if payload.len() == 0 {
        None
    } else {
        let opcode = payload[0];
        if opcode == LS_VERSION_REQ {
            Some(version_reply(ctx.last_version))
        } else if opcode == LS_DOWNLOAD_INFO_REQ {
            match spec_read_i16(payload, 1) {
                Some(client_version) => Some(download_info_reply(ctx, client_version)),
                None => None,
            }
        } else if opcode == LS_SERVER_LIST {
            Some(server_list_reply(ctx.servers@))
        } else if opcode == LS_NEWS {
            Some(news_reply(ctx))
        } else {
            None
        }
    }
}

/// The view of an optional byte vector.
pub open spec fn opt_bytes(r: Option<Vec<u8>>) -> Option<Seq<u8>> {
    match r {
        Some(v) => Some(v@),
        None => None,
    }
}

fn download_info(ctx: &HandlerContext, client_version: i16) -> (r: Vec<u8>)
    ensures
        r@ == download_info_reply(*ctx, client_version),
{
    let patches: &Vec<PatchEntry> = &ctx.patches;
    let n: usize = patches.len();
    let mut count: usize = 0;
    let mut i: usize = 0;
    while i < n
        invariant
            n == patches@.len(),
            i <= n,
            count == newer_patches(patches@.subrange(0, i as int), client_version).len(),
            count <= i,
        decreases n - i,
    {
        assert(patches@.subrange(0, i + 1).drop_last() =~= patches@.subrange(0, i as int));
        proof {
            reveal_with_fuel(Seq::filter, 1);
        }
        if patches[i].version > client_version {
            count += 1;
        }
        i += 1;
    }
    assert(patches@.subrange(0, n as int) =~= patches@);
    let mut reply: Vec<u8> = Vec::new();
    reply.push(LS_DOWNLOAD_INFO_REQ);
    write_string2(&mut reply, ctx.ftp_url.as_str());
    write_string2(&mut reply, ctx.ftp_path.as_str());
    push_len_field(&mut reply, count);
    let ghost head = reply@;
    let mut i: usize = 0;
    while i < n
        invariant
            n == patches@.len(),
            i <= n,
            reply@ == head + patch_names(newer_patches(patches@.subrange(0, i as int), client_version)),
        decreases n - i,
    {
        assert(patches@.subrange(0, i + 1).drop_last() =~= patches@.subrange(0, i as int));
        assert(patches@.subrange(0, i + 1).last() == patches@[i as int]);
        proof {
            reveal_with_fuel(Seq::filter, 1);
        }
        if patches[i].version > client_version {
            let ghost before = newer_patches(patches@.subrange(0, i as int), client_version);
            write_string2(&mut reply, patches[i].filename.as_str());
            assert(before.push(patches@[i as int]).drop_last() =~= before);
            assert(reply@ =~= head + patch_names(before.push(patches@[i as int])));
        }
        i += 1;
    }
    assert(reply@ =~= download_info_reply(*ctx, client_version));
    reply
}

fn server_list(servers: &Vec<ServerState>) -> (r: Vec<u8>)
    ensures
        r@ == server_list_reply(servers@),
{
    let n: usize = servers.len();
    let mut reply: Vec<u8> = Vec::new();
    reply.push(LS_SERVER_LIST);
    reply.push((n % 256) as u8);
    let ghost head = reply@;
    let mut i: usize = 0;
    while i < n
        invariant
            n == servers@.len(),
            i <= n,
            reply@ == head + server_entries(servers@.subrange(0, i as int)),
        decreases n - i,
    {
        let s: &ServerState = &servers[i];
        assert(servers@.subrange(0, i + 1).drop_last() =~= servers@.subrange(0, i as int));
        assert(servers@.subrange(0, i + 1).last() == servers@[i as int]);
        write_string2(&mut reply, s.ip.as_str());
        write_string2(&mut reply, s.name.as_str());
        let count: i16 = if s.user_count <= s.user_limit {
            s.user_count
        } else {
            -1
        };
        push_i16_le(&mut reply, count);
        i += 1;
        assert(reply@ =~= head + server_entries(servers@.subrange(0, i as int)));
    }
    assert(servers@.subrange(0, n as int) =~= servers@);
    assert(reply@ =~= server_list_reply(servers@));
    reply
}

/// Answers the requests that need no database: version, download
/// information, server list and news (see `spec_handle`).
pub fn handle(payload: &[u8], ctx: &HandlerContext) -> (r: Option<Vec<u8>>)
    ensures
        opt_bytes(r) == spec_handle(payload@, *ctx),
{
    if payload.len() == 0 {
        return None;
    }
    let opcode: u8 = payload[0];
    if opcode == LS_VERSION_REQ {
        let mut reply: Vec<u8> = Vec::new();
        reply.push(LS_VERSION_REQ);
        push_i16_le(&mut reply, ctx.last_version);
        assert(reply@ =~= version_reply(ctx.last_version));
        Some(reply)
    } else if opcode == LS_DOWNLOAD_INFO_REQ {
        match read_i16(payload, 1) {
            Some(client_version) => Some(download_info(ctx, client_version)),
            None => None,
        }
    } else if opcode == LS_SERVER_LIST {
        Some(server_list(&ctx.servers))
    } else if opcode == LS_NEWS {
        let mut reply: Vec<u8> = Vec::new();
        reply.push(LS_NEWS);
        write_string2(&mut reply, ctx.news_title.as_str());
        write_string2(&mut reply, ctx.news_message.as_str());
        assert(reply@ =~= news_reply(*ctx));
        Some(reply)
    } else {
        None
    }
}

/// A login request is never answered here: the login flow answers it.
pub proof fn lemma_handle_leaves_login(payload: Seq<u8>, ctx: HandlerContext)
    requires
        payload.len() > 0,
        payload[0] == LS_LOGIN_REQ,
    ensures
        spec_handle(payload, ctx) is None,
{
}

/// The download information names exactly the patches newer than the
/// client's version: each one named is newer, every newer one is named,
/// and no more than are configured.
pub proof fn lemma_download_info_newer_only(patches: Seq<PatchEntry>, client_version: i16)
    ensures
        newer_patches(patches, client_version).len() <= patches.len(),
        forall|i: int|
            0 <= i < newer_patches(patches, client_version).len() ==> (#[trigger] newer_patches(
                patches,
                client_version,
            )[i]).version > client_version,
        forall|j: int|
            0 <= j < patches.len() && (#[trigger] patches[j]).version > client_version
                ==> newer_patches(patches, client_version).contains(patches[j]),
{
    let pred = |p: PatchEntry| p.version > client_version;
    patches.lemma_filter_len(pred);
    assert forall|i: int| 0 <= i < newer_patches(patches, client_version).len() implies (
    #[trigger] newer_patches(patches, client_version)[i]).version > client_version by {
        patches.lemma_filter_pred(pred, i);
    }
    assert forall|j: int|
        0 <= j < patches.len() && (#[trigger] patches[j]).version > client_version implies newer_patches(
        patches,
        client_version,
    ).contains(patches[j]) by {
        patches.lemma_filter_contains(pred, j);
    }
}

/// A download information request with a client version is answered with
/// the opcode, the download location, the number of patches whose version
/// is greater than the client's (as `i16`s, little-endian, truncated to 16
/// bits) and the file names of exactly those patches in configured order;
/// one without a client version gets no answer.
pub proof fn lemma_download_info_reply(payload: Seq<u8>, ctx: HandlerContext)
    requires
        payload.len() >= 1,
        payload[0] == 0x02,
    ensures
        payload.len() < 3 ==> spec_handle(payload, ctx) is None,
        payload.len() >= 3 ==> ({
            let v = (payload[1] + 256 * payload[2] - (if payload[2] >= 128 {
                65536int
            } else {
                0int
            })) as i16;
            let needed = ctx.patches@.filter(|p: PatchEntry| p.version > v);
            let k = needed.len() % 65536;
            spec_handle(payload, ctx) == Some(
                seq![0x02u8] + string2(ctx.ftp_url@) + string2(ctx.ftp_path@) + seq![
                    (k % 256) as u8,
                    (k / 256) as u8,
                ] + patch_names(needed),
            )
        }),
{
    if payload.len() >= 3 {
        let v = (payload[1] + 256 * payload[2] - (if payload[2] >= 128 {
            65536int
        } else {
            0int
        })) as i16;
        let needed = ctx.patches@.filter(|p: PatchEntry| p.version > v);
        assert(newer_patches(ctx.patches@, v) == needed);
        let k = needed.len() % 65536;
        assert(len_field(needed.len()) =~= seq![(k % 256) as u8, (k / 256) as u8]);
    }
}

/// The file names of patches are their length-prefixed names, one after
/// the other in order.
pub proof fn lemma_patch_names(patches: Seq<PatchEntry>, p: PatchEntry)
    ensures
        patch_names(Seq::<PatchEntry>::empty()) == Seq::<u8>::empty(),
        patch_names(patches.push(p)) == patch_names(patches) + string2(p.filename@),
{
    assert(patches.push(p).drop_last() =~= patches);
}

/// A server list request is answered with the opcode, the number of
/// servers truncated to a byte, and each server's entry in order.
pub proof fn lemma_server_list_reply(payload: Seq<u8>, ctx: HandlerContext)
    requires
        payload.len() >= 1,
        payload[0] == 0xF5,
    ensures
        spec_handle(payload, ctx) == Some(
            seq![0xF5u8, (ctx.servers@.len() % 256) as u8] + server_entries(ctx.servers@),
        ),
{
}

/// A server's entry in the server list: its address and name as
/// length-prefixed strings, then its user count as a little-endian `i16`
/// (the count itself when within the server's limit, -1 when over it),
/// which reads back as that count.
pub proof fn lemma_server_entries(servers: Seq<ServerState>, s: ServerState)
    ensures
        server_entries(Seq::<ServerState>::empty()) == Seq::<u8>::empty(),
        ({
            let c: int = if s.user_count <= s.user_limit {
                s.user_count as int
            } else {
                -1int
            };
            let u: int = if c < 0 {
                c + 65536
            } else {
                c
            };
            let entries = server_entries(servers.push(s));
            &&& entries == server_entries(servers) + string2(s.ip@) + string2(s.name@) + seq![
                (u % 256) as u8,
                (u / 256) as u8,
            ]
            &&& spec_read_i16(entries, entries.len() - 2) == Some(c as i16)
        }),
{
    assert(servers.push(s).drop_last() =~= servers);
    let c: int = if s.user_count <= s.user_limit {
        s.user_count as int
    } else {
        -1int
    };
    let u: int = if c < 0 {
        c + 65536
    } else {
        c
    };
    let entries = server_entries(servers.push(s));
    let n = entries.len() as int;
    assert(entries[n - 2] == (u % 256) as u8);
    assert(entries[n - 1] == (u / 256) as u8);
}

/// A version request is answered with its opcode and the newest client
/// version, little-endian; a news request with its opcode, the title and
/// the message; an empty payload or any opcode other than version,
/// download information, server list and news gets no answer.
pub proof fn lemma_simple_replies(payload: Seq<u8>, ctx: HandlerContext)
    ensures
        payload.len() == 0 ==> spec_handle(payload, ctx) is None,
        payload.len() > 0 && payload[0] == 0x01 ==> ({
            let v = ctx.last_version;
            let u: int = if v < 0 {
                v + 65536
            } else {
                v as int
            };
            spec_handle(payload, ctx) == Some(seq![0x01u8, (u % 256) as u8, (u / 256) as u8])
        }),
        payload.len() > 0 && payload[0] == 0xF6 ==> spec_handle(payload, ctx) == Some(
            seq![0xF6u8] + string2(ctx.news_title@) + string2(ctx.news_message@),
        ),
        payload.len() > 0 && payload[0] != 0x01 && payload[0] != 0x02 && payload[0] != 0xF5
            && payload[0] != 0xF6 ==> spec_handle(payload, ctx) is None,
{
    if payload.len() > 0 && payload[0] == 0x01 {
        let v = ctx.last_version;
        let u: int = if v < 0 {
            v + 65536
        } else {
            v as int
        };
        assert(version_reply(v) =~= seq![0x01u8, (u % 256) as u8, (u / 256) as u8]);
    }
}

} // verus!
