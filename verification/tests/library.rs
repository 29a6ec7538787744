use login_server::config::{
    Config, DatabaseConfig, DownloadConfig, GeneralConfig, HandlerContext, NewsConfig,
    PatchConfig, ServerConfig, ServerState,
};
use login_server::login::{
    account_status, current_user_server, login_after_account, login_after_current_user,
    login_finish, login_start, premium_days, premium_days_from, whole_days, LoginAction, RowLookup,
    Timestamp,
};
use login_server::protocol::{
    extract_frame, frame, ingest, is_known_opcode, is_login_request, read_i16, read_string2, split_frames,
    write_string2, FrameResult, AUTH_BANNED, AUTH_FAILED, AUTH_IN_GAME, AUTH_NOT_FOUND, AUTH_OK,
    LS_LOGIN_REQ, MAX_BUFFERED_BYTES, MAX_PACKET_SIZE,
};
use login_server::servers::{apply_user_counts, collect_user_counts, initial_server_states};

fn login_payload(id: &str, pw: &str) -> Vec<u8> {
    let mut p: Vec<u8> = vec![LS_LOGIN_REQ];
    write_string2(&mut p, id);
    write_string2(&mut p, pw);
    p
}

fn server(id: u8, count: i16) -> ServerState {
    ServerState {
        id,
        ip: format!("10.0.0.{}", id),
        name: format!("S{}", id),
        user_count: count,
        user_limit: 100,
    }
}

#[test]
fn frame_round_trip_with_trailing_bytes() {
    let payload: Vec<u8> = vec![1, 2, 3, 0xAA, 0x55];
    let mut data: Vec<u8> = frame(&payload);
    data.extend_from_slice(&[0xAA, 0x55, 0x07]);
    assert_eq!(
        extract_frame(&data),
        FrameResult::Packet {
            payload,
            consumed: 11
        }
    );
}

#[test]
fn frame_round_trip_at_max_packet_size() {
    let payload: Vec<u8> = vec![0x42; MAX_PACKET_SIZE];
    let framed: Vec<u8> = frame(&payload);
    assert_eq!(&framed[2..4], &[0x00, 0x20]);
    assert_eq!(
        extract_frame(&framed),
        FrameResult::Packet {
            payload,
            consumed: MAX_PACKET_SIZE + 6
        }
    );
}

#[test]
fn frame_length_field_is_truncated_to_16_bits() {
    let payload: Vec<u8> = vec![0; 70000];
    let framed: Vec<u8> = frame(&payload);
    // 70000 mod 65536 = 4464 = 0x1170
    assert_eq!(&framed[2..4], &[0x70, 0x11]);
    assert_eq!(framed.len(), 70006);
}

#[test]
fn extract_frame_skips_negative_length() {
    let data: Vec<u8> = vec![0xAA, 0x55, 0xFF, 0xFF, 0x55, 0xAA];
    assert_eq!(extract_frame(&data), FrameResult::Skip { consumed: 2 });
}

#[test]
fn extract_frame_skips_all_but_last_byte_without_marker() {
    let data: Vec<u8> = vec![1, 2, 3, 0xAA];
    assert_eq!(extract_frame(&data), FrameResult::Skip { consumed: 3 });
}

#[test]
fn split_frames_delivers_in_order_and_keeps_partial_frame() {
    let mut acc: Vec<u8> = vec![9, 9];
    acc.extend(frame(&[1]));
    acc.extend(frame(&[2, 3]));
    let partial: Vec<u8> = frame(&[4, 5, 6]);
    acc.extend_from_slice(&partial[..5]);
    let frames: Vec<Vec<u8>> = split_frames(&mut acc);
    assert_eq!(frames, vec![vec![1], vec![2, 3]]);
    assert_eq!(acc, partial[..5].to_vec());
}

#[test]
fn ingest_byte_by_byte_gives_same_frames_as_at_once() {
    let mut stream: Vec<u8> = vec![0x00, 0xAA];
    stream.extend(frame(&[0x10, 0x20]));
    stream.extend(vec![0xAA, 0x55, 0x05, 0x00]);
    stream.extend(frame(&[]));
    stream.extend(frame(&[0xAA, 0x55]));

    let mut whole: Vec<u8> = Vec::new();
    let at_once: Vec<Vec<u8>> = ingest(&mut whole, &stream).expect("fits");

    let mut acc: Vec<u8> = Vec::new();
    let mut chunked: Vec<Vec<u8>> = Vec::new();
    for b in &stream {
        chunked.extend(ingest(&mut acc, &[*b]).expect("fits"));
    }
    assert_eq!(chunked, at_once);
    assert_eq!(acc, whole);
    assert!(at_once.contains(&vec![0x10, 0x20]));
}

#[test]
fn ingest_drops_connection_over_buffer_limit() {
    let mut acc: Vec<u8> = vec![0; MAX_BUFFERED_BYTES];
    assert!(ingest(&mut acc, &[1]).is_none());
    let mut acc2: Vec<u8> = vec![0; MAX_BUFFERED_BYTES - 1];
    assert!(ingest(&mut acc2, &[1]).is_some());
}

#[test]
fn is_login_request_checks_first_byte() {
    assert!(is_login_request(&[LS_LOGIN_REQ, 1]));
    assert!(!is_login_request(&[0x01, LS_LOGIN_REQ]));
    assert!(!is_login_request(&[]));
}

#[test]
fn string2_round_trip() {
    let mut buf: Vec<u8> = vec![0x77];
    write_string2(&mut buf, "Admin_42");
    buf.push(0x01);
    assert_eq!(read_string2(&buf, 1), Some(("Admin_42".to_string(), 11)));
}

#[test]
fn read_string2_rejects_negative_length() {
    let data: Vec<u8> = vec![0xFF, 0xFF, b'a', b'b'];
    assert_eq!(read_string2(&data, 0), None);
}

#[test]
fn read_string2_rejects_invalid_utf8() {
    let data: Vec<u8> = vec![0x02, 0x00, 0xC3, 0x28];
    assert_eq!(read_string2(&data, 0), None);
}

#[test]
fn read_string2_accepts_empty_string() {
    let data: Vec<u8> = vec![0x00, 0x00];
    assert_eq!(read_string2(&data, 0), Some((String::new(), 2)));
}

#[test]
fn read_i16_extremes() {
    assert_eq!(read_i16(&[0x00, 0x80], 0), Some(i16::MIN));
    assert_eq!(read_i16(&[0xFF, 0x7F], 0), Some(i16::MAX));
    assert_eq!(read_i16(&[0x01], usize::MAX), None);
}

#[test]
fn login_start_reads_account_and_password() {
    match login_start(&login_payload("player1", "secret")) {
        LoginAction::CheckAccount {
            account_id,
            password,
        } => {
            assert_eq!(account_id, "player1");
            assert_eq!(password, "secret");
        }
        _ => panic!("expected an account check"),
    }
}

#[test]
fn login_start_rejects_malformed_requests() {
    let not_found: Vec<u8> = vec![LS_LOGIN_REQ, AUTH_NOT_FOUND];
    let cases: Vec<Vec<u8>> = vec![
        login_payload("", "pw"),
        login_payload("abcdefghijklmnopqrstu", "pw"),
        login_payload("user", "abcdefghijklm"),
        login_payload("us-er", "pw"),
        vec![LS_LOGIN_REQ, 0x04, 0x00, b'u'],
        vec![LS_LOGIN_REQ],
    ];
    for payload in cases {
        match login_start(&payload) {
            LoginAction::Reply(r) => assert_eq!(r, not_found),
            _ => panic!("expected a reply"),
        }
    }
}

#[test]
fn login_start_accepts_limits() {
    let payload = login_payload("abcdefghijklmnopqrst", "abcdefghijkl");
    assert!(matches!(
        login_start(&payload),
        LoginAction::CheckAccount { .. }
    ));
}

#[test]
fn account_status_covers_each_outcome() {
    let pw: String = "secret".to_string();
    let row = |p: Option<&str>, a: Option<u8>| RowLookup::Row((p.map(|s| s.to_string()), a));
    assert_eq!(account_status(&RowLookup::Failed, &pw), AUTH_FAILED);
    assert_eq!(account_status(&RowLookup::NoRow, &pw), AUTH_NOT_FOUND);
    assert_eq!(account_status(&row(None, Some(0)), &pw), AUTH_FAILED);
    assert_eq!(account_status(&row(Some("secret"), None), &pw), AUTH_FAILED);
    assert_eq!(account_status(&row(Some("other"), Some(0)), &pw), AUTH_NOT_FOUND);
    assert_eq!(account_status(&row(Some("secret"), Some(255)), &pw), AUTH_BANNED);
    assert_eq!(account_status(&row(Some("secret"), Some(1)), &pw), AUTH_OK);
}

#[test]
fn login_after_account_moves_on_or_answers() {
    let pw: String = "pw".to_string();
    let ok = RowLookup::Row((Some("pw".to_string()), Some(0u8)));
    match login_after_account("acc".to_string(), &pw, &ok) {
        LoginAction::CheckCurrentUser { account_id } => assert_eq!(account_id, "acc"),
        _ => panic!("expected the in-game check"),
    }
    let banned = RowLookup::Row((Some("pw".to_string()), Some(255u8)));
    match login_after_account("acc".to_string(), &pw, &banned) {
        LoginAction::Reply(r) => assert_eq!(r, vec![LS_LOGIN_REQ, AUTH_BANNED]),
        _ => panic!("expected a reply"),
    }
}

#[test]
fn current_user_server_requires_fitting_number() {
    let row = RowLookup::Row((Some("1.2.3.4".to_string()), Some(70000i32)));
    assert_eq!(current_user_server(&row), None);
    let row = RowLookup::Row((Some("1.2.3.4".to_string()), Some(-3i32)));
    assert_eq!(
        current_user_server(&row),
        Some(("1.2.3.4".to_string(), -3))
    );
    let row: RowLookup<(Option<String>, Option<i32>)> = RowLookup::Row((None, Some(1)));
    assert_eq!(current_user_server(&row), None);
    assert_eq!(current_user_server(&RowLookup::NoRow), None);
}

#[test]
fn login_after_current_user_reports_server() {
    let row = RowLookup::Row((Some("1.2.3.4".to_string()), Some(2i32)));
    match login_after_current_user("acc".to_string(), &row) {
        LoginAction::Reply(r) => assert_eq!(
            r,
            vec![LS_LOGIN_REQ, AUTH_IN_GAME, 7, 0, b'1', b'.', b'2', b'.', b'3', b'.', b'4', 2, 0]
        ),
        _ => panic!("expected a reply"),
    }
    match login_after_current_user("acc".to_string(), &RowLookup::Failed) {
        LoginAction::LoadPremium { account_id } => assert_eq!(account_id, "acc"),
        _ => panic!("expected the premium lookup"),
    }
}

#[test]
fn premium_days_from_truncates_and_floors() {
    assert_eq!(premium_days_from(5), 5);
    assert_eq!(premium_days_from(0), -1);
    assert_eq!(premium_days_from(-7), -1);
    assert_eq!(premium_days_from(40000), -25536);
}

fn at(secs: i64, nanos: u32) -> Timestamp {
    Timestamp { secs, nanos }
}

#[test]
fn login_finish_without_expiry_sends_minus_one() {
    let now = at(1_700_000_000, 0);
    assert_eq!(
        login_finish(&RowLookup::NoRow, &now),
        vec![LS_LOGIN_REQ, AUTH_OK, 0xFF, 0xFF]
    );
    assert_eq!(
        login_finish(&RowLookup::Failed, &now),
        vec![LS_LOGIN_REQ, AUTH_OK, 0xFF, 0xFF]
    );
    let null_row: RowLookup<Option<Timestamp>> = RowLookup::Row(None);
    assert_eq!(
        login_finish(&null_row, &now),
        vec![LS_LOGIN_REQ, AUTH_OK, 0xFF, 0xFF]
    );
}

#[test]
fn login_finish_counts_days_until_expiry() {
    let now = at(1_700_000_000, 500);
    let expire = at(1_700_000_000 + 10 * 86_400 + 3_600, 0);
    assert_eq!(
        login_finish(&RowLookup::Row(Some(expire)), &now),
        vec![LS_LOGIN_REQ, AUTH_OK, 10, 0]
    );
    let expired = at(1_700_000_000 - 3 * 86_400, 0);
    assert_eq!(
        login_finish(&RowLookup::Row(Some(expired)), &now),
        vec![LS_LOGIN_REQ, AUTH_OK, 0xFF, 0xFF]
    );
}

#[test]
fn whole_days_truncates_toward_zero() {
    let now = at(1_000_000, 0);
    assert_eq!(whole_days(&now, &at(1_000_000 + 86_400, 0)), 1);
    assert_eq!(whole_days(&now, &at(1_000_000 + 86_399, 999_999_999)), 0);
    assert_eq!(whole_days(&now, &at(1_000_000 - 86_399, 0)), 0);
    assert_eq!(whole_days(&now, &at(1_000_000 - 2 * 86_400 - 1, 0)), -2);
    assert_eq!(whole_days(&at(i64::MIN, 0), &at(i64::MAX, u32::MAX)), 213_503_982_334_601);
}

#[test]
fn premium_days_wraps_past_i16() {
    let now = at(0, 0);
    let far = at(40_000 * 86_400, 0);
    assert_eq!(premium_days(&RowLookup::Row(Some(far)), &now), -25536);
    let exactly = at(65_536 * 86_400, 0);
    assert_eq!(premium_days(&RowLookup::Row(Some(exactly)), &now), 0);
}

#[test]
fn initial_servers_have_no_users() {
    let configs: Vec<ServerConfig> = vec![ServerConfig {
        id: 3,
        ip: "1.1.1.1".to_string(),
        name: "Alpha".to_string(),
        user_limit: 50,
    }];
    let states: Vec<ServerState> = initial_server_states(&configs);
    assert_eq!(states.len(), 1);
    assert_eq!(states[0].id, 3);
    assert_eq!(states[0].ip, "1.1.1.1");
    assert_eq!(states[0].name, "Alpha");
    assert_eq!(states[0].user_count, 0);
    assert_eq!(states[0].user_limit, 50);
}

#[test]
fn apply_user_counts_takes_first_match_or_zero() {
    let mut servers: Vec<ServerState> = vec![server(1, 7), server(2, 8), server(3, 9)];
    apply_user_counts(&mut servers, &vec![(2, 20), (1, 10), (2, 99)]);
    let counts: Vec<i16> = servers.iter().map(|s| s.user_count).collect();
    assert_eq!(counts, vec![10, 20, 0]);
    assert_eq!(servers[1].name, "S2");
}

#[test]
fn collect_user_counts_skips_missing_ids() {
    let rows: Vec<(Option<u8>, Option<i16>)> = vec![(Some(1), Some(5)), (None, Some(3)), (Some(2), None)];
    assert_eq!(collect_user_counts(&rows), vec![(1, 5), (2, 0)]);
}

#[test]
fn handler_context_from_config() {
    let config = Config {
        general: GeneralConfig {
            listen_port: 15100,
            last_version: 1298,
        },
        download: DownloadConfig {
            ftp_url: "ftp.x".to_string(),
            ftp_path: "/p".to_string(),
        },
        servers: vec![],
        news: NewsConfig {
            title: "T".to_string(),
            message: "M".to_string(),
        },
        patches: vec![PatchConfig {
            filename: "patch_1".to_string(),
            version: 1,
        }],
        database: DatabaseConfig {
            host: "h".to_string(),
            port: 1433,
            username: "u".to_string(),
            password: "SECRET-REDACTED".to_string(),
            database: "d".to_string(),
        },
    };
    let ctx: HandlerContext = HandlerContext::from_config(&config, vec![server(1, 0)]);
    assert_eq!(ctx.last_version, 1298);
    assert_eq!(ctx.ftp_url, "ftp.x");
    assert_eq!(ctx.ftp_path, "/p");
    assert_eq!(ctx.news_title, "T");
    assert_eq!(ctx.news_message, "M");
    assert_eq!(ctx.patches.len(), 1);
    assert_eq!(ctx.patches[0].filename, "patch_1");
    assert_eq!(ctx.patches[0].version, 1);
    assert_eq!(ctx.servers.len(), 1);
}

#[test]
fn known_opcodes() {
    for op in [0x01u8, 0x02, 0xF3, 0xF5, 0xF6] {
        assert!(is_known_opcode(op));
    }
    assert!(!is_known_opcode(0x00));
    assert!(!is_known_opcode(0xFF));
}
