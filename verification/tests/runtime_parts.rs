use piney::auth::{mint_session_token, token_expiry, SESSION_VALIDITY_SECONDS};
use piney::export::{backup_filename, fresh_backup_filename};
use piney::hash::compute_json_hash;
use piney::orchestrator::{advance, RestorePhase};
use piney::paths::{get_data_dir, get_data_path};
use piney::pipe::BoundedPipe;
use piney::response::ImportResponse;

#[test]
fn pipe_delivers_in_order_under_byte_sized_reads() {
    let payload: Vec<u8> = (0..=255u8).cycle().take(1000).collect();
    let mut pipe = BoundedPipe::new(4);
    let mut received: Vec<u8> = Vec::new();
    let mut offset = 0usize;
    loop {
        if offset < payload.len() {
            let accepted = pipe.write(&payload[offset..]);
            assert!(accepted <= 4, "never more than the capacity is buffered");
            offset += accepted;
        }
        let b = pipe.read(1);
        if b.is_empty() && offset >= payload.len() {
            break;
        }
        received.extend_from_slice(&b);
    }
    assert_eq!(received, payload);
}

#[test]
fn pipe_write_accepts_only_what_fits() {
    let mut pipe = BoundedPipe::new(4);
    assert_eq!(pipe.write(&[1, 2, 3, 4, 5, 6]), 4);
    assert_eq!(pipe.write(&[7, 8]), 0);
    assert_eq!(pipe.read(2), vec![1, 2]);
    assert_eq!(pipe.write(&[7, 8, 9]), 2);
    assert_eq!(pipe.read(10), vec![3, 4, 7, 8]);
}

#[test]
fn pipe_close_signals_end_of_stream() {
    let mut pipe = BoundedPipe::new(8);
    pipe.write(&[1, 2, 3]);
    pipe.close();
    assert!(!pipe.at_eof());
    assert_eq!(pipe.read(8), vec![1, 2, 3]);
    assert!(pipe.at_eof());
    assert!(pipe.read(8).is_empty());
}

#[test]
fn writes_into_a_closed_pipe_fail() {
    let mut pipe = BoundedPipe::new(4);
    assert!(matches!(pipe.try_write(&[1, 2]), Ok(2)));
    pipe.close();
    assert!(matches!(
        pipe.try_write(&[3]),
        Err(piney::errors::BackupError::StreamTerminated)
    ));
    assert_eq!(pipe.read(4), vec![1, 2]);
    assert!(pipe.at_eof());
}

#[test]
fn restore_machine_happy_path_runs_in_order() {
    let mut p = RestorePhase::Idle;
    let expected = [
        RestorePhase::Disconnecting,
        RestorePhase::Validating,
        RestorePhase::Wiping,
        RestorePhase::Extracting,
        RestorePhase::Reloading,
        RestorePhase::Reconnecting,
        RestorePhase::IssuingToken,
        RestorePhase::Done,
    ];
    for want in expected {
        p = advance(p, true);
        assert_eq!(p, want);
    }
    assert_eq!(advance(RestorePhase::Done, false), RestorePhase::Done);
}

#[test]
fn restore_machine_rejects_invalid_upload_before_wiping() {
    let mut p = RestorePhase::Idle;
    p = advance(p, true);
    p = advance(p, true);
    assert_eq!(p, RestorePhase::Validating);
    p = advance(p, false);
    assert_eq!(p, RestorePhase::FailedValidation);
    assert_eq!(advance(p, true), RestorePhase::FailedValidation);
}

#[test]
fn restore_machine_reports_extraction_failure_separately() {
    let mut p = RestorePhase::Validating;
    p = advance(p, true);
    assert_eq!(p, RestorePhase::Wiping);
    p = advance(p, true);
    assert_eq!(p, RestorePhase::Extracting);
    p = advance(p, false);
    assert_eq!(p, RestorePhase::FailedExtraction);
}

#[test]
fn restore_machine_absorbs_non_fatal_failures() {
    assert_eq!(advance(RestorePhase::Disconnecting, false), RestorePhase::Validating);
    assert_eq!(advance(RestorePhase::Reloading, false), RestorePhase::Reconnecting);
    assert_eq!(advance(RestorePhase::Reconnecting, false), RestorePhase::IssuingToken);
    assert_eq!(advance(RestorePhase::IssuingToken, false), RestorePhase::Done);
}

#[test]
fn data_dir_falls_back_to_default() {
    assert_eq!(get_data_dir(None), "./data".to_string());
    assert_eq!(get_data_dir(Some("/srv/piney".to_string())), "/srv/piney".to_string());
}

#[test]
fn data_paths_join_under_the_root() {
    assert_eq!(get_data_path("./data", ""), "./data".to_string());
    assert_eq!(get_data_path("./data", "config.yml"), "./data/config.yml".to_string());
    assert_eq!(get_data_path("/srv/d", "cards/a.json"), "/srv/d/cards/a.json".to_string());
}

#[test]
fn json_hash_matches_known_sha256_vectors() {
    assert_eq!(
        compute_json_hash(""),
        "e3b0c44298fc1c149afbf4c8996fb92427ae41e4649b934ca495991b7852b855".to_string()
    );
    assert_eq!(
        compute_json_hash("abc"),
        "ba7816bf8f01cfea414140de5dae2223b00361a396177a9cb410ff61f20015ad".to_string()
    );
}

#[test]
fn token_expiry_is_ninety_days() {
    assert_eq!(SESSION_VALIDITY_SECONDS, 90 * 86400);
    assert_eq!(token_expiry(1_700_000_000), Some(1_700_000_000 + 7_776_000));
    assert_eq!(token_expiry(i64::MAX), None);
    assert!(mint_session_token("admin", i64::MAX, b"secret").is_none());
}

#[test]
fn minted_token_matches_direct_hs256_encoding() {
    let now: i64 = 1_700_000_000;
    let token = mint_session_token("admin", now, b"top-secret").expect("mint");
    let mut claims = serde_json::Map::new();
    claims.insert(
        "sub".to_string(),
        serde_json::Value::String("admin".to_string()),
    );
    claims.insert(
        "exp".to_string(),
        serde_json::Value::Number(serde_json::Number::from((now + 7_776_000) as u64)),
    );
    let expected = jsonwebtoken::encode(
        &jsonwebtoken::Header::default(),
        &serde_json::Value::Object(claims),
        &jsonwebtoken::EncodingKey::from_secret(b"top-secret"),
    )
    .expect("encode");
    assert_eq!(token, expected);
}

#[test]
fn backup_filenames_carry_the_timestamp() {
    assert_eq!(
        backup_filename("20240101_120000"),
        "piney_backup_20240101_120000.piney".to_string()
    );
    let fresh = fresh_backup_filename();
    assert!(fresh.starts_with("piney_backup_"));
    assert!(fresh.ends_with(".piney"));
}

#[test]
fn import_response_reports_the_resolved_user() {
    let r = ImportResponse::success("admin".to_string(), Some("tok".to_string()));
    assert_eq!(r.username, "admin");
    assert_eq!(r.token, Some("tok".to_string()));
    assert!(!r.message.is_empty());
    let r2 = ImportResponse::success("admin".to_string(), None);
    assert!(r2.token.is_none());
}
