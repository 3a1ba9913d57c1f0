use libp2p::identity::Keypair;
use y7ke_bootstrap::events::{next_action, LoopAction, LoopEvent};
use y7ke_bootstrap::identity::{
    keypair_from_stored_secret, load_or_generate_identity, secret_to_store, IdentityError,
};
use y7ke_bootstrap::settings::boot_settings;
use y7ke_bootstrap::text::{comma_list_items, split_on_char, to_decimal, trim_white};

#[test]
fn decimal_rendering() {
    assert_eq!(to_decimal(0), "0");
    assert_eq!(to_decimal(7), "7");
    assert_eq!(to_decimal(10), "10");
    assert_eq!(to_decimal(4101), "4101");
    assert_eq!(to_decimal(65535), "65535");
    assert_eq!(to_decimal(u64::MAX), "18446744073709551615");
}

#[test]
fn trimming_removes_white_space_at_both_ends_only() {
    assert_eq!(trim_white("  a b \t\n"), "a b");
    assert_eq!(trim_white(""), "");
    assert_eq!(trim_white(" \u{2028} "), "");
    assert_eq!(trim_white("x"), "x");
}

#[test]
fn splitting_keeps_empty_pieces() {
    assert_eq!(split_on_char("a,,b,", ','), vec!["a", "", "b", ""]);
    assert_eq!(split_on_char("", ','), vec![""]);
    assert_eq!(split_on_char("abc", ','), vec!["abc"]);
}

#[test]
fn list_items_are_trimmed_and_non_empty() {
    assert_eq!(comma_list_items(" a , b,,  ,c "), vec!["a", "b", "c"]);
    assert!(comma_list_items("").is_empty());
}

#[test]
fn stored_secret_of_wrong_length_is_refused_with_its_length() {
    assert!(matches!(
        keypair_from_stored_secret(&[1u8; 31]),
        Err(IdentityError::UnexpectedLength(31))
    ));
    assert!(matches!(
        keypair_from_stored_secret(&[1u8; 64]),
        Err(IdentityError::UnexpectedLength(64))
    ));
    assert!(matches!(
        keypair_from_stored_secret(&[]),
        Err(IdentityError::UnexpectedLength(0))
    ));
}

#[test]
fn stored_secret_of_right_length_gives_the_same_keypair_each_time() {
    let secret = [7u8; 32];
    let a = keypair_from_stored_secret(&secret).unwrap();
    let b = keypair_from_stored_secret(&secret).unwrap();
    assert_eq!(a.public().to_peer_id(), b.public().to_peer_id());
    let expected = Keypair::ed25519_from_bytes([7u8; 32]).unwrap();
    assert_eq!(a.public().to_peer_id(), expected.public().to_peer_id());
}

#[test]
fn secret_to_store_is_the_first_half_of_the_encoding() {
    let mut enc = [0u8; 64];
    for (i, b) in enc.iter_mut().enumerate() {
        *b = i as u8;
    }
    let s = secret_to_store(Some(enc)).unwrap();
    assert_eq!(s, (0u8..32).collect::<Vec<u8>>());
    assert_eq!(secret_to_store(None), Err(IdentityError::NotEd25519));
}

#[test]
fn generated_identity_reloads_to_the_same_peer_id() {
    let id = load_or_generate_identity(None).unwrap();
    let secret = id.new_secret.clone().expect("a fresh identity has a secret to store");
    assert_eq!(secret.len(), 32);
    let again = load_or_generate_identity(Some(&secret)).unwrap();
    assert!(again.new_secret.is_none());
    assert_eq!(id.keypair.public().to_peer_id(), again.keypair.public().to_peer_id());
}

#[test]
fn stored_identity_errors_pass_through() {
    assert!(matches!(
        load_or_generate_identity(Some(&[0u8; 5])),
        Err(IdentityError::UnexpectedLength(5))
    ));
}

#[test]
fn settings_hold_the_fixed_values() {
    let s = boot_settings("0.1.6");
    assert_eq!(s.kad_protocol, "/y7ke/kad/1.0.0");
    assert_eq!(s.kad_bootstrap_interval_secs, 300);
    assert!(s.kad_server_mode);
    assert_eq!(s.identify_protocol, "/y7ke/0.1.0");
    assert_eq!(s.identify_agent, "y7ke-bootstrap/0.1.6");
    assert_eq!(s.identify_interval_secs, 300);
    assert!(s.identify_push_listen_addr_updates);
    assert_eq!((s.ping_interval_secs, s.ping_timeout_secs), (30, 10));
    assert_eq!((s.relay_max_reservations, s.relay_max_circuits), (1024, 1024));
    assert_eq!(s.relay_max_circuits_per_peer, 16);
    assert_eq!(
        (s.relay_reservation_duration_secs, s.relay_max_circuit_duration_secs),
        (3600, 3600)
    );
    assert_eq!(s.relay_max_circuit_bytes, 0);
    assert_eq!(s.idle_connection_timeout_secs, 600);
}

#[test]
fn loop_reactions() {
    assert_eq!(
        next_action(&LoopEvent::IdentifyReceived),
        LoopAction::AddAddressesToRoutingTable
    );
    assert_eq!(next_action(&LoopEvent::Terminate), LoopAction::Stop);
    assert_eq!(next_action(&LoopEvent::Interrupt), LoopAction::Stop);
    assert_eq!(next_action(&LoopEvent::Other), LoopAction::Continue);
}

#[test]
fn white_space_is_exactly_the_listed_code_points() {
    let listed = |v: u32| {
        (0x09..=0x0d).contains(&v)
            || v == 0x20
            || v == 0x85
            || v == 0xa0
            || v == 0x1680
            || (0x2000..=0x200a).contains(&v)
            || v == 0x2028
            || v == 0x2029
            || v == 0x202f
            || v == 0x205f
            || v == 0x3000
    };
    let mut count = 0;
    for v in 0..=0x10ffffu32 {
        if let Some(c) = char::from_u32(v) {
            assert_eq!(c.is_whitespace(), listed(v), "code point {v:#x}");
            if listed(v) {
                count += 1;
            }
        }
    }
    assert_eq!(count, 25);
}

#[test]
fn loaded_keypair_is_the_keypair_of_the_stored_bytes() {
    let secret: Vec<u8> = (1u8..=32).collect();
    let id = load_or_generate_identity(Some(&secret)).unwrap();
    let expected = Keypair::ed25519_from_bytes(secret.clone()).unwrap();
    assert_eq!(id.keypair.public(), expected.public());
    let bytes = id.keypair.try_into_ed25519().unwrap().to_bytes();
    assert_eq!(&bytes[..32], &secret[..]);
}

#[test]
fn fresh_identity_stores_its_own_secret() {
    let id = load_or_generate_identity(None).unwrap();
    let secret = id.new_secret.clone().unwrap();
    let bytes = id.keypair.clone().try_into_ed25519().unwrap().to_bytes();
    assert_eq!(&bytes[..32], &secret[..]);
}
