use builder_pattern_fsm::naming::{
    container_name, final_builder_name, fresh_nonce, fresh_state_name, setter_name, state_name,
    strip_hyphens,
};

#[test]
fn generated_names_follow_the_record() {
    assert_eq!(container_name("User"), "__UserFieldsContainer");
    assert_eq!(final_builder_name("User"), "__UserFinalBuilder");
    assert_eq!(setter_name("address"), "with_address");
    assert_eq!(state_name("User", "00ff"), "__User_00ff");
}

#[test]
fn hyphens_are_stripped() {
    assert_eq!(strip_hyphens("a-b--c-"), "abc");
    assert_eq!(strip_hyphens(""), "");
    assert_eq!(strip_hyphens("---"), "");
    assert_eq!(
        strip_hyphens("67e55044-10b1-426f-9247-bb680e5fe0c8"),
        "67e5504410b1426f9247bb680e5fe0c8"
    );
}

#[test]
fn a_nonce_is_thirty_two_hex_digits() {
    for _ in 0..32 {
        let nonce = fresh_nonce();
        assert_eq!(nonce.len(), 32);
        assert!(nonce.chars().all(|c| matches!(c, '0'..='9' | 'a'..='f')));
    }
}

#[test]
fn nonces_differ() {
    assert_ne!(fresh_nonce(), fresh_nonce());
}

#[test]
fn a_state_name_is_the_record_and_a_nonce() {
    let name = fresh_state_name("User");
    let nonce = name.strip_prefix("__User_").unwrap();
    assert_eq!(nonce.len(), 32);
    assert!(nonce.chars().all(|c| matches!(c, '0'..='9' | 'a'..='f')));
}
