use caesar_cipher::state::{update, Model, Msg};

#[test]
fn default_model_is_empty_with_identity_cipher() {
    let m = Model::default();
    assert_eq!(m.text, "");
    assert_eq!(m.key, "");
    assert!(m.processed.is_none());
    assert_eq!(m.caesar.shift(), 0);
}

#[test]
fn editing_fields_only_records_them() {
    let mut m = Model::default();
    update(Msg::Input(String::from("Hello")), &mut m);
    assert_eq!(m.text, "Hello");
    assert!(m.processed.is_none());
    update(Msg::Shift(String::from("4")), &mut m);
    assert_eq!(m.key, "4");
    assert_eq!(m.text, "Hello");
    assert!(m.processed.is_none());
}

#[test]
fn encrypt_action_processes_the_text() {
    let mut m = Model::default();
    update(Msg::Input(String::from("Hello, World!")), &mut m);
    update(Msg::Shift(String::from("1")), &mut m);
    update(Msg::Encrypt, &mut m);
    assert_eq!(m.caesar.shift(), 1);
    assert_eq!(m.processed.as_deref(), Some("Ifmmp, Xpsme!"));
    assert_eq!(m.text, "Hello, World!");
    assert_eq!(m.key, "1");
}

#[test]
fn decrypt_action_processes_the_text() {
    let mut m = Model::default();
    update(Msg::Input(String::from("Ifmmp, Xpsme!")), &mut m);
    update(Msg::Shift(String::from("1")), &mut m);
    update(Msg::Decrypt, &mut m);
    assert_eq!(m.processed.as_deref(), Some("Hello, World!"));
}

#[test]
fn action_rereads_the_current_key() {
    let mut m = Model::default();
    update(Msg::Input(String::from("ABC")), &mut m);
    update(Msg::Shift(String::from("3")), &mut m);
    update(Msg::Encrypt, &mut m);
    assert_eq!(m.processed.as_deref(), Some("DEF"));
    update(Msg::Shift(String::from("25")), &mut m);
    update(Msg::Encrypt, &mut m);
    assert_eq!(m.caesar.shift(), 25);
    assert_eq!(m.processed.as_deref(), Some("ZAB"));
}

#[test]
fn invalid_key_encrypts_with_identity_cipher() {
    let mut m = Model::default();
    update(Msg::Input(String::from("Test")), &mut m);
    update(Msg::Shift(String::from("xyz")), &mut m);
    update(Msg::Encrypt, &mut m);
    assert_eq!(m.caesar.shift(), 0);
    assert_eq!(m.processed.as_deref(), Some("Test"));
}

#[test]
fn shift_over_255_in_key_falls_back_to_identity() {
    let mut m = Model::default();
    update(Msg::Input(String::from("Test")), &mut m);
    update(Msg::Shift(String::from("260")), &mut m);
    update(Msg::Encrypt, &mut m);
    assert_eq!(m.caesar.shift(), 0);
    assert_eq!(m.processed.as_deref(), Some("Test"));
}
