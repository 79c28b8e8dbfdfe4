//! The state transition of the interactive front end: a model holding the
//! typed text, the typed shift string, the cipher built from it and the last
//! processed output, and one update function from message to next state.
//! How the state is rendered and how events are collected is left to the
//! caller.

use vstd::prelude::*;
use crate::cipher::{CaesarCipher, encrypt_seq, decrypt_seq};
use crate::parse::{effective_shift, update_caesar};

verus! {

/// The front end's whole state.
pub struct Model {
    /// The free-form text the user typed.
    pub text: String,
    /// The output of the last encrypt or decrypt action, if any.
    pub processed: Option<String>,
    /// The shift string the user typed.
    pub key: String,
    /// The cipher built from `key` at the last encrypt or decrypt action.
    pub caesar: CaesarCipher,
}

impl Default for Model {
    /// The initial state: empty text, empty shift string, no output yet, and
    /// the identity cipher.
    fn default() -> (m: Self)
        ensures
            m.text@ == Seq::<char>::empty(),
            m.processed is None,
            m.key@ == Seq::<char>::empty(),
            m.caesar.spec_shift() == 0,
    {
        Model {
            text: String::new(),
            processed: None,
            key: String::new(),
            caesar: CaesarCipher::new(0),
        }
    }
}

/// One event of the front end.
#[derive(Clone)]
pub enum Msg {
    /// The user edited the text field.
    Input(String),
    /// The user edited the shift field.
    Shift(String),
    /// The user asked for the text to be encrypted.
    Encrypt,
    /// The user asked for the text to be decrypted.
    Decrypt,
}

/// Applies one event to the model.  Editing a field only records the new
/// contents; an encrypt or decrypt action rebuilds the cipher from the typed
/// shift string (degrading to the identity cipher when it does not parse) and
/// stores the transformed text as the processed output.
pub fn update(msg: Msg, model: &mut Model)
    ensures
        match msg {
            Msg::Input(s) => {
                &&& final(model).text == s
                &&& final(model).key == old(model).key
                &&& final(model).processed == old(model).processed
                &&& final(model).caesar == old(model).caesar
            },
            Msg::Shift(k) => {
                &&& final(model).key == k
                &&& final(model).text == old(model).text
                &&& final(model).processed == old(model).processed
                &&& final(model).caesar == old(model).caesar
            },
            Msg::Encrypt => {
                &&& final(model).caesar.spec_shift() == effective_shift(old(model).key@)
                &&& final(model).processed matches Some(p) && p@ == encrypt_seq(
                    old(model).text@,
                    effective_shift(old(model).key@) as int,
                )
                &&& final(model).text == old(model).text
                &&& final(model).key == old(model).key
            },
            Msg::Decrypt => {
                &&& final(model).caesar.spec_shift() == effective_shift(old(model).key@)
                &&& final(model).processed matches Some(p) && p@ == decrypt_seq(
                    old(model).text@,
                    effective_shift(old(model).key@) as int,
                )
                &&& final(model).text == old(model).text
                &&& final(model).key == old(model).key
            },
        },
{
    match msg {
        Msg::Input(s) => {
            model.text = s;
        },
        Msg::Shift(k) => {
            model.key = k;
        },
        Msg::Encrypt => {
            model.caesar = update_caesar(model.key.as_str());
            model.processed = Some(model.caesar.encrypt(model.text.clone()));
        },
        Msg::Decrypt => {
            model.caesar = update_caesar(model.key.as_str());
            model.processed = Some(model.caesar.decrypt(model.text.clone()));
        },
    }
}

} // verus!
