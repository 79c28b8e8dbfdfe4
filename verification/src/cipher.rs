//! The Caesar cipher itself: a shift value wrapped in an immutable value
//! object, with `encrypt` and `decrypt` passes over a string.

use vstd::prelude::*;
use vstd::string::StrSliceExecFns;

verus! {

/// `c` is an ASCII uppercase letter, `A`..=`Z`.
pub open spec fn is_upper(c: char) -> bool {
    'A' <= c <= 'Z'
}

/// `c` is an ASCII lowercase letter, `a`..=`z`.
pub open spec fn is_lower(c: char) -> bool {
    'a' <= c <= 'z'
}

/// `c` is one of the 52 letters the cipher acts on.
pub open spec fn is_letter(c: char) -> bool {
    is_upper(c) || is_lower(c)
}

/// The code point reached from `code` by moving `amount` positions through the
/// 26-letter ring that starts at `base`, wrapping at the ring's end.
/// `amount` may be any integer: only its residue modulo 26 matters.
pub open spec fn rotate(code: int, base: int, amount: int) -> int {
    (code - base + amount) % 26 + base
}

/// One encrypted character: letters move `amount` positions forward in their
/// own ring, everything else is left unchanged.
pub open spec fn encrypt_char(c: char, amount: int) -> char {
    if is_upper(c) {
        rotate(c as int, 'A' as int, amount) as char
    } else if is_lower(c) {
        rotate(c as int, 'a' as int, amount) as char
    } else {
        c
    }
}

/// One decrypted character: letters move `amount` positions backward in their
/// own ring, everything else is left unchanged.
pub open spec fn decrypt_char(c: char, amount: int) -> char {
    if is_upper(c) {
        rotate(c as int, 'A' as int, -amount) as char
    } else if is_lower(c) {
        rotate(c as int, 'a' as int, -amount) as char
    } else {
        c
    }
}

/// A whole text encrypted character by character, order and length preserved.
pub open spec fn encrypt_seq(t: Seq<char>, amount: int) -> Seq<char> {
    t.map_values(|c: char| encrypt_char(c, amount))
}

/// A whole text decrypted character by character, order and length preserved.
pub open spec fn decrypt_seq(t: Seq<char>, amount: int) -> Seq<char> {
    t.map_values(|c: char| decrypt_char(c, amount))
}

/// Relies on `String::push`: appends the given character to the end of the
/// string.
#[verifier::external_body]
fn push_char(s: &mut String, c: char)
    ensures
        final(s)@ == old(s)@.push(c),
{
    s.push(c);
}

/// Moves `c` forward by `amount` positions if it is a letter, per
/// [`encrypt_char`].
fn shift_char(c: char, amount: u8) -> (r: char)
    requires
        amount < 26,
    ensures
        r == encrypt_char(c, amount as int),
{
    let u = c as u32;
    if 65 <= u && u <= 90 {
        (((u - 65 + amount as u32) % 26 + 65) as u8) as char
    } else if 97 <= u && u <= 122 {
        (((u - 97 + amount as u32) % 26 + 97) as u8) as char
    } else {
        c
    }
}

/// Moves `c` backward by `amount` positions if it is a letter, per
/// [`decrypt_char`].
fn unshift_char(c: char, amount: u8) -> (r: char)
    requires
        amount < 26,
    ensures
        r == decrypt_char(c, amount as int),
{
    proof {
        vstd::arithmetic::div_mod::lemma_mod_add_multiples_vanish(
            c as int - 65 - amount as int,
            26,
        );
        vstd::arithmetic::div_mod::lemma_mod_add_multiples_vanish(
            c as int - 97 - amount as int,
            26,
        );
    }
    let u = c as u32;
    if 65 <= u && u <= 90 {
        (((u - 65 + 26 - amount as u32) % 26 + 65) as u8) as char
    } else if 97 <= u && u <= 122 {
        (((u - 97 + 26 - amount as u32) % 26 + 97) as u8) as char
    } else {
        c
    }
}

/// An immutable Caesar cipher: one effective shift in `[0, 26)`.
pub struct CaesarCipher {
    shift: u8,
}

impl CaesarCipher {
    /// The effective shift this cipher rotates by.
    pub closed spec fn spec_shift(&self) -> u8 {
        self.shift
    }

    #[verifier::type_invariant]
    closed spec fn wf(&self) -> bool {
        self.shift < 26
    }

    /// Builds a cipher from any 8-bit shift, normalizing it modulo 26.
    pub fn new(shift: u8) -> (c: Self)
        ensures
            c.spec_shift() == shift % 26,
    {
        CaesarCipher { shift: shift % 26 }
    }

    /// The effective shift, as a value.
    pub fn shift(&self) -> (s: u8)
        ensures
            s == self.spec_shift(),
            s < 26,
    {
        proof {
            use_type_invariant(self);
        }
        self.shift
    }

    /// Encrypts `text`: every letter moves forward by the cipher's shift
    /// within its own ring, every other character passes through unchanged.
    pub fn encrypt(&self, text: String) -> (r: String)
        ensures
            r@ == encrypt_seq(text@, self.spec_shift() as int),
    {
        proof {
            use_type_invariant(self);
        }
        let amount = self.shift;
        let n = text.as_str().unicode_len();
        let mut out = String::new();
        let mut i: usize = 0;
        while i < n
            invariant
                i <= n,
                n == text@.len(),
                amount == self.spec_shift(),
                amount < 26,
                out@.len() == i,
                forall|j: int| 0 <= j < i ==> out@[j] == encrypt_char(text@[j], amount as int),
            decreases n - i,
        {
            let c = text.as_str().get_char(i);
            let d = shift_char(c, amount);
            push_char(&mut out, d);
            i = i + 1;
        }
        proof {
            assert(out@ =~= encrypt_seq(text@, amount as int));
        }
        out
    }

    /// Decrypts `text`: every letter moves backward by the cipher's shift
    /// within its own ring, every other character passes through unchanged.
    pub fn decrypt(&self, text: String) -> (r: String)
        ensures
            r@ == decrypt_seq(text@, self.spec_shift() as int),
    {
        proof {
            use_type_invariant(self);
        }
        let amount = self.shift;
        let n = text.as_str().unicode_len();
        let mut out = String::new();
        let mut i: usize = 0;
        while i < n
            invariant
                i <= n,
                n == text@.len(),
                amount == self.spec_shift(),
                amount < 26,
                out@.len() == i,
                forall|j: int| 0 <= j < i ==> out@[j] == decrypt_char(text@[j], amount as int),
            decreases n - i,
        {
            let c = text.as_str().get_char(i);
            let d = unshift_char(c, amount);
            push_char(&mut out, d);
            i = i + 1;
        }
        proof {
            assert(out@ =~= decrypt_seq(text@, amount as int));
        }
        out
    }
}

/// Rotation never leaves the ring it started in: the image of a code point of
/// the ring beginning at `base` lies in that same ring, whatever the amount.
pub proof fn lemma_rotate_in_ring(code: int, base: int, amount: int)
    requires
        base <= code < base + 26,
    ensures
        base <= rotate(code, base, amount) < base + 26,
{
    vstd::arithmetic::div_mod::lemma_mod_bound(code - base + amount, 26);
}

/// Case preservation: encrypting or decrypting an uppercase letter yields an
/// uppercase letter, and a lowercase letter yields a lowercase letter.
pub proof fn lemma_case_preservation(c: char, amount: int)
    ensures
        is_upper(c) ==> is_upper(encrypt_char(c, amount)) && is_upper(decrypt_char(c, amount)),
        is_lower(c) ==> is_lower(encrypt_char(c, amount)) && is_lower(decrypt_char(c, amount)),
{
    if is_upper(c) {
        lemma_rotate_in_ring(c as int, 'A' as int, amount);
        lemma_rotate_in_ring(c as int, 'A' as int, -amount);
    } else if is_lower(c) {
        lemma_rotate_in_ring(c as int, 'a' as int, amount);
        lemma_rotate_in_ring(c as int, 'a' as int, -amount);
    }
}

/// Non-letter identity: a character outside `A`-`Z` and `a`-`z` is left
/// unchanged by encryption and by decryption, at its original position.
pub proof fn lemma_non_letter_identity(t: Seq<char>, amount: int, i: int)
    requires
        0 <= i < t.len(),
        !is_letter(t[i]),
    ensures
        encrypt_seq(t, amount)[i] == t[i],
        decrypt_seq(t, amount)[i] == t[i],
{
}

/// Decrypting after encrypting with one and the same character restores it.
pub proof fn lemma_char_round_trip(c: char, amount: int)
    requires
        0 <= amount < 26,
    ensures
        decrypt_char(encrypt_char(c, amount), amount) == c,
{
    vstd::arithmetic::div_mod::lemma_small_mod(amount as nat, 26);
    if is_upper(c) {
        let a = c as int - 'A' as int;
        lemma_case_preservation(c, amount);
        vstd::arithmetic::div_mod::lemma_sub_mod_noop(a + amount, amount, 26);
        vstd::arithmetic::div_mod::lemma_small_mod(a as nat, 26);
    } else if is_lower(c) {
        let a = c as int - 'a' as int;
        lemma_case_preservation(c, amount);
        vstd::arithmetic::div_mod::lemma_sub_mod_noop(a + amount, amount, 26);
        vstd::arithmetic::div_mod::lemma_small_mod(a as nat, 26);
    }
}

/// Round trip: decrypting an encrypted text with the same shift restores the
/// original text, for every text and every effective shift.
pub proof fn lemma_round_trip(t: Seq<char>, amount: int)
    requires
        0 <= amount < 26,
    ensures
        decrypt_seq(encrypt_seq(t, amount), amount) == t,
{
    assert forall|i: int| 0 <= i < t.len() implies decrypt_seq(encrypt_seq(t, amount), amount)[i]
        == t[i] by {
        lemma_char_round_trip(t[i], amount);
    }
    assert(decrypt_seq(encrypt_seq(t, amount), amount) =~= t);
}

/// Shift normalization for one character: only the shift's residue modulo 26
/// matters, so shift 26 acts as shift 0 and shift 255 acts as shift 3.
pub proof fn lemma_char_shift_normalization(c: char, a: int, b: int)
    requires
        a % 26 == b % 26,
    ensures
        encrypt_char(c, a) == encrypt_char(c, b),
        decrypt_char(c, a) == decrypt_char(c, b),
{
    lemma_neg_congruent(a, b);
    let base: int = if is_upper(c) {
        'A' as int
    } else {
        'a' as int
    };
    lemma_rotate_congruent(c as int, base, a, b);
    lemma_rotate_congruent(c as int, base, -a, -b);
}

/// Congruent amounts rotate every code point to the same place.
proof fn lemma_rotate_congruent(code: int, base: int, a: int, b: int)
    requires
        a % 26 == b % 26,
    ensures
        rotate(code, base, a) == rotate(code, base, b),
{
    vstd::arithmetic::div_mod::lemma_add_mod_noop(code - base, a, 26);
    vstd::arithmetic::div_mod::lemma_add_mod_noop(code - base, b, 26);
}

/// Negation preserves congruence modulo 26.
proof fn lemma_neg_congruent(a: int, b: int)
    requires
        a % 26 == b % 26,
    ensures
        (-a) % 26 == (-b) % 26,
{
    vstd::arithmetic::div_mod::lemma_sub_mod_noop(0, a, 26);
    vstd::arithmetic::div_mod::lemma_sub_mod_noop(0, b, 26);
}

/// Shift normalization: two shifts with the same residue modulo 26 encrypt
/// and decrypt every text identically.
pub proof fn lemma_shift_normalization(t: Seq<char>, a: int, b: int)
    requires
        a % 26 == b % 26,
    ensures
        encrypt_seq(t, a) == encrypt_seq(t, b),
        decrypt_seq(t, a) == decrypt_seq(t, b),
{
    assert forall|i: int| 0 <= i < t.len() implies encrypt_seq(t, a)[i] == encrypt_seq(t, b)[i]
        && decrypt_seq(t, a)[i] == decrypt_seq(t, b)[i] by {
        lemma_char_shift_normalization(t[i], a, b);
    }
    assert(encrypt_seq(t, a) =~= encrypt_seq(t, b));
    assert(decrypt_seq(t, a) =~= decrypt_seq(t, b));
}

/// A shift of zero is the identity transform, encrypting and decrypting.
pub proof fn lemma_identity_shift(t: Seq<char>)
    ensures
        encrypt_seq(t, 0) == t,
        decrypt_seq(t, 0) == t,
{
    assert forall|i: int| 0 <= i < t.len() implies encrypt_seq(t, 0)[i] == t[i] && decrypt_seq(
        t,
        0,
    )[i] == t[i] by {
        let c = t[i];
        if is_upper(c) {
            vstd::arithmetic::div_mod::lemma_small_mod((c as int - 'A' as int) as nat, 26);
        } else if is_lower(c) {
            vstd::arithmetic::div_mod::lemma_small_mod((c as int - 'a' as int) as nat, 26);
        }
    }
    assert(encrypt_seq(t, 0) =~= t);
    assert(decrypt_seq(t, 0) =~= t);
}

} // verus!
