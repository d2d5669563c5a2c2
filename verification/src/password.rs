//! Random passwords over a chosen alphabet.

use crate::error::PasswordError;
use crate::text::chars_of;
use rand::Rng;
use vstd::prelude::*;
use vstd::string::*;

verus! {

/// The letters a password may hold.
pub const LETTERS: &'static str = "abcdefghijklmnopqrstuvwxyzABCDEFGHIJKLMNOPQRSTUVWXYZ";

/// The digits a password may hold.
pub const NUMBERS: &'static str = "0123456789";

/// The symbols a password may hold.
pub const SYMBOLS: &'static str = "!@#$%^&*()_-+=<>?";

/// The characters to draw from: letters, digits and symbols, in this order,
/// each group unless it is switched off.
pub open spec fn alphabet_spec(no_latters: bool, no_symbols: bool, no_numbers: bool) -> Seq<char> {
    (if no_latters {
        Seq::empty()
    } else {
        LETTERS@
    }) + (if no_numbers {
        Seq::empty()
    } else {
        NUMBERS@
    }) + (if no_symbols {
        Seq::empty()
    } else {
        SYMBOLS@
    })
}

/// The characters to draw from.
pub fn alphabet(no_latters: bool, no_symbols: bool, no_numbers: bool) -> (chars: Vec<char>)
    ensures
        chars@ == alphabet_spec(no_latters, no_symbols, no_numbers),
        chars@.len() == 0 <==> no_latters && no_symbols && no_numbers,
{
    proof {
        reveal_strlit("abcdefghijklmnopqrstuvwxyzABCDEFGHIJKLMNOPQRSTUVWXYZ");
        reveal_strlit("0123456789");
        reveal_strlit("!@#$%^&*()_-+=<>?");
    }
    let mut chars: Vec<char> = Vec::new();
    if !no_latters {
        let mut group = chars_of(LETTERS);
        chars.append(&mut group);
    }
    if !no_numbers {
        let mut group = chars_of(NUMBERS);
        chars.append(&mut group);
    }
    if !no_symbols {
        let mut group = chars_of(SYMBOLS);
        chars.append(&mut group);
    }
    chars
}

/// `Rng::random_range` on the thread's generator `rand::rng()`, over the
/// range from 0 up to and without `n`: some index below `n`.
#[verifier::external_body]
fn random_below(n: usize) -> (i: usize)
    requires
        n > 0,
    ensures
        i < n,
{
    rand::rng().random_range(0..n)
}

/// The password that the picks spell: its `i`-th character is the one at
/// `picks[i]` in `chars`.
pub fn password_of(chars: &Vec<char>, picks: &Vec<usize>) -> (password: String)
    requires
        forall|i: int| 0 <= i < picks.len() ==> picks[i] < chars.len(),
    ensures
        password@.len() == picks.len(),
        forall|i: int| 0 <= i < picks.len() ==> password@[i] == chars@[picks[i] as int],
{
    let mut password = String::new();
    let mut i: usize = 0;
    while i < picks.len()
        invariant
            i <= picks.len(),
            forall|j: int| 0 <= j < picks.len() ==> picks[j] < chars.len(),
            password@.len() == i,
            forall|j: int| 0 <= j < i ==> password@[j] == chars@[picks[j] as int],
        decreases picks.len() - i,
    {
        password.push(chars[picks[i]]);
        i += 1;
    }
    password
}

/// A random password of `length` characters, each drawn from the alphabet
/// that the three switches leave. With every group switched off there is
/// nothing to draw from, which is an error unless `length` is 0.
pub fn generate(length: u8, no_latters: bool, no_symbols: bool, no_numbers: bool) -> (r: Result<
    String,
    PasswordError,
>)
    ensures
        match r {
            Ok(password) => {
                &&& password@.len() == length
                &&& forall|i: int|
                    0 <= i < length ==> alphabet_spec(no_latters, no_symbols, no_numbers).contains(
                        #[trigger] password@[i],
                    )
            },
            Err(e) => {
                &&& e == PasswordError::MustSpecifyAtLeastOne
                &&& length > 0
                &&& no_latters && no_symbols && no_numbers
            },
        },
{
    let chars = alphabet(no_latters, no_symbols, no_numbers);
    if chars.len() == 0 && length > 0 {
        return Err(PasswordError::MustSpecifyAtLeastOne);
    }
    Ok(draw(&chars, length))
}

/// A random text of `length` characters, each drawn from `chars`.
pub fn draw(chars: &Vec<char>, length: u8) -> (text: String)
    requires
        length == 0 || chars.len() > 0,
    ensures
        text@.len() == length,
        forall|i: int| 0 <= i < length ==> chars@.contains(#[trigger] text@[i]),
{
    let mut picks: Vec<usize> = Vec::new();
    let mut i: u8 = 0;
    while i < length
        invariant
            i <= length,
            picks.len() == i,
            length > 0 ==> chars.len() > 0,
            forall|j: int| 0 <= j < i ==> picks[j] < chars.len(),
        decreases length - i,
    {
        picks.push(random_below(chars.len()));
        i += 1;
    }
    let text = password_of(chars, &picks);
    proof {
        assert forall|i: int| 0 <= i < length implies chars@.contains(#[trigger] text@[i]) by {
            assert(text@[i] == chars@[picks[i] as int]);
        }
    }
    text
}

} // verus!
