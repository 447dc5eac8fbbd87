//! Identifiers of trainings, registrations and notifications: 128-bit UUIDs.
use std::str::FromStr;
use vstd::prelude::*;
use crate::text::{lacks, push_char};

verus! {

/// The character of the hexadecimal digit `d`, lower case.
pub open spec fn hex_char(d: int) -> char {
    if d < 10 {
        (('0' as int) + d) as char
    } else {
        (('a' as int) + d - 10) as char
    }
}

/// The last `k` hexadecimal digits of `n`, most significant first, zero-padded.
pub open spec fn fixed_hex(n: nat, k: nat) -> Seq<char>
    decreases k,
{
    if k == 0 {
        Seq::empty()
    } else {
        fixed_hex(n / 16, (k - 1) as nat).push(hex_char((n % 16) as int))
    }
}

/// The identifier in its hyphenated form: its 32 hexadecimal digits, lower
/// case, in groups of 8, 4, 4, 4 and 12 joined by hyphens.
pub open spec fn uuid_text(id: u128) -> Seq<char> {
    let n = id as nat;
    fixed_hex(n / 0x1_0000_0000_0000_0000_0000_0000, 8) + seq!['-'] + fixed_hex(
        n / 0x1_0000_0000_0000_0000_0000,
        4,
    ) + seq!['-'] + fixed_hex(n / 0x1_0000_0000_0000_0000, 4) + seq!['-'] + fixed_hex(
        n / 0x1_0000_0000_0000,
        4,
    ) + seq!['-'] + fixed_hex(n, 12)
}

/// `fixed_hex(n, k)` has `k` characters, none of them a `/`.
pub proof fn lemma_fixed_hex_lacks_slash(n: nat, k: nat)
    ensures
        fixed_hex(n, k).len() == k,
        lacks(fixed_hex(n, k), '/'),
    decreases k,
{
    if k > 0 {
        lemma_fixed_hex_lacks_slash(n / 16, (k - 1) as nat);
        let prev = fixed_hex(n / 16, (k - 1) as nat);
        let s = fixed_hex(n, k);
        assert forall|i: int| 0 <= i < k implies s[i] != '/' by {
            if i < k - 1 {
                assert(s[i] == prev[i]);
            }
        }
    }
}

/// The hyphenated form of an identifier holds no `/`.
pub proof fn lemma_uuid_text_lacks_slash(id: u128)
    ensures
        lacks(uuid_text(id), '/'),
{
    let n = id as nat;
    let g1 = fixed_hex(n / 0x1_0000_0000_0000_0000_0000_0000, 8);
    let g2 = fixed_hex(n / 0x1_0000_0000_0000_0000_0000, 4);
    let g3 = fixed_hex(n / 0x1_0000_0000_0000_0000, 4);
    let g4 = fixed_hex(n / 0x1_0000_0000_0000, 4);
    let g5 = fixed_hex(n, 12);
    lemma_fixed_hex_lacks_slash(n / 0x1_0000_0000_0000_0000_0000_0000, 8);
    lemma_fixed_hex_lacks_slash(n / 0x1_0000_0000_0000_0000_0000, 4);
    lemma_fixed_hex_lacks_slash(n / 0x1_0000_0000_0000_0000, 4);
    lemma_fixed_hex_lacks_slash(n / 0x1_0000_0000_0000, 4);
    lemma_fixed_hex_lacks_slash(n, 12);
    let t = uuid_text(id);
    assert(t =~= g1 + seq!['-'] + g2 + seq!['-'] + g3 + seq!['-'] + g4 + seq!['-'] + g5);
    assert forall|i: int| 0 <= i < t.len() implies t[i] != '/' by {
        if i < 8 {
            assert(t[i] == g1[i]);
        } else if i == 8 || i == 13 || i == 18 || i == 23 {
        } else if i < 13 {
            assert(t[i] == g2[i - 9]);
        } else if i < 18 {
            assert(t[i] == g3[i - 14]);
        } else if i < 23 {
            assert(t[i] == g4[i - 19]);
        } else {
            assert(t[i] == g5[i - 24]);
        }
    }
}

/// The identifier that `text` spells, in any form that UUIDs are written in.
pub uninterp spec fn parsed_uuid(text: Seq<char>) -> Option<u128>;

/// The character of the hexadecimal digit `d`.
fn hex_digit(d: u128) -> (c: char)
    requires
        d < 16,
    ensures
        c == hex_char(d as int),
{
    match d {
        0 => '0',
        1 => '1',
        2 => '2',
        3 => '3',
        4 => '4',
        5 => '5',
        6 => '6',
        7 => '7',
        8 => '8',
        9 => '9',
        10 => 'a',
        11 => 'b',
        12 => 'c',
        13 => 'd',
        14 => 'e',
        _ => 'f',
    }
}

/// Appends the last `k` hexadecimal digits of `n` to `s`.
fn push_fixed_hex(s: &mut String, n: u128, k: u32)
    ensures
        final(s)@ == old(s)@ + fixed_hex(n as nat, k as nat),
    decreases k,
{
    if k > 0 {
        push_fixed_hex(s, n / 16, k - 1);
        push_char(s, hex_digit(n % 16));
        proof {
            assert(old(s)@ + fixed_hex(n as nat, k as nat) =~= (old(s)@ + fixed_hex(
                (n / 16) as nat,
                (k - 1) as nat,
            )).push(hex_char((n % 16) as int)));
        }
    } else {
        assert(old(s)@ + fixed_hex(n as nat, 0) =~= old(s)@);
    }
}

/// The identifier in its hyphenated form.
pub fn format_uuid(id: u128) -> (res: String)
    ensures
        res@ == uuid_text(id),
{
    let mut s = String::new();
    push_fixed_hex(&mut s, id / 0x1_0000_0000_0000_0000_0000_0000, 8);
    push_char(&mut s, '-');
    push_fixed_hex(&mut s, id / 0x1_0000_0000_0000_0000_0000, 4);
    push_char(&mut s, '-');
    push_fixed_hex(&mut s, id / 0x1_0000_0000_0000_0000, 4);
    push_char(&mut s, '-');
    push_fixed_hex(&mut s, id / 0x1_0000_0000_0000, 4);
    push_char(&mut s, '-');
    push_fixed_hex(&mut s, id, 12);
    proof {
        assert(s@ =~= uuid_text(id));
    }
    s
}

/// The identifier that `text` spells, from the uuid crate's `Uuid::from_str`
/// and `as_u128`. Trusted: that the hyphenated form of an identifier gives
/// that identifier back; what other texts give is left to the name
/// `parsed_uuid`.
#[verifier::external_body]
fn parse_uuid_value(text: &str) -> (res: Option<u128>)
    ensures
        res == parsed_uuid(text@),
        forall|id: u128| text@ == #[trigger] uuid_text(id) ==> res == Some(id),
{
    uuid::Uuid::from_str(text).ok().map(|u| u.as_u128())
}

/// The identifier that `text` spells, if it spells one.
pub fn parse_uuid(text: &str) -> (res: Option<u128>)
    ensures
        res == parsed_uuid(text@),
        forall|id: u128| text@ == #[trigger] uuid_text(id) ==> res == Some(id),
{
    parse_uuid_value(text)
}

/// A fresh random identifier, from the uuid crate's `Uuid::new_v4` and
/// `as_u128`. Trusted: that its version digit is 4 and its variant bits are
/// `10`; the other bits are random and nothing is said of them.
#[verifier::external_body]
pub(crate) fn new_random_id() -> (id: u128)
    ensures
        (id / 0x1_0000_0000_0000_0000_000) % 16 == 4,
        (id / 0x4000_0000_0000_0000) % 4 == 2,
{
    uuid::Uuid::new_v4().as_u128()
}

} // verus!
