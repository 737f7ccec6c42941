//! The opaque payload attached to call-hierarchy items.
//!
//! A prepared item carries a small JSON object `{"nodeId":"<decimal>"}`;
//! the incoming- and outgoing-call requests hand it back, and the embedded
//! id is recovered from it. The codec is verified: decoding what was encoded
//! yields the original id.

use vstd::prelude::*;

verus! {

/// The digit character of one decimal digit.
pub open spec fn digit_char(d: nat) -> char {
    if d == 0 {
        '0'
    } else if d == 1 {
        '1'
    } else if d == 2 {
        '2'
    } else if d == 3 {
        '3'
    } else if d == 4 {
        '4'
    } else if d == 5 {
        '5'
    } else if d == 6 {
        '6'
    } else if d == 7 {
        '7'
    } else if d == 8 {
        '8'
    } else {
        '9'
    }
}

/// The decimal digit of a digit character, if it is one.
pub open spec fn char_digit(c: char) -> Option<nat> {
    if c == '0' {
        Some(0 as nat)
    } else if c == '1' {
        Some(1 as nat)
    } else if c == '2' {
        Some(2 as nat)
    } else if c == '3' {
        Some(3 as nat)
    } else if c == '4' {
        Some(4 as nat)
    } else if c == '5' {
        Some(5 as nat)
    } else if c == '6' {
        Some(6 as nat)
    } else if c == '7' {
        Some(7 as nat)
    } else if c == '8' {
        Some(8 as nat)
    } else if c == '9' {
        Some(9 as nat)
    } else {
        None
    }
}

/// The decimal spelling of a number, most significant digit first.
pub open spec fn dec_digits(n: nat) -> Seq<char>
    decreases n,
{
    if n < 10 {
        seq![digit_char(n)]
    } else {
        dec_digits(n / 10).push(digit_char(n % 10))
    }
}

/// Whether every character is a decimal digit.
pub open spec fn all_digits(s: Seq<char>) -> bool {
    forall|i: int| 0 <= i < s.len() ==> char_digit(#[trigger] s[i]) is Some
}

/// The value of a digit string, read left to right.
pub open spec fn dec_value(s: Seq<char>) -> nat
    decreases s.len(),
{
    if s.len() == 0 {
        0
    } else {
        dec_value(s.drop_last()) * 10 + (match char_digit(s.last()) {
            Some(d) => d,
            None => 0,
        })
    }
}

/// The digit characters of a digit string really are digits.
proof fn lemma_dec_digits_are_digits(n: nat)
    ensures
        all_digits(dec_digits(n)),
        dec_digits(n).len() >= 1,
    decreases n,
{
    if n < 10 {
        assert(char_digit(digit_char(n)) is Some);
        assert(forall|i: int|
            0 <= i < dec_digits(n).len() ==> char_digit(#[trigger] dec_digits(n)[i]) is Some);
    } else {
        lemma_dec_digits_are_digits(n / 10);
        let pre = dec_digits(n / 10);
        let whole = dec_digits(n);
        assert(whole == pre.push(digit_char(n % 10)));
        assert(char_digit(digit_char(n % 10)) is Some) by {
            assert(n % 10 < 10);
        }
        assert(forall|i: int| 0 <= i < pre.len() ==> whole[i] == pre[i]);
        assert(forall|i: int|
            0 <= i < whole.len() ==> char_digit(#[trigger] whole[i]) is Some);
    }
}

/// Reading back a decimal spelling yields the number.
pub proof fn lemma_dec_round_trip(n: nat)
    ensures
        dec_value(dec_digits(n)) == n,
        all_digits(dec_digits(n)),
        dec_digits(n).len() >= 1,
    decreases n,
{
    lemma_dec_digits_are_digits(n);
    if n < 10 {
        let s = dec_digits(n);
        assert(s == seq![digit_char(n)]);
        assert(s.drop_last() =~= Seq::<char>::empty());
        assert(dec_value(Seq::<char>::empty()) == 0);
        assert(s.last() == digit_char(n));
        assert(char_digit(digit_char(n)) == Some(n));
        assert(dec_value(s) == dec_value(s.drop_last()) * 10 + n);
        assert(dec_value(s) == n);
    } else {
        lemma_dec_round_trip(n / 10);
        let pre = dec_digits(n / 10);
        let whole = dec_digits(n);
        assert(whole == pre.push(digit_char(n % 10)));
        assert(whole.drop_last() =~= pre);
        assert(whole.last() == digit_char(n % 10));
        assert(char_digit(digit_char(n % 10)) == Some(n % 10)) by {
            assert(n % 10 < 10);
        }
        assert(dec_value(whole) == dec_value(pre) * 10 + n % 10);
        assert((n / 10) * 10 + n % 10 == n) by (nonlinear_arith);
    }
}

/// One digit as a string slice.
fn digit_str(d: u64) -> (r: &'static str)
    requires
        d < 10,
    ensures
        r@ == seq![digit_char(d as nat)],
{
    proof {
        reveal_strlit("0");
        reveal_strlit("1");
        reveal_strlit("2");
        reveal_strlit("3");
        reveal_strlit("4");
        reveal_strlit("5");
        reveal_strlit("6");
        reveal_strlit("7");
        reveal_strlit("8");
        reveal_strlit("9");
    }
    let r = if d == 0 {
        "0"
    } else if d == 1 {
        "1"
    } else if d == 2 {
        "2"
    } else if d == 3 {
        "3"
    } else if d == 4 {
        "4"
    } else if d == 5 {
        "5"
    } else if d == 6 {
        "6"
    } else if d == 7 {
        "7"
    } else {
        if d == 8 {
            "8"
        } else {
            "9"
        }
    };
    proof {
        assert(r@ =~= seq![digit_char(d as nat)]);
    }
    r
}

/// The decimal spelling of a number.
pub fn u64_to_dec(n: u64) -> (r: String)
    ensures
        r@ == dec_digits(n as nat),
    decreases n,
{
    if n < 10 {
        digit_str(n).to_owned()
    } else {
        proof {
            assert(n / 10 < n) by (nonlinear_arith)
                requires
                    n >= 10,
            ;
        }
        let mut s = u64_to_dec(n / 10);
        s.append(digit_str(n % 10));
        proof {
            assert(s@ =~= dec_digits(n as nat));
        }
        s
    }
}

/// Parse a digit string back to a number.
pub fn dec_to_u64(s: &str) -> (r: Option<u64>)
    ensures
        r == (if s@.len() > 0 && all_digits(s@) && dec_value(s@) <= u64::MAX as nat {
            Some(dec_value(s@) as u64)
        } else {
            None::<u64>
        }),
{
    let n = s.unicode_len();
    if n == 0 {
        return None;
    }
    let mut acc: u64 = 0;
    let mut i: usize = 0;
    proof {
        assert(s@.take(0) =~= Seq::<char>::empty());
    }
    while i < n
        invariant
            0 <= i <= n,
            n == s@.len(),
            all_digits(s@.take(i as int)),
            acc as nat == dec_value(s@.take(i as int)),
        decreases n - i,
    {
        let c = s.get_char(i);
        let d: u64 = match c {
            '0' => 0,
            '1' => 1,
            '2' => 2,
            '3' => 3,
            '4' => 4,
            '5' => 5,
            '6' => 6,
            '7' => 7,
            '8' => 8,
            '9' => 9,
            _ => 10,
        };
        if d == 10 {
            proof {
                assert(char_digit(s@[i as int]) is None);
            }
            return None;
        }
        proof {
            assert(char_digit(s@[i as int]) == Some(d as nat));
            assert(s@.take(i as int + 1).drop_last() =~= s@.take(i as int));
            assert(s@.take(i as int + 1).last() == s@[i as int]);
        }
        if acc > u64::MAX / 10 {
            proof {
                lemma_value_prefix_mono(s@, i as int + 1);
                assert(acc as nat * 10 > u64::MAX as nat) by (nonlinear_arith)
                    requires
                        acc as nat > u64::MAX as nat / 10,
                ;
            }
            return None;
        }
        let shifted = acc * 10;
        proof {
            assert(acc as nat * 10 <= u64::MAX as nat) by (nonlinear_arith)
                requires
                    acc as nat <= u64::MAX as nat / 10,
            ;
        }
        if shifted > u64::MAX - d {
            proof {
                lemma_value_prefix_mono(s@, i as int + 1);
            }
            return None;
        }
        acc = shifted + d;
        proof {
            assert(forall|j: int| 0 <= j < i ==> s@.take(i as int + 1)[j] == s@.take(i as int)[j]);
            assert(all_digits(s@.take(i as int + 1)));
        }
        i += 1;
    }
    proof {
        assert(s@.take(n as int) =~= s@);
    }
    Some(acc)
}

/// A digit string's value only grows as it is extended.
proof fn lemma_value_prefix_mono(s: Seq<char>, i: int)
    requires
        0 <= i <= s.len(),
    ensures
        dec_value(s.take(i)) <= dec_value(s),
    decreases s.len() - i,
{
    if i < s.len() {
        lemma_value_prefix_mono(s, i + 1);
        assert(s.take(i + 1).drop_last() =~= s.take(i));
        assert(dec_value(s.take(i + 1)) >= dec_value(s.take(i)) * 10) by {
            assert(dec_value(s.take(i + 1)) == dec_value(s.take(i)) * 10 + (match char_digit(
                s.take(i + 1).last(),
            ) {
                Some(d) => d,
                None => 0,
            }));
        }
        assert(dec_value(s.take(i)) * 10 >= dec_value(s.take(i))) by (nonlinear_arith);
    } else {
        assert(s.take(i) =~= s);
    }
}

/// The payload text carrying one node id.
pub open spec fn spec_payload(id: u64) -> Seq<char> {
    "{\"nodeId\":\""@ + dec_digits(id as nat) + "\"}"@
}

/// Encode a node id as a call-hierarchy payload.
pub fn encode_node_id_payload(id: u64) -> (r: String)
    ensures
        r@ == spec_payload(id),
{
    let mut s: String = "{\"nodeId\":\"".to_owned();
    let digits = u64_to_dec(id);
    s.append(digits.as_str());
    s.append("\"}");
    proof {
        assert(s@ =~= spec_payload(id));
    }
    s
}

/// Decode a call-hierarchy payload back to the embedded node id. Whatever
/// `encode_node_id_payload` produced is accepted and yields the encoded id.
pub fn extract_node_id_payload(s: &str) -> (r: Option<u64>)
    ensures
        r matches Some(id) ==> s@.len() >= 14 && all_digits(
            s@.subrange(11, s@.len() - 2),
        ) && dec_value(s@.subrange(11, s@.len() - 2)) == id as nat,
        forall|id: u64| s@ == spec_payload(id) ==> r == Some(id),
{
    proof {
        reveal_strlit("{\"nodeId\":\"");
        reveal_strlit("\"}");
    }
    let prefix = "{\"nodeId\":\"";
    let suffix = "\"}";
    let n = s.unicode_len();
    if n < 14 {
        proof {
            assert forall|id: u64| s@ != spec_payload(id) by {
                lemma_dec_round_trip(id as nat);
            }
        }
        return None;
    }
    let head = s.substring_char(0, 11);
    if !crate::props::str_eq(head, prefix) {
        proof {
            assert forall|id: u64| s@ != spec_payload(id) by {
                if s@ == spec_payload(id) {
                    assert(head@ =~= prefix@);
                }
            }
        }
        return None;
    }
    let tail = s.substring_char(n - 2, n);
    if !crate::props::str_eq(tail, suffix) {
        proof {
            assert forall|id: u64| s@ != spec_payload(id) by {
                if s@ == spec_payload(id) {
                    lemma_dec_round_trip(id as nat);
                    assert(tail@ =~= suffix@);
                }
            }
        }
        return None;
    }
    let middle = s.substring_char(11, n - 2);
    proof {
        assert(middle@ == s@.subrange(11, n as int - 2));
    }
    let parsed = dec_to_u64(middle);
    proof {
        match parsed {
            Some(v) => {
                assert forall|id: u64| s@ == spec_payload(id) implies parsed == Some(id) by {
                    lemma_dec_round_trip(id as nat);
                    assert(middle@ =~= dec_digits(id as nat));
                }
            },
            None => {
                assert forall|id: u64| s@ != spec_payload(id) by {
                    if s@ == spec_payload(id) {
                        lemma_dec_round_trip(id as nat);
                        assert(middle@ =~= dec_digits(id as nat));
                    }
                }
            },
        }
    }
    match parsed {
        Some(v) => Some(v),
        None => None,
    }
}

} // verus!
