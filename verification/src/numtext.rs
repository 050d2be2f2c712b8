use vstd::prelude::*;

verus! {

use crate::text::ascii_to_string;

/// The decimal digits of a number, most significant first.
pub open spec fn spec_dec_digits(n: nat) -> Seq<char>
    decreases n,
{
    if n < 10 {
        seq![(48 + n) as char]
    } else {
        spec_dec_digits(n / 10) + seq![(48 + n % 10) as char]
    }
}

/// Whether text is one or more decimal digits.
pub open spec fn spec_is_digits(s: Seq<char>) -> bool {
    s.len() > 0 && forall|i: int| 0 <= i < s.len() ==> '0' <= #[trigger] s[i] <= '9'
}

/// The number decimal digit text stands for.
pub open spec fn spec_dec_val(s: Seq<char>) -> nat
    recommends
        spec_is_digits(s),
    decreases s.len(),
{
    if s.len() == 0 {
        0
    } else {
        spec_dec_val(s.take(s.len() - 1)) * 10 + (s.last() as u8 - 48) as u8 as nat
    }
}

/// Every character of [`spec_dec_digits`] is a decimal digit.
proof fn lemma_dec_digits_are_digits(n: nat)
    ensures
        spec_is_digits(spec_dec_digits(n)),
    decreases n,
{
    if n >= 10 {
        lemma_dec_digits_are_digits(n / 10);
    }
}

/// Round trip: the digit text of a number stands for that number.
pub proof fn lemma_dec_round_trip(n: nat)
    ensures
        spec_is_digits(spec_dec_digits(n)),
        spec_dec_val(spec_dec_digits(n)) == n,
    decreases n,
{
    lemma_dec_digits_are_digits(n);
    if n < 10 {
        let s = spec_dec_digits(n);
        assert(s.take(s.len() - 1) =~= Seq::<char>::empty());
        assert(((48 + n) as char) as u8 == 48 + n);
        assert(spec_dec_val(Seq::<char>::empty()) == 0);
        assert(s.last() == (48 + n) as char);
        assert(spec_dec_val(s) == spec_dec_val(s.take(s.len() - 1)) * 10 + ((s.last() as u8
            - 48) as u8));
    } else {
        lemma_dec_round_trip(n / 10);
        let s = spec_dec_digits(n);
        assert(s.take(s.len() - 1) =~= spec_dec_digits(n / 10));
        assert(s.last() == (48 + n % 10) as char);
        assert(((48 + n % 10) as char) as u8 == 48 + n % 10);
        assert(spec_dec_val(s) == (n / 10) * 10 + n % 10);
    }
}

/// ASCII codes of a character sequence.
pub open spec fn spec_ascii_codes(s: Seq<char>) -> Seq<u8> {
    s.map_values(|c: char| c as u8)
}

/// Append the decimal digits of a number to a byte vector.
fn push_dec_bytes(n: u64, out: &mut Vec<u8>)
    ensures
        final(out)@ == old(out)@ + spec_ascii_codes(spec_dec_digits(n as nat)),
    decreases n,
{
    if n < 10 {
        out.push(48 + (n as u8));
        proof {
            assert(out@ =~= old(out)@ + spec_ascii_codes(spec_dec_digits(n as nat)));
        }
    } else {
        push_dec_bytes(n / 10, out);
        out.push(48 + ((n % 10) as u8));
        proof {
            assert(out@ =~= old(out)@ + spec_ascii_codes(spec_dec_digits(n as nat)));
        }
    }
}

/// Decimal text of a number.
pub fn u64_to_string(n: u64) -> (r: String)
    ensures
        r@ == spec_dec_digits(n as nat),
        spec_is_digits(r@),
        spec_dec_val(r@) == n as nat,
{
    let mut bytes: Vec<u8> = Vec::new();
    push_dec_bytes(n, &mut bytes);
    let ghost chars = spec_dec_digits(n as nat);
    proof {
        lemma_dec_round_trip(n as nat);
        assert(bytes@ =~= spec_ascii_codes(chars));
        assert forall|i: int| 0 <= i < chars.len() implies '\0' <= #[trigger] chars[i]
            <= '\u{7f}' by {
            assert('0' <= chars[i] <= '9');
        }
    }
    ascii_to_string(bytes, Ghost(chars))
}

/// One step of [`spec_dec_val`] from the front of a prefix.
proof fn lemma_dec_val_snoc(s: Seq<char>, i: int)
    requires
        0 <= i < s.len(),
    ensures
        spec_dec_val(s.take(i + 1)) == spec_dec_val(s.take(i)) * 10 + (s[i] as u8 - 48) as u8,
{
    assert(s.take(i + 1).take(i) =~= s.take(i));
    assert(s.take(i + 1).last() == s[i]);
}

/// Appending digits never shrinks the value a digit prefix stands for.
proof fn lemma_dec_val_prefix_le(s: Seq<char>, i: int)
    requires
        0 <= i <= s.len(),
        forall|j: int| 0 <= j < s.len() ==> '0' <= #[trigger] s[j] <= '9',
    ensures
        spec_dec_val(s.take(i)) <= spec_dec_val(s),
    decreases s.len() - i,
{
    if i == s.len() {
        assert(s.take(i) =~= s);
    } else {
        lemma_dec_val_snoc(s, i);
        lemma_dec_val_prefix_le(s, i + 1);
    }
}

/// Parse decimal digit text as a number. Fails on empty text, on any
/// character that is no decimal digit, and on values above `u64::MAX`.
pub fn parse_u64(s: &String) -> (r: Option<u64>)
    ensures
        match r {
            Some(v) => spec_is_digits(s@) && v as nat == spec_dec_val(s@),
            None => !spec_is_digits(s@) || spec_dec_val(s@) > u64::MAX,
        },
{
    let st = s.as_str();
    let n = st.unicode_len();
    if n == 0 {
        return None;
    }
    let mut acc: u64 = 0;
    let mut i: usize = 0;
    proof {
        assert(s@.take(0) =~= Seq::<char>::empty());
    }
    while i < n
        invariant
            0 <= i <= n,
            n == s@.len(),
            st@ == s@,
            acc as nat == spec_dec_val(s@.take(i as int)),
            forall|j: int| 0 <= j < i ==> '0' <= #[trigger] s@[j] <= '9',
        decreases n - i,
    {
        let c = st.get_char(i);
        if c < '0' || c > '9' {
            return None;
        }
        let d = (c as u8) - 48;
        proof {
            lemma_dec_val_snoc(s@, i as int);
        }
        if acc > (u64::MAX - (d as u64)) / 10 {
            proof {
                let t = s@.take(i as int + 1);
                assert(spec_dec_val(t) == acc * 10 + d);
                assert(spec_dec_val(t) > u64::MAX);
                if spec_is_digits(s@) {
                    lemma_dec_val_prefix_le(s@, i as int + 1);
                }
            }
            return None;
        }
        acc = acc * 10 + (d as u64);
        i += 1;
    }
    proof {
        assert(s@.take(n as int) =~= s@);
    }
    Some(acc)
}

} // verus!
