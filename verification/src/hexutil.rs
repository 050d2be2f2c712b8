use vstd::prelude::*;

verus! {

use crate::text::ascii_to_string;

/// The lowercase hex digit for a nibble.
pub open spec fn spec_hex_digit(n: u8) -> char
    recommends
        n < 16,
{
    if n < 10 {
        (48 + n) as char
    } else {
        (87 + n) as char
    }
}

/// The uppercase hex digit for a nibble.
pub open spec fn spec_hex_digit_upper(n: u8) -> char
    recommends
        n < 16,
{
    if n < 10 {
        (48 + n) as char
    } else {
        (55 + n) as char
    }
}

/// Lowercase hex text of a byte sequence: two digits for each byte.
pub open spec fn spec_hex_lower(b: Seq<u8>) -> Seq<char>
    decreases b.len(),
{
    if b.len() == 0 {
        Seq::empty()
    } else {
        seq![spec_hex_digit(b[0] / 16), spec_hex_digit(b[0] % 16)] + spec_hex_lower(
            b.drop_first(),
        )
    }
}

/// Uppercase hex text of a byte sequence.
pub open spec fn spec_hex_upper(b: Seq<u8>) -> Seq<char>
    decreases b.len(),
{
    if b.len() == 0 {
        Seq::empty()
    } else {
        seq![spec_hex_digit_upper(b[0] / 16), spec_hex_digit_upper(b[0] % 16)] + spec_hex_upper(
            b.drop_first(),
        )
    }
}

/// The nibble a hex digit stands for; accepts both cases.
pub open spec fn spec_hex_val(c: char) -> Option<u8> {
    if '0' <= c && c <= '9' {
        Some((c as u8 - 48) as u8)
    } else if 'a' <= c && c <= 'f' {
        Some((c as u8 - 87) as u8)
    } else if 'A' <= c && c <= 'F' {
        Some((c as u8 - 55) as u8)
    } else {
        None
    }
}

/// The bytes hex text stands for, or nothing when the text has odd length
/// or holds a character that is no hex digit.
pub open spec fn spec_hex_decode(s: Seq<char>) -> Option<Seq<u8>>
    decreases s.len(),
{
    if s.len() == 0 {
        Some(Seq::empty())
    } else if s.len() == 1 {
        None
    } else {
        match (spec_hex_val(s[0]), spec_hex_val(s[1])) {
            (Some(h), Some(l)) => match spec_hex_decode(s.skip(2)) {
                Some(rest) => Some(seq![(16 * h + l) as u8] + rest),
                None => None,
            },
            _ => None,
        }
    }
}

/// Elementwise description of [`spec_hex_lower`].
proof fn lemma_hex_lower_elts(b: Seq<u8>)
    ensures
        spec_hex_lower(b).len() == 2 * b.len(),
        forall|i: int|
            0 <= i < b.len() ==> spec_hex_lower(b)[2 * i] == spec_hex_digit(#[trigger] b[i] / 16)
                && spec_hex_lower(b)[2 * i + 1] == spec_hex_digit(b[i] % 16),
    decreases b.len(),
{
    if b.len() > 0 {
        lemma_hex_lower_elts(b.drop_first());
        assert forall|i: int| 0 <= i < b.len() implies spec_hex_lower(b)[2 * i] == spec_hex_digit(
            #[trigger] b[i] / 16,
        ) && spec_hex_lower(b)[2 * i + 1] == spec_hex_digit(b[i] % 16) by {
            if i > 0 {
                assert(b.drop_first()[i - 1] == b[i]);
            }
        }
    }
}

/// Elementwise description of [`spec_hex_upper`].
proof fn lemma_hex_upper_elts(b: Seq<u8>)
    ensures
        spec_hex_upper(b).len() == 2 * b.len(),
        forall|i: int|
            0 <= i < b.len() ==> spec_hex_upper(b)[2 * i] == spec_hex_digit_upper(
                #[trigger] b[i] / 16,
            ) && spec_hex_upper(b)[2 * i + 1] == spec_hex_digit_upper(b[i] % 16),
    decreases b.len(),
{
    if b.len() > 0 {
        lemma_hex_upper_elts(b.drop_first());
        assert forall|i: int| 0 <= i < b.len() implies spec_hex_upper(b)[2 * i]
            == spec_hex_digit_upper(#[trigger] b[i] / 16) && spec_hex_upper(b)[2 * i + 1]
            == spec_hex_digit_upper(b[i] % 16) by {
            if i > 0 {
                assert(b.drop_first()[i - 1] == b[i]);
            }
        }
    }
}

/// Hex digits are ASCII characters.
proof fn lemma_hex_digit_ascii(n: u8)
    requires
        n < 16,
    ensures
        '\0' <= spec_hex_digit(n) <= '\u{7f}',
        '\0' <= spec_hex_digit_upper(n) <= '\u{7f}',
{
}

/// The exec lowercase digit for a nibble.
fn hex_digit(n: u8) -> (r: u8)
    requires
        n < 16,
    ensures
        spec_hex_digit(n) == r as char,
        r < 128,
{
    if n < 10 {
        48 + n
    } else {
        87 + n
    }
}

/// The exec uppercase digit for a nibble.
fn hex_digit_upper(n: u8) -> (r: u8)
    requires
        n < 16,
    ensures
        spec_hex_digit_upper(n) == r as char,
        r < 128,
{
    if n < 10 {
        48 + n
    } else {
        55 + n
    }
}

/// Encode bytes as lowercase hex text.
pub fn encode_hex(b: &Vec<u8>) -> (r: String)
    ensures
        r@ == spec_hex_lower(b@),
{
    let mut out: Vec<u8> = Vec::new();
    let ghost chars = spec_hex_lower(b@);
    proof {
        lemma_hex_lower_elts(b@);
    }
    let mut i: usize = 0;
    while i < b.len()
        invariant
            i <= b@.len(),
            chars == spec_hex_lower(b@),
            chars.len() == 2 * b@.len(),
            out@.len() == 2 * i,
            forall|j: int|
                0 <= j < b@.len() ==> chars[2 * j] == spec_hex_digit(#[trigger] b@[j] / 16)
                    && chars[2 * j + 1] == spec_hex_digit(b@[j] % 16),
            forall|j: int| 0 <= j < out@.len() ==> out@[j] == #[trigger] chars[j] as u8,
        decreases b@.len() - i,
    {
        let byte = b[i];
        let d1 = hex_digit(byte / 16);
        let d2 = hex_digit(byte % 16);
        out.push(d1);
        out.push(d2);
        proof {
            assert(chars[2 * i as int] == d1 as char);
            assert(chars[2 * i as int + 1] == d2 as char);
            assert((d1 as char) as u8 == d1);
            assert((d2 as char) as u8 == d2);
        }
        i += 1;
    }
    proof {
        assert forall|j: int| 0 <= j < chars.len() implies '\0' <= #[trigger] chars[j]
            <= '\u{7f}' by {
            let k = j / 2;
            assert(0 <= k < b@.len());
            lemma_hex_digit_ascii(b@[k] / 16);
            lemma_hex_digit_ascii(b@[k] % 16);
            assert(j == 2 * k || j == 2 * k + 1);
        }
    }
    ascii_to_string(out, Ghost(chars))
}

/// Encode bytes as uppercase hex text.
pub fn encode_hex_upper(b: &Vec<u8>) -> (r: String)
    ensures
        r@ == spec_hex_upper(b@),
{
    let mut out: Vec<u8> = Vec::new();
    let ghost chars = spec_hex_upper(b@);
    proof {
        lemma_hex_upper_elts(b@);
    }
    let mut i: usize = 0;
    while i < b.len()
        invariant
            i <= b@.len(),
            chars == spec_hex_upper(b@),
            chars.len() == 2 * b@.len(),
            out@.len() == 2 * i,
            forall|j: int|
                0 <= j < b@.len() ==> chars[2 * j] == spec_hex_digit_upper(#[trigger] b@[j] / 16)
                    && chars[2 * j + 1] == spec_hex_digit_upper(b@[j] % 16),
            forall|j: int| 0 <= j < out@.len() ==> out@[j] == #[trigger] chars[j] as u8,
        decreases b@.len() - i,
    {
        let byte = b[i];
        let d1 = hex_digit_upper(byte / 16);
        let d2 = hex_digit_upper(byte % 16);
        out.push(d1);
        out.push(d2);
        proof {
            assert(chars[2 * i as int] == d1 as char);
            assert(chars[2 * i as int + 1] == d2 as char);
            assert((d1 as char) as u8 == d1);
            assert((d2 as char) as u8 == d2);
        }
        i += 1;
    }
    proof {
        assert forall|j: int| 0 <= j < chars.len() implies '\0' <= #[trigger] chars[j]
            <= '\u{7f}' by {
            let k = j / 2;
            assert(0 <= k < b@.len());
            lemma_hex_digit_ascii(b@[k] / 16);
            lemma_hex_digit_ascii(b@[k] % 16);
            assert(j == 2 * k || j == 2 * k + 1);
        }
    }
    ascii_to_string(out, Ghost(chars))
}

/// The exec nibble value of a character, matching [`spec_hex_val`].
fn hex_val(c: char) -> (r: Option<u8>)
    ensures
        r == spec_hex_val(c),
        r matches Some(n) ==> n < 16,
{
    if '0' <= c && c <= '9' {
        Some(c as u8 - 48)
    } else if 'a' <= c && c <= 'f' {
        Some(c as u8 - 87)
    } else if 'A' <= c && c <= 'F' {
        Some(c as u8 - 55)
    } else {
        None
    }
}

/// Decode hex text into the bytes it stands for.
pub fn decode_hex(s: &String) -> (r: Option<Vec<u8>>)
    ensures
        match r {
            Some(v) => spec_hex_decode(s@) == Some(v@),
            None => spec_hex_decode(s@) is None,
        },
{
    let st = s.as_str();
    let n = st.unicode_len();
    if n % 2 != 0 {
        proof {
            lemma_hex_decode_odd(s@);
        }
        return None;
    }
    let mut out: Vec<u8> = Vec::new();
    let mut i: usize = 0;
    proof {
        assert(s@.skip(0) =~= s@);
        if spec_hex_decode(s@) is Some {
            let v = spec_hex_decode(s@)->Some_0;
            assert(v.take(0) =~= Seq::<u8>::empty());
            assert(v.skip(0) =~= v);
        }
    }
    while i < n
        invariant
            i <= n,
            i % 2 == 0,
            n % 2 == 0,
            n == s@.len(),
            st@ == s@,
            out@.len() == i / 2,
            spec_hex_decode(s@) matches Some(v) ==> (i as int / 2 <= v.len() && v.take(
                i as int / 2,
            ) == out@ && spec_hex_decode(s@.skip(i as int)) == Some(v.skip(i as int / 2))),
            spec_hex_decode(s@.skip(i as int)) is Some ==> spec_hex_decode(s@) is Some,
        decreases n - i,
    {
        proof {
            lemma_hex_decode_unfold(s@, i as int);
        }
        let h = st.get_char(i);
        let l = st.get_char(i + 1);
        let hv = hex_val(h);
        let lv = hex_val(l);
        match (hv, lv) {
            (Some(hn), Some(ln)) => {
                proof {
                    if spec_hex_decode(s@) is Some {
                        let v = spec_hex_decode(s@)->Some_0;
                        let rest = spec_hex_decode(s@.skip(i as int + 2))->Some_0;
                        assert(v.skip(i as int / 2) == seq![(16 * hn + ln) as u8] + rest);
                        assert(v.skip(i as int / 2).len() == v.len() - i as int / 2);
                        assert(v.len() > i as int / 2);
                        assert(v[i as int / 2] == v.skip(i as int / 2)[0]);
                        assert(v[i as int / 2] == (16 * hn + ln) as u8);
                        assert(rest =~= v.skip(i as int / 2).skip(1));
                        assert(v.skip(i as int / 2).skip(1) =~= v.skip(i as int / 2 + 1));
                        assert(v.take(i as int / 2 + 1) =~= v.take(i as int / 2) + seq![
                            (16 * hn + ln) as u8,
                        ]);
                    }
                }
                out.push(16 * hn + ln);
            },
            _ => {
                proof {
                    if spec_hex_decode(s@) is Some {
                        assert(spec_hex_decode(s@.skip(i as int)) is Some);
                        assert(false);
                    }
                }
                return None;
            },
        }
        i += 2;
    }
    proof {
        assert(s@.skip(n as int) =~= Seq::<char>::empty());
        assert(spec_hex_decode(s@.skip(n as int)) is Some);
        let v = spec_hex_decode(s@)->Some_0;
        assert(v.skip(n as int / 2).len() == 0);
        assert(v.take(n as int / 2) =~= v);
    }
    Some(out)
}

/// Hex text of odd length decodes to nothing.
proof fn lemma_hex_decode_odd(s: Seq<char>)
    ensures
        s.len() % 2 == 1 ==> spec_hex_decode(s) is None,
    decreases s.len(),
{
    if s.len() >= 2 {
        lemma_hex_decode_odd(s.skip(2));
    }
}

/// One unfolding step of [`spec_hex_decode`] at an even position.
proof fn lemma_hex_decode_unfold(s: Seq<char>, i: int)
    requires
        0 <= i,
        i + 2 <= s.len(),
    ensures
        spec_hex_decode(s.skip(i)) == (match (spec_hex_val(s[i]), spec_hex_val(s[i + 1])) {
            (Some(h), Some(l)) => match spec_hex_decode(s.skip(i + 2)) {
                Some(rest) => Some(seq![(16 * h + l) as u8] + rest),
                None => None,
            },
            _ => None,
        }),
{
    assert(s.skip(i).len() >= 2);
    assert(s.skip(i)[0] == s[i]);
    assert(s.skip(i)[1] == s[i + 1]);
    assert(s.skip(i).skip(2) =~= s.skip(i + 2));
}

/// Round trip: lowercase hex text always decodes back to the bytes.
pub proof fn lemma_hex_round_trip(b: Seq<u8>)
    ensures
        spec_hex_decode(spec_hex_lower(b)) == Some(b),
    decreases b.len(),
{
    if b.len() == 0 {
        assert(spec_hex_lower(b).len() == 0);
    } else {
        lemma_hex_round_trip(b.drop_first());
        let s = spec_hex_lower(b);
        assert(s == seq![spec_hex_digit(b[0] / 16), spec_hex_digit(b[0] % 16)] + spec_hex_lower(
            b.drop_first(),
        ));
        assert(s.skip(2) =~= spec_hex_lower(b.drop_first()));
        assert(spec_hex_val(spec_hex_digit(b[0] / 16)) == Some((b[0] / 16) as u8));
        assert(spec_hex_val(spec_hex_digit(b[0] % 16)) == Some((b[0] % 16) as u8));
        assert(16 * (b[0] / 16) + b[0] % 16 == b[0]);
        assert(seq![b[0]] + b.drop_first() =~= b);
    }
}

} // verus!
