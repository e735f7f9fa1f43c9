//! GUIDs: the text form, the 16-byte form, and what relates them.

use vstd::prelude::*;
use crate::text;
use crate::text::{from_chars, to_chars};

verus! {

/// A globally unique identifier, field by field.
#[derive(Clone, Copy, Debug, Eq)]
pub struct GUID {
    pub data1: u32,
    pub data2: u16,
    pub data3: u16,
    pub data4: [u8; 8],
}

impl GUID {
    /// The GUID whose bytes are all zero.
    pub fn zeroed() -> (g: GUID)
        ensures
            is_zero(g),
    {
        GUID { data1: 0, data2: 0, data3: 0, data4: [0, 0, 0, 0, 0, 0, 0, 0] }
    }
}

/// Whether every byte of a GUID is zero.
pub open spec fn is_zero(g: GUID) -> bool {
    g.data1 == 0 && g.data2 == 0 && g.data3 == 0 && g.data4@ == seq![
        0u8,
        0u8,
        0u8,
        0u8,
        0u8,
        0u8,
        0u8,
        0u8,
    ]
}

/// Two GUIDs with equal fields are equal.
pub proof fn lemma_guid_ext(a: GUID, b: GUID)
    requires
        a.data1 == b.data1,
        a.data2 == b.data2,
        a.data3 == b.data3,
        a.data4@ =~= b.data4@,
    ensures
        a == b,
{
    assert(a.data4 == b.data4);
}

impl PartialEq for GUID {
    fn eq(&self, other: &GUID) -> (r: bool) {
        let mut i: usize = 0;
        while i < 8
            invariant
                i <= 8,
                forall|j: int| 0 <= j < i ==> self.data4@[j] == other.data4@[j],
            decreases 8 - i,
        {
            if self.data4[i] != other.data4[i] {
                return false;
            }
            i += 1;
        }
        assert(self.data4@ =~= other.data4@);
        assert(self.data4 == other.data4);
        self.data1 == other.data1 && self.data2 == other.data2 && self.data3 == other.data3
    }
}

impl vstd::std_specs::cmp::PartialEqSpecImpl for GUID {
    open spec fn obeys_eq_spec() -> bool {
        true
    }

    open spec fn eq_spec(&self, other: &GUID) -> bool {
        *self == *other
    }
}

// ---------------------------------------------------------------------------
// Hexadecimal digits
// ---------------------------------------------------------------------------
/// The upper-case hexadecimal digit of a value below sixteen.
pub open spec fn hex_char(d: nat) -> char {
    if d < 10 {
        (d + 48) as u8 as char
    } else {
        (d + 55) as u8 as char
    }
}

/// The last `width` hexadecimal digits of a number, most significant first.
pub open spec fn hex_digits(n: nat, width: nat) -> Seq<char>
    decreases width,
{
    if width == 0 {
        Seq::empty()
    } else {
        hex_digits(n / 16, (width - 1) as nat).push(hex_char(n % 16))
    }
}

/// Whether a character is a hexadecimal digit, in either case.
pub open spec fn is_hex(c: char) -> bool {
    '0' <= c <= '9' || 'A' <= c <= 'F' || 'a' <= c <= 'f'
}

/// The value of a hexadecimal digit.
pub open spec fn hex_digit_value(c: char) -> nat {
    if '0' <= c <= '9' {
        (c as u32 - 48) as nat
    } else if 'A' <= c <= 'F' {
        (c as u32 - 55) as nat
    } else {
        (c as u32 - 87) as nat
    }
}

/// The number that hexadecimal digits denote.
pub open spec fn hex_value(s: Seq<char>) -> nat
    decreases s.len(),
{
    if s.len() == 0 {
        0
    } else {
        hex_value(s.drop_last()) * 16 + hex_digit_value(s.last())
    }
}

/// Whether every character is a hexadecimal digit.
pub open spec fn all_hex(s: Seq<char>) -> bool {
    forall|i: int| 0 <= i < s.len() ==> is_hex(#[trigger] s[i])
}

/// Sixteen to the power of `w`.
pub open spec fn pow16(w: nat) -> nat
    decreases w,
{
    if w == 0 {
        1
    } else {
        16 * pow16((w - 1) as nat)
    }
}

proof fn lemma_hex_char(d: nat)
    requires
        d < 16,
    ensures
        is_hex(hex_char(d)),
        hex_digit_value(hex_char(d)) == d,
        is_hex(text::lower_char(hex_char(d))),
        hex_digit_value(text::lower_char(hex_char(d))) == d,
{
}

/// Digits written at a sufficient width read back as the number, in either case.
proof fn lemma_hex_round_trip(n: nat, w: nat)
    requires
        n < pow16(w),
    ensures
        hex_digits(n, w).len() == w,
        all_hex(hex_digits(n, w)),
        hex_value(hex_digits(n, w)) == n,
        all_hex(crate::text::ascii_lower(hex_digits(n, w))),
        hex_value(crate::text::ascii_lower(hex_digits(n, w))) == n,
    decreases w,
{
    if w > 0 {
        let p = hex_digits(n / 16, (w - 1) as nat);
        let s = hex_digits(n, w);
        lemma_hex_round_trip(n / 16, (w - 1) as nat);
        lemma_hex_char(n % 16);
        assert(s.drop_last() =~= p);
        let l = crate::text::ascii_lower(s);
        let lp = crate::text::ascii_lower(p);
        assert(l.drop_last() =~= lp);
        assert(l.last() == text::lower_char(hex_char(n % 16)));
        assert forall|i: int| 0 <= i < s.len() implies is_hex(#[trigger] s[i]) by {
            if i < w - 1 {
                assert(s[i] == p[i]);
            }
        }
        assert forall|i: int| 0 <= i < l.len() implies is_hex(#[trigger] l[i]) by {
            if i < w - 1 {
                assert(l[i] == lp[i]);
            }
        }
    }
}

proof fn lemma_hex_value_bound(s: Seq<char>)
    requires
        all_hex(s),
    ensures
        hex_value(s) < pow16(s.len()),
    decreases s.len(),
{
    if s.len() > 0 {
        let p = s.drop_last();
        assert forall|i: int| 0 <= i < p.len() implies is_hex(#[trigger] p[i]) by {
            assert(p[i] == s[i]);
        }
        assert(is_hex(s[s.len() - 1]));
        lemma_hex_value_bound(p);
    }
}

proof fn lemma_pow16()
    ensures
        pow16(2) == 0x100,
        pow16(4) == 0x10000,
        pow16(8) == 0x1_0000_0000,
{
    reveal_with_fuel(pow16, 9);
}

// ---------------------------------------------------------------------------
// Text form
// ---------------------------------------------------------------------------
/// The text form of a GUID: `{XXXXXXXX-XXXX-XXXX-XXXX-XXXXXXXXXXXX}` with
/// upper-case digits.
pub open spec fn guid_text(g: GUID) -> Seq<char> {
    seq!['{'] + hex_digits(g.data1 as nat, 8) + seq!['-'] + hex_digits(g.data2 as nat, 4) + seq![
        '-',
    ] + hex_digits(g.data3 as nat, 4) + seq!['-'] + hex_digits(g.data4[0] as nat, 2) + hex_digits(
        g.data4[1] as nat,
        2,
    ) + seq!['-'] + hex_digits(g.data4[2] as nat, 2) + hex_digits(g.data4[3] as nat, 2)
        + hex_digits(g.data4[4] as nat, 2) + hex_digits(g.data4[5] as nat, 2) + hex_digits(
        g.data4[6] as nat,
        2,
    ) + hex_digits(g.data4[7] as nat, 2) + seq!['}']
}

/// Whether a text has the form of a GUID, with digits in either case.
pub open spec fn is_guid_text(s: Seq<char>) -> bool {
    &&& s.len() == 38
    &&& s[0] == '{'
    &&& s[9] == '-'
    &&& s[14] == '-'
    &&& s[19] == '-'
    &&& s[24] == '-'
    &&& s[37] == '}'
    &&& all_hex(s.subrange(1, 9))
    &&& all_hex(s.subrange(10, 14))
    &&& all_hex(s.subrange(15, 19))
    &&& all_hex(s.subrange(20, 24))
    &&& all_hex(s.subrange(25, 37))
}

/// The value of the two digits at `i`.
pub open spec fn hex_pair(s: Seq<char>, i: int) -> nat {
    hex_value(s.subrange(i, i + 2))
}

/// Whether `g` is the GUID that the text `s` denotes.
pub open spec fn denotes(s: Seq<char>, g: GUID) -> bool {
    &&& is_guid_text(s)
    &&& g.data1 == hex_value(s.subrange(1, 9))
    &&& g.data2 == hex_value(s.subrange(10, 14))
    &&& g.data3 == hex_value(s.subrange(15, 19))
    &&& g.data4[0] == hex_pair(s, 20)
    &&& g.data4[1] == hex_pair(s, 22)
    &&& g.data4[2] == hex_pair(s, 25)
    &&& g.data4[3] == hex_pair(s, 27)
    &&& g.data4[4] == hex_pair(s, 29)
    &&& g.data4[5] == hex_pair(s, 31)
    &&& g.data4[6] == hex_pair(s, 33)
    &&& g.data4[7] == hex_pair(s, 35)
}

/// The GUID that a text denotes, if it has the form of one.
pub open spec fn parse_guid(s: Seq<char>) -> Option<GUID> {
    if is_guid_text(s) {
        Some(choose|g: GUID| denotes(s, g))
    } else {
        None
    }
}

/// A text denotes at most one GUID.
pub proof fn lemma_denotes_unique(s: Seq<char>, a: GUID, b: GUID)
    requires
        denotes(s, a),
        denotes(s, b),
    ensures
        a == b,
{
    assert(a.data4@ =~= b.data4@);
    lemma_guid_ext(a, b);
}

/// What denotes a GUID parses as it.
pub proof fn lemma_parse_denotes(s: Seq<char>, g: GUID)
    requires
        denotes(s, g),
    ensures
        parse_guid(s) == Some(g),
{
    let c = choose|x: GUID| denotes(s, x);
    assert(denotes(s, c));
    lemma_denotes_unique(s, c, g);
}

fn push_hex(out: &mut Vec<char>, n: u32, width: u32)
    ensures
        final(out)@ == old(out)@ + hex_digits(n as nat, width as nat),
    decreases width,
{
    if width > 0 {
        push_hex(out, n / 16, width - 1);
        let d: u8 = (n % 16) as u8;
        let c = if d < 10 {
            (d + 48) as char
        } else {
            (d + 55) as char
        };
        out.push(c);
    }
    assert(out@ =~= old(out)@ + hex_digits(n as nat, width as nat));
}

/// The last `width` hexadecimal digits of a number.
pub fn hex_text(n: u32, width: u32) -> (r: String)
    ensures
        r@ == hex_digits(n as nat, width as nat),
{
    let mut v: Vec<char> = Vec::new();
    push_hex(&mut v, n, width);
    assert(v@ =~= hex_digits(n as nat, width as nat));
    from_chars(v.as_slice())
}

/// The text form of a GUID.
pub fn guid_to_string(g: &GUID) -> (r: String)
    ensures
        r@ == guid_text(*g),
{
    let mut v: Vec<char> = Vec::new();
    v.push('{');
    push_hex(&mut v, g.data1, 8);
    v.push('-');
    push_hex(&mut v, g.data2 as u32, 4);
    v.push('-');
    push_hex(&mut v, g.data3 as u32, 4);
    v.push('-');
    push_hex(&mut v, g.data4[0] as u32, 2);
    push_hex(&mut v, g.data4[1] as u32, 2);
    v.push('-');
    push_hex(&mut v, g.data4[2] as u32, 2);
    push_hex(&mut v, g.data4[3] as u32, 2);
    push_hex(&mut v, g.data4[4] as u32, 2);
    push_hex(&mut v, g.data4[5] as u32, 2);
    push_hex(&mut v, g.data4[6] as u32, 2);
    push_hex(&mut v, g.data4[7] as u32, 2);
    v.push('}');
    assert(v@ =~= guid_text(*g));
    from_chars(v.as_slice())
}

/// The value of the digits between two positions, if all are digits.
fn parse_hex(v: &[char], from: usize, to: usize) -> (r: Option<u32>)
    requires
        from <= to <= v.len(),
        to - from <= 8,
    ensures
        r is Some == all_hex(v@.subrange(from as int, to as int)),
        r matches Some(n) ==> n == hex_value(v@.subrange(from as int, to as int)),
    decreases to - from,
{
    let ghost s = v@.subrange(from as int, to as int);
    if from == to {
        return Some(0);
    }
    let ghost p = v@.subrange(from as int, to - 1);
    assert(s.drop_last() =~= p);
    assert(s.last() == v@[to - 1]);
    let c = v[to - 1];
    let d: u32 = if '0' <= c && c <= '9' {
        (c as u32) - 48
    } else if 'A' <= c && c <= 'F' {
        (c as u32) - 55
    } else if 'a' <= c && c <= 'f' {
        (c as u32) - 87
    } else {
        assert(!is_hex(s[s.len() - 1]));
        return None;
    };
    match parse_hex(v, from, to - 1) {
        Some(n) => {
            proof {
                assert forall|i: int| 0 <= i < s.len() implies is_hex(#[trigger] s[i]) by {
                    if i < s.len() - 1 {
                        assert(s[i] == p[i]);
                    }
                }
                lemma_hex_value_bound(p);
                lemma_pow16();
                reveal_with_fuel(pow16, 9);
            }
            Some(n * 16 + d)
        },
        None => {
            proof {
                if all_hex(s) {
                    assert forall|i: int| 0 <= i < p.len() implies is_hex(#[trigger] p[i]) by {
                        assert(p[i] == s[i]);
                    }
                }
            }
            None
        },
    }
}

/// The value of the two digits at a position, if both are digits.
fn parse_pair(v: &[char], at: usize) -> (r: Option<u8>)
    requires
        at + 2 <= v.len(),
    ensures
        r is Some == all_hex(v@.subrange(at as int, at + 2)),
        r matches Some(n) ==> n == hex_pair(v@, at as int),
{
    match parse_hex(v, at, at + 2) {
        Some(n) => {
            proof {
                lemma_hex_value_bound(v@.subrange(at as int, at + 2));
                lemma_pow16();
            }
            Some(n as u8)
        },
        None => None,
    }
}

/// A part of digits split in two is all digits exactly when both parts are.
proof fn lemma_all_hex_split(s: Seq<char>, a: int, m: int, b: int)
    requires
        0 <= a <= m <= b <= s.len(),
    ensures
        all_hex(s.subrange(a, b)) == (all_hex(s.subrange(a, m)) && all_hex(s.subrange(m, b))),
{
    let w = s.subrange(a, b);
    let l = s.subrange(a, m);
    let r = s.subrange(m, b);
    if all_hex(w) {
        assert forall|i: int| 0 <= i < l.len() implies is_hex(#[trigger] l[i]) by {
            assert(l[i] == w[i]);
        }
        assert forall|i: int| 0 <= i < r.len() implies is_hex(#[trigger] r[i]) by {
            assert(r[i] == w[i + (m - a)]);
        }
    }
    if all_hex(l) && all_hex(r) {
        assert forall|i: int| 0 <= i < w.len() implies is_hex(#[trigger] w[i]) by {
            if i < m - a {
                assert(w[i] == l[i]);
            } else {
                assert(w[i] == r[i - (m - a)]);
            }
        }
    }
}

/// The digits of the node part are those of its six pairs.
proof fn lemma_node_hex(s: Seq<char>)
    requires
        s.len() == 38,
    ensures
        all_hex(s.subrange(20, 24)) == (all_hex(s.subrange(20, 22)) && all_hex(
            s.subrange(22, 24),
        )),
        all_hex(s.subrange(25, 37)) == (all_hex(s.subrange(25, 27)) && all_hex(s.subrange(27, 29))
            && all_hex(s.subrange(29, 31)) && all_hex(s.subrange(31, 33)) && all_hex(
            s.subrange(33, 35),
        ) && all_hex(s.subrange(35, 37))),
{
    lemma_all_hex_split(s, 20, 22, 24);
    lemma_all_hex_split(s, 25, 27, 37);
    lemma_all_hex_split(s, 27, 29, 37);
    lemma_all_hex_split(s, 29, 31, 37);
    lemma_all_hex_split(s, 31, 33, 37);
    lemma_all_hex_split(s, 33, 35, 37);
}

/// The GUID that a text denotes: braces, five groups of hexadecimal digits in
/// either case, and nothing else.
pub fn parse_guid_string(s: &str) -> (r: Option<GUID>)
    ensures
        r == parse_guid(s@),
        r is Some == is_guid_text(s@),
        r matches Some(g) ==> denotes(s@, g),
{
    let chars = to_chars(s);
    let v = chars.as_slice();
    if v.len() != 38 {
        return None;
    }
    proof {
        lemma_node_hex(s@);
    }
    if v[0] != '{' || v[9] != '-' || v[14] != '-' || v[19] != '-' || v[24] != '-' || v[37] != '}' {
        return None;
    }
    let d1 = parse_hex(v, 1, 9);
    let d2 = parse_hex(v, 10, 14);
    let d3 = parse_hex(v, 15, 19);
    if d1.is_none() || d2.is_none() || d3.is_none() {
        return None;
    }
    let b0 = parse_pair(v, 20);
    let b1 = parse_pair(v, 22);
    let b2 = parse_pair(v, 25);
    let b3 = parse_pair(v, 27);
    let b4 = parse_pair(v, 29);
    let b5 = parse_pair(v, 31);
    let b6 = parse_pair(v, 33);
    let b7 = parse_pair(v, 35);
    if b0.is_none() || b1.is_none() || b2.is_none() || b3.is_none() || b4.is_none() || b5.is_none()
        || b6.is_none() || b7.is_none() {
        return None;
    }
    proof {
        lemma_hex_value_bound(s@.subrange(10, 14));
        lemma_hex_value_bound(s@.subrange(15, 19));
        lemma_pow16();
    }
    let g = GUID {
        data1: d1.unwrap(),
        data2: d2.unwrap() as u16,
        data3: d3.unwrap() as u16,
        data4: [
            b0.unwrap(),
            b1.unwrap(),
            b2.unwrap(),
            b3.unwrap(),
            b4.unwrap(),
            b5.unwrap(),
            b6.unwrap(),
            b7.unwrap(),
        ],
    };
    proof {
        lemma_parse_denotes(s@, g);
    }
    Some(g)
}

/// The part of a GUID's text at a position that a group of digits fills.
proof fn lemma_guid_text_parts(g: GUID)
    ensures
        ({
            let t = guid_text(g);
            &&& t.len() == 38
            &&& t[0] == '{'
            &&& t[9] == '-'
            &&& t[14] == '-'
            &&& t[19] == '-'
            &&& t[24] == '-'
            &&& t[37] == '}'
            &&& t.subrange(1, 9) == hex_digits(g.data1 as nat, 8)
            &&& t.subrange(10, 14) == hex_digits(g.data2 as nat, 4)
            &&& t.subrange(15, 19) == hex_digits(g.data3 as nat, 4)
            &&& t.subrange(20, 22) == hex_digits(g.data4[0] as nat, 2)
            &&& t.subrange(22, 24) == hex_digits(g.data4[1] as nat, 2)
            &&& t.subrange(25, 27) == hex_digits(g.data4[2] as nat, 2)
            &&& t.subrange(27, 29) == hex_digits(g.data4[3] as nat, 2)
            &&& t.subrange(29, 31) == hex_digits(g.data4[4] as nat, 2)
            &&& t.subrange(31, 33) == hex_digits(g.data4[5] as nat, 2)
            &&& t.subrange(33, 35) == hex_digits(g.data4[6] as nat, 2)
            &&& t.subrange(35, 37) == hex_digits(g.data4[7] as nat, 2)
        }),
{
    let t = guid_text(g);
    lemma_pow16();
    lemma_hex_round_trip(g.data1 as nat, 8);
    lemma_hex_round_trip(g.data2 as nat, 4);
    lemma_hex_round_trip(g.data3 as nat, 4);
    lemma_hex_round_trip(g.data4[0] as nat, 2);
    lemma_hex_round_trip(g.data4[1] as nat, 2);
    lemma_hex_round_trip(g.data4[2] as nat, 2);
    lemma_hex_round_trip(g.data4[3] as nat, 2);
    lemma_hex_round_trip(g.data4[4] as nat, 2);
    lemma_hex_round_trip(g.data4[5] as nat, 2);
    lemma_hex_round_trip(g.data4[6] as nat, 2);
    lemma_hex_round_trip(g.data4[7] as nat, 2);
    assert(t.subrange(1, 9) =~= hex_digits(g.data1 as nat, 8));
    assert(t.subrange(10, 14) =~= hex_digits(g.data2 as nat, 4));
    assert(t.subrange(15, 19) =~= hex_digits(g.data3 as nat, 4));
    assert(t.subrange(20, 22) =~= hex_digits(g.data4[0] as nat, 2));
    assert(t.subrange(22, 24) =~= hex_digits(g.data4[1] as nat, 2));
    assert(t.subrange(25, 27) =~= hex_digits(g.data4[2] as nat, 2));
    assert(t.subrange(27, 29) =~= hex_digits(g.data4[3] as nat, 2));
    assert(t.subrange(29, 31) =~= hex_digits(g.data4[4] as nat, 2));
    assert(t.subrange(31, 33) =~= hex_digits(g.data4[5] as nat, 2));
    assert(t.subrange(33, 35) =~= hex_digits(g.data4[6] as nat, 2));
    assert(t.subrange(35, 37) =~= hex_digits(g.data4[7] as nat, 2));
}

/// A GUID written as text parses back as the same GUID, also when the text is
/// put in lower case.
pub proof fn law_guid_text_round_trip(g: GUID)
    ensures
        guid_text(g).len() == 38,
        parse_guid(guid_text(g)) == Some(g),
        denotes(crate::text::ascii_lower(guid_text(g)), g),
        parse_guid(crate::text::ascii_lower(guid_text(g))) == Some(g),
{
    let t = guid_text(g);
    let l = crate::text::ascii_lower(t);
    lemma_guid_text_parts(g);
    lemma_pow16();
    lemma_hex_round_trip(g.data1 as nat, 8);
    lemma_hex_round_trip(g.data2 as nat, 4);
    lemma_hex_round_trip(g.data3 as nat, 4);
    lemma_hex_round_trip(g.data4[0] as nat, 2);
    lemma_hex_round_trip(g.data4[1] as nat, 2);
    lemma_hex_round_trip(g.data4[2] as nat, 2);
    lemma_hex_round_trip(g.data4[3] as nat, 2);
    lemma_hex_round_trip(g.data4[4] as nat, 2);
    lemma_hex_round_trip(g.data4[5] as nat, 2);
    lemma_hex_round_trip(g.data4[6] as nat, 2);
    lemma_hex_round_trip(g.data4[7] as nat, 2);
    lemma_node_hex(t);
    assert(denotes(t, g));
    lemma_parse_denotes(t, g);
    assert forall|a: int, b: int| 0 <= a <= b <= 38 implies #[trigger] l.subrange(a, b)
        == crate::text::ascii_lower(t.subrange(a, b)) by {
        assert(l.subrange(a, b) =~= crate::text::ascii_lower(t.subrange(a, b)));
    }
    lemma_node_hex(l);
    assert(denotes(l, g));
    lemma_parse_denotes(l, g);
}

/// Distinct GUIDs have distinct text forms.
pub proof fn law_guid_text_injective(a: GUID, b: GUID)
    ensures
        guid_text(a) == guid_text(b) ==> a == b,
{
    law_guid_text_round_trip(a);
    law_guid_text_round_trip(b);
}

proof fn lemma_hex_any_case(s: Seq<char>)
    requires
        all_hex(text::ascii_lower(s)),
    ensures
        all_hex(s),
        hex_value(s) == hex_value(text::ascii_lower(s)),
    decreases s.len(),
{
    let l = text::ascii_lower(s);
    assert forall|i: int| 0 <= i < s.len() implies is_hex(#[trigger] s[i]) by {
        assert(is_hex(l[i]));
        assert(l[i] == text::lower_char(s[i]));
    }
    if s.len() > 0 {
        assert(l.drop_last() =~= text::ascii_lower(s.drop_last()));
        assert forall|i: int| 0 <= i < l.len() - 1 implies is_hex(#[trigger] l.drop_last()[i]) by {
            assert(l.drop_last()[i] == l[i]);
        }
        lemma_hex_any_case(s.drop_last());
        assert(l.last() == text::lower_char(s.last()));
        assert(is_hex(s[s.len() - 1]));
    }
}

/// The text of a GUID parses as it in whatever case.
pub proof fn law_guid_text_in_any_case(s: Seq<char>, g: GUID)
    requires
        text::eq_ci(s, guid_text(g)),
    ensures
        s.len() == 38,
        s[0] == '{',
        s[37] == '}',
        parse_guid(s) == Some(g),
{
    law_guid_text_round_trip(g);
    let l = text::ascii_lower(s);
    assert forall|i: int| 0 <= i < 38 implies #[trigger] l[i] == text::lower_char(s[i]) by {}
    assert(l[0] == '{' && l[9] == '-' && l[14] == '-' && l[19] == '-' && l[24] == '-' && l[37]
        == '}');
    assert forall|a: int, b: int| 0 <= a <= b <= 38 implies #[trigger] l.subrange(a, b)
        == text::ascii_lower(s.subrange(a, b)) by {
        assert(l.subrange(a, b) =~= text::ascii_lower(s.subrange(a, b)));
    }
    lemma_hex_any_case(s.subrange(1, 9));
    lemma_hex_any_case(s.subrange(10, 14));
    lemma_hex_any_case(s.subrange(15, 19));
    lemma_hex_any_case(s.subrange(20, 24));
    lemma_hex_any_case(s.subrange(25, 37));
    lemma_pair_any_case(s, 20, 24, 20);
    lemma_pair_any_case(s, 20, 24, 22);
    lemma_pair_any_case(s, 25, 37, 25);
    lemma_pair_any_case(s, 25, 37, 27);
    lemma_pair_any_case(s, 25, 37, 29);
    lemma_pair_any_case(s, 25, 37, 31);
    lemma_pair_any_case(s, 25, 37, 33);
    lemma_pair_any_case(s, 25, 37, 35);
    assert(denotes(s, g));
    lemma_parse_denotes(s, g);
}

proof fn lemma_pair_any_case(s: Seq<char>, a: int, b: int, i: int)
    requires
        0 <= a <= i,
        i + 2 <= b <= s.len(),
        all_hex(text::ascii_lower(s).subrange(a, b)),
    ensures
        hex_pair(s, i) == hex_pair(text::ascii_lower(s), i),
{
    let l = text::ascii_lower(s);
    assert(l.subrange(i, i + 2) =~= text::ascii_lower(s.subrange(i, i + 2)));
    assert forall|k: int| 0 <= k < 2 implies is_hex(
        #[trigger] text::ascii_lower(s.subrange(i, i + 2))[k],
    ) by {
        assert(l.subrange(a, b)[i - a + k] == l[i + k]);
    }
    lemma_hex_any_case(s.subrange(i, i + 2));
}

/// Between the braces of a GUID's text stand digits and hyphens only.
pub proof fn lemma_guid_text_inner(c: Seq<char>)
    requires
        is_guid_text(c),
    ensures
        forall|i: int| 1 <= i < 37 ==> is_hex(#[trigger] c[i]) || c[i] == '-',
{
    assert forall|i: int| 1 <= i < 37 implies is_hex(#[trigger] c[i]) || c[i] == '-' by {
        if i < 9 {
            assert(c.subrange(1, 9)[i - 1] == c[i]);
        } else if 10 <= i < 14 {
            assert(c.subrange(10, 14)[i - 10] == c[i]);
        } else if 15 <= i < 19 {
            assert(c.subrange(15, 19)[i - 15] == c[i]);
        } else if 20 <= i < 24 {
            assert(c.subrange(20, 24)[i - 20] == c[i]);
        } else if 25 <= i {
            assert(c.subrange(25, 37)[i - 25] == c[i]);
        }
    }
}

/// The lower-case form of a GUID's text is a GUID's text.
pub proof fn lemma_lower_guid_text(c: Seq<char>)
    requires
        is_guid_text(c),
    ensures
        is_guid_text(text::ascii_lower(c)),
{
    let g = text::ascii_lower(c);
    lemma_guid_text_inner(c);
    assert forall|i: int| 0 <= i < 38 implies #[trigger] g[i] == text::lower_char(c[i]) by {}
    assert forall|a: int, b: int, i: int|
        1 <= a <= b <= 37 && 0 <= i < b - a && is_hex(c[a + i]) implies is_hex(
        #[trigger] g.subrange(a, b)[i],
    ) by {
        assert(g.subrange(a, b)[i] == g[a + i]);
    }
    assert forall|i: int| 0 <= i < 8 implies is_hex(#[trigger] c.subrange(1, 9)[i]) by {}
    assert(all_hex(g.subrange(1, 9))) by {
        assert forall|i: int| 0 <= i < 8 implies is_hex(#[trigger] g.subrange(1, 9)[i]) by {
            assert(c.subrange(1, 9)[i] == c[1 + i]);
        }
    }
    assert(all_hex(g.subrange(10, 14))) by {
        assert forall|i: int| 0 <= i < 4 implies is_hex(#[trigger] g.subrange(10, 14)[i]) by {
            assert(c.subrange(10, 14)[i] == c[10 + i]);
        }
    }
    assert(all_hex(g.subrange(15, 19))) by {
        assert forall|i: int| 0 <= i < 4 implies is_hex(#[trigger] g.subrange(15, 19)[i]) by {
            assert(c.subrange(15, 19)[i] == c[15 + i]);
        }
    }
    assert(all_hex(g.subrange(20, 24))) by {
        assert forall|i: int| 0 <= i < 4 implies is_hex(#[trigger] g.subrange(20, 24)[i]) by {
            assert(c.subrange(20, 24)[i] == c[20 + i]);
        }
    }
    assert(all_hex(g.subrange(25, 37))) by {
        assert forall|i: int| 0 <= i < 12 implies is_hex(#[trigger] g.subrange(25, 37)[i]) by {
            assert(c.subrange(25, 37)[i] == c[25 + i]);
        }
    }
}

// ---------------------------------------------------------------------------
// Byte form
// ---------------------------------------------------------------------------
/// The 16 bytes of a GUID: the first three fields little-endian, then the rest.
pub open spec fn guid_bytes(g: GUID) -> Seq<u8> {
    seq![
        (g.data1 % 0x100) as u8,
        (g.data1 / 0x100 % 0x100) as u8,
        (g.data1 / 0x1_0000 % 0x100) as u8,
        (g.data1 / 0x100_0000) as u8,
        (g.data2 % 0x100) as u8,
        (g.data2 / 0x100) as u8,
        (g.data3 % 0x100) as u8,
        (g.data3 / 0x100) as u8,
        g.data4[0],
        g.data4[1],
        g.data4[2],
        g.data4[3],
        g.data4[4],
        g.data4[5],
        g.data4[6],
        g.data4[7],
    ]
}

/// Whether the first 16 bytes of `b` are those of `g`.
pub open spec fn bytes_hold(b: Seq<u8>, g: GUID) -> bool {
    &&& b.len() >= 16
    &&& g.data1 == b[0] + b[1] * 0x100 + b[2] * 0x1_0000 + b[3] * 0x100_0000
    &&& g.data2 == b[4] + b[5] * 0x100
    &&& g.data3 == b[6] + b[7] * 0x100
    &&& g.data4@ == b.subrange(8, 16)
}

/// The GUID held by the first 16 bytes.
pub open spec fn bytes_guid(b: Seq<u8>) -> Option<GUID> {
    if b.len() >= 16 {
        Some(choose|g: GUID| bytes_hold(b, g))
    } else {
        None
    }
}

/// Bytes hold at most one GUID.
proof fn lemma_bytes_hold_unique(b: Seq<u8>, g: GUID)
    requires
        bytes_hold(b, g),
    ensures
        bytes_guid(b) == Some(g),
{
    let c = choose|x: GUID| bytes_hold(b, x);
    assert(bytes_hold(b, c));
    lemma_guid_ext(c, g);
}

/// The GUID held by the first 16 bytes; `None` when there are fewer.
pub fn guid_from_bytes(b: &[u8]) -> (r: Option<GUID>)
    ensures
        r == bytes_guid(b@),
        r is Some == (b@.len() >= 16),
        r matches Some(g) ==> bytes_hold(b@, g),
{
    if b.len() < 16 {
        return None;
    }
    let g = GUID {
        data1: b[0] as u32 + b[1] as u32 * 0x100 + b[2] as u32 * 0x1_0000 + b[3] as u32
            * 0x100_0000,
        data2: b[4] as u16 + b[5] as u16 * 0x100,
        data3: b[6] as u16 + b[7] as u16 * 0x100,
        data4: [b[8], b[9], b[10], b[11], b[12], b[13], b[14], b[15]],
    };
    assert(g.data4@ =~= b@.subrange(8, 16));
    proof {
        lemma_bytes_hold_unique(b@, g);
    }
    Some(g)
}

/// The GUID held by 16 bytes.
pub fn parse_guid_from_bytes(b: &[u8]) -> (r: GUID)
    requires
        b@.len() >= 16,
    ensures
        Some(r) == bytes_guid(b@),
        bytes_hold(b@, r),
{
    match guid_from_bytes(b) {
        Some(g) => g,
        None => GUID::zeroed(),
    }
}

/// The 16 bytes of a GUID.
pub fn guid_to_bytes(g: GUID) -> (r: [u8; 16])
    ensures
        r@ == guid_bytes(g),
{
    let r = [
        (g.data1 % 0x100) as u8,
        (g.data1 / 0x100 % 0x100) as u8,
        (g.data1 / 0x1_0000 % 0x100) as u8,
        (g.data1 / 0x100_0000) as u8,
        (g.data2 % 0x100) as u8,
        (g.data2 / 0x100) as u8,
        (g.data3 % 0x100) as u8,
        (g.data3 / 0x100) as u8,
        g.data4[0],
        g.data4[1],
        g.data4[2],
        g.data4[3],
        g.data4[4],
        g.data4[5],
        g.data4[6],
        g.data4[7],
    ];
    assert(r@ =~= guid_bytes(g));
    r
}

/// A GUID's bytes hold the GUID itself.
pub proof fn law_guid_bytes_round_trip(g: GUID)
    ensures
        guid_bytes(g).len() == 16,
        bytes_guid(guid_bytes(g)) == Some(g),
{
    let b = guid_bytes(g);
    let n = g.data1;
    let m = g.data2;
    let k = g.data3;
    assert(n == (n % 0x100) + (n / 0x100 % 0x100) * 0x100 + (n / 0x1_0000 % 0x100) * 0x1_0000 + (n
        / 0x100_0000) * 0x100_0000) by (bit_vector);
    assert(n / 0x100_0000 < 0x100) by (bit_vector);
    assert(m == (m % 0x100) + (m / 0x100) * 0x100) by (bit_vector);
    assert(m / 0x100 < 0x100) by (bit_vector);
    assert(k == (k % 0x100) + (k / 0x100) * 0x100) by (bit_vector);
    assert(k / 0x100 < 0x100) by (bit_vector);
    assert(g.data4@ =~= b.subrange(8, 16));
    assert(bytes_hold(b, g));
    lemma_bytes_hold_unique(b, g);
}

/// Whether every byte of a GUID is zero.
pub fn is_zero_guid(g: &GUID) -> (r: bool)
    ensures
        r == is_zero(*g),
{
    let mut i: usize = 0;
    while i < 8
        invariant
            i <= 8,
            forall|j: int| 0 <= j < i ==> g.data4@[j] == 0,
        decreases 8 - i,
    {
        if g.data4[i] != 0 {
            return false;
        }
        i += 1;
    }
    assert(g.data4@ =~= seq![0u8, 0u8, 0u8, 0u8, 0u8, 0u8, 0u8, 0u8]);
    g.data1 == 0 && g.data2 == 0 && g.data3 == 0
}

/// The text form of a GUID.
pub fn format_guid(g: &GUID) -> (r: String)
    ensures
        r@ == guid_text(*g),
{
    guid_to_string(g)
}

} // verus!
