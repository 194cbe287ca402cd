//! The control-plane wire encoding: a small JSON emitter and its matching
//! reader, both verified.
//!
//! The command dispatch client serializes its request shapes
//! deterministically: object fields in declaration order, strings escaped
//! the canonical way (quote, backslash and control bytes only), byte arrays
//! and integers in plain decimal, no whitespace.  The reader accepts exactly
//! this canonical form; the round-trip proofs in [`crate::command`] show it
//! inverts the emitter.
//!
//! Strings ride as their UTF-8 bytes.  Multi-byte characters pass through
//! unescaped — every byte of one is at least 0x80, so the escaping and the
//! closing-quote scan, which only act on bytes below 0x80, cannot split
//! them.

use vstd::prelude::*;

verus! {

// ---------------------------------------------------------------------------
// Decimal numbers
// ---------------------------------------------------------------------------
/// The ASCII digit for `d` (`d < 10`).
pub open spec fn dec_digit(d: nat) -> u8 {
    (0x30 + d) as u8
}

/// The shortest decimal rendering of `n`, most significant digit first.
pub open spec fn dec_bytes(n: nat) -> Seq<u8>
    decreases n,
{
    if n < 10 {
        seq![dec_digit(n)]
    } else {
        dec_bytes(n / 10) + seq![dec_digit(n % 10)]
    }
}

/// Append the decimal rendering of `n`.
pub fn push_dec_u32(out: &mut Vec<u8>, n: u32)
    ensures
        final(out)@ == old(out)@ + dec_bytes(n as nat),
    decreases n,
{
    if n >= 10 {
        push_dec_u32(out, n / 10);
    }
    out.push(0x30 + (n % 10) as u8);
    proof {
        assert(final(out)@ =~= old(out)@ + dec_bytes(n as nat));
    }
}

// ---------------------------------------------------------------------------
// String escaping
// ---------------------------------------------------------------------------
/// The ASCII lowercase hex digit for `d` (`d < 16`).
pub open spec fn hex_digit(d: nat) -> u8 {
    if d < 10 {
        (0x30 + d) as u8
    } else {
        (0x57 + d) as u8
    }
}

/// How one byte of string content rides inside a JSON string: quote and
/// backslash are escaped, the control bytes below 0x20 by their short names
/// or as `\u00..`, and every other byte stands for itself.
pub open spec fn esc_byte(b: u8) -> Seq<u8> {
    if b == 0x22 {
        seq![0x5c, 0x22]
    } else if b == 0x5c {
        seq![0x5c, 0x5c]
    } else if b == 0x08 {
        seq![0x5c, 0x62]
    } else if b == 0x09 {
        seq![0x5c, 0x74]
    } else if b == 0x0a {
        seq![0x5c, 0x6e]
    } else if b == 0x0c {
        seq![0x5c, 0x66]
    } else if b == 0x0d {
        seq![0x5c, 0x72]
    } else if b < 0x20 {
        seq![0x5c, 0x75, 0x30, 0x30, hex_digit((b / 16) as nat), hex_digit((b % 16) as nat)]
    } else {
        seq![b]
    }
}

/// A whole string content, escaped byte by byte.
pub open spec fn esc_bytes(s: Seq<u8>) -> Seq<u8>
    decreases s.len(),
{
    if s.len() == 0 {
        Seq::empty()
    } else {
        esc_byte(s.first()) + esc_bytes(s.drop_first())
    }
}

/// Escaping distributes over concatenation.
pub proof fn lemma_esc_bytes_concat(a: Seq<u8>, b: Seq<u8>)
    ensures
        esc_bytes(a + b) == esc_bytes(a) + esc_bytes(b),
    decreases a.len(),
{
    if a.len() == 0 {
        assert(a + b =~= b);
        assert(esc_bytes(a) + esc_bytes(b) =~= esc_bytes(b));
    } else {
        lemma_esc_bytes_concat(a.drop_first(), b);
        assert((a + b).first() == a.first());
        assert((a + b).drop_first() =~= a.drop_first() + b);
        assert(esc_byte(a.first()) + (esc_bytes(a.drop_first()) + esc_bytes(b)) =~= (esc_byte(
            a.first(),
        ) + esc_bytes(a.drop_first())) + esc_bytes(b));
    }
}

/// Escaping a single byte.
pub proof fn lemma_esc_bytes_singleton(b: u8)
    ensures
        esc_bytes(seq![b]) == esc_byte(b),
{
    let s = seq![b];
    assert(s.len() == 1);
    assert(s.first() == b);
    assert(s.drop_first() =~= Seq::<u8>::empty());
    assert(esc_bytes(Seq::<u8>::empty()) == Seq::<u8>::empty());
    assert(esc_bytes(s) == esc_byte(b) + Seq::<u8>::empty());
    assert(esc_byte(b) + Seq::<u8>::empty() =~= esc_byte(b));
}

/// Escaping one more byte at the end.
pub proof fn lemma_esc_bytes_snoc(s: Seq<u8>, i: int)
    requires
        0 <= i < s.len(),
    ensures
        esc_bytes(s.take(i + 1)) == esc_bytes(s.take(i)) + esc_byte(s[i]),
{
    lemma_esc_bytes_concat(s.take(i), seq![s[i]]);
    lemma_esc_bytes_singleton(s[i]);
    assert(s.take(i + 1) =~= s.take(i) + seq![s[i]]);
}

/// The executable lowercase hex digit.
pub fn hex_digit_exec(d: u8) -> (r: u8)
    requires
        d < 16,
    ensures
        r == hex_digit(d as nat),
{
    if d < 10 {
        0x30 + d
    } else {
        0x57 + d
    }
}

/// Append the escaped form of one content byte.
pub fn push_escaped_byte(out: &mut Vec<u8>, b: u8)
    ensures
        final(out)@ == old(out)@ + esc_byte(b),
{
    if b == 0x22 {
        out.push(0x5c);
        out.push(0x22);
    } else if b == 0x5c {
        out.push(0x5c);
        out.push(0x5c);
    } else if b == 0x08 {
        out.push(0x5c);
        out.push(0x62);
    } else if b == 0x09 {
        out.push(0x5c);
        out.push(0x74);
    } else if b == 0x0a {
        out.push(0x5c);
        out.push(0x6e);
    } else if b == 0x0c {
        out.push(0x5c);
        out.push(0x66);
    } else if b == 0x0d {
        out.push(0x5c);
        out.push(0x72);
    } else if b < 0x20 {
        out.push(0x5c);
        out.push(0x75);
        out.push(0x30);
        out.push(0x30);
        out.push(hex_digit_exec(b / 16));
        out.push(hex_digit_exec(b % 16));
    } else {
        out.push(b);
    }
    proof {
        assert(final(out)@ =~= old(out)@ + esc_byte(b));
    }
}

/// A JSON string: quote, escaped content, quote.
pub open spec fn json_string(content: Seq<u8>) -> Seq<u8> {
    seq![0x22u8] + esc_bytes(content) + seq![0x22u8]
}

/// Append the JSON string carrying `content`.
pub fn push_json_string(out: &mut Vec<u8>, content: &Vec<u8>)
    ensures
        final(out)@ == old(out)@ + json_string(content@),
{
    out.push(0x22);
    let mut i: usize = 0;
    while i < content.len()
        invariant
            i <= content@.len(),
            out@ == old(out)@ + seq![0x22u8] + esc_bytes(content@.take(i as int)),
        decreases content@.len() - i,
    {
        proof {
            lemma_esc_bytes_snoc(content@, i as int);
        }
        push_escaped_byte(out, content[i]);
        i += 1;
    }
    out.push(0x22);
    proof {
        assert(content@.take(content@.len() as int) =~= content@);
        assert(final(out)@ =~= old(out)@ + json_string(content@));
    }
}

// ---------------------------------------------------------------------------
// Byte arrays
// ---------------------------------------------------------------------------
/// The items of a byte array after the first: `,n,n,...`.
pub open spec fn array_items_rest(items: Seq<u8>) -> Seq<u8>
    decreases items.len(),
{
    if items.len() == 0 {
        Seq::empty()
    } else {
        seq![0x2cu8] + dec_bytes(items.first() as nat) + array_items_rest(items.drop_first())
    }
}

/// A JSON array of decimal numbers, one per byte: `[n,n,...]`.
pub open spec fn json_byte_array(items: Seq<u8>) -> Seq<u8> {
    if items.len() == 0 {
        seq![0x5bu8, 0x5du8]
    } else {
        seq![0x5bu8] + dec_bytes(items.first() as nat) + array_items_rest(items.drop_first())
            + seq![0x5du8]
    }
}

/// Appending one more item to the rest-items rendering.
pub proof fn lemma_array_items_rest_snoc(items: Seq<u8>, i: int)
    requires
        0 <= i < items.len(),
    ensures
        array_items_rest(items.take(i + 1)) == array_items_rest(items.take(i)) + seq![0x2cu8]
            + dec_bytes(items[i] as nat),
    decreases i,
{
    if i == 0 {
        let s = seq![items[0]];
        assert(items.take(1) =~= s);
        assert(items.take(0) =~= Seq::<u8>::empty());
        assert(s.len() == 1);
        assert(s.first() == items[0]);
        assert(s.drop_first() =~= Seq::<u8>::empty());
        assert(array_items_rest(Seq::<u8>::empty()) == Seq::<u8>::empty());
        assert(array_items_rest(s) == seq![0x2cu8] + dec_bytes(items[0] as nat)
            + Seq::<u8>::empty());
        assert(array_items_rest(items.take(1)) =~= array_items_rest(items.take(0)) + seq![0x2cu8]
            + dec_bytes(items[0] as nat));
    } else {
        lemma_array_items_rest_snoc(items.drop_first(), i - 1);
        assert(items.take(i + 1).first() == items.first());
        assert(items.take(i + 1).drop_first() =~= items.drop_first().take(i));
        assert(items.take(i).first() == items.first());
        assert(items.take(i).drop_first() =~= items.drop_first().take(i - 1));
        assert(items.drop_first()[i - 1] == items[i]);
        assert((seq![0x2cu8] + dec_bytes(items.first() as nat)) + (array_items_rest(
            items.drop_first().take(i - 1),
        ) + seq![0x2cu8] + dec_bytes(items[i] as nat)) =~= ((seq![0x2cu8] + dec_bytes(
            items.first() as nat,
        )) + array_items_rest(items.drop_first().take(i - 1))) + seq![0x2cu8] + dec_bytes(
            items[i] as nat,
        ));
    }
}

/// Append the JSON byte array carrying `items`.
pub fn push_json_byte_array(out: &mut Vec<u8>, items: &Vec<u8>)
    ensures
        final(out)@ == old(out)@ + json_byte_array(items@),
{
    out.push(0x5b);
    if items.len() > 0 {
        push_dec_u32(out, items[0] as u32);
        let mut i: usize = 1;
        while i < items.len()
            invariant
                1 <= i <= items@.len(),
                out@ == old(out)@ + seq![0x5bu8] + dec_bytes(items@.first() as nat)
                    + array_items_rest(items@.drop_first().take(i - 1)),
            decreases items@.len() - i,
        {
            proof {
                if i < items@.len() {
                    lemma_array_items_rest_snoc(items@.drop_first(), i - 1);
                    assert(items@.drop_first()[i - 1] == items@[i as int]);
                }
            }
            out.push(0x2c);
            push_dec_u32(out, items[i] as u32);
            i += 1;
            proof {
                assert(out@ =~= old(out)@ + seq![0x5bu8] + dec_bytes(items@.first() as nat)
                    + array_items_rest(items@.drop_first().take(i - 1)));
            }
        }
        proof {
            assert(items@.drop_first().take(items@.len() - 1) =~= items@.drop_first());
        }
    }
    out.push(0x5d);
    proof {
        assert(final(out)@ =~= old(out)@ + json_byte_array(items@));
    }
}

// ---------------------------------------------------------------------------
// Booleans
// ---------------------------------------------------------------------------
/// The JSON rendering of a boolean.
pub open spec fn json_bool(b: bool) -> Seq<u8> {
    if b {
        seq![0x74u8, 0x72u8, 0x75u8, 0x65u8]
    } else {
        seq![0x66u8, 0x61u8, 0x6cu8, 0x73u8, 0x65u8]
    }
}

/// Append `true` or `false`.
pub fn push_json_bool(out: &mut Vec<u8>, b: bool)
    ensures
        final(out)@ == old(out)@ + json_bool(b),
{
    if b {
        out.push(0x74);
        out.push(0x72);
        out.push(0x75);
        out.push(0x65);
    } else {
        out.push(0x66);
        out.push(0x61);
        out.push(0x6c);
        out.push(0x73);
        out.push(0x65);
    }
    proof {
        assert(final(out)@ =~= old(out)@ + json_bool(b));
    }
}


// ---------------------------------------------------------------------------
// Reading the canonical form back
// ---------------------------------------------------------------------------
// Each spec reader consumes from the front of a byte sequence and yields
// `Some((value, rest))`, or `None` when the input is not in canonical form.
/// An ASCII decimal digit?
pub open spec fn is_dec_digit(b: u8) -> bool {
    0x30 <= b <= 0x39
}

/// How many decimal digits the input starts with.
pub open spec fn digits_len(s: Seq<u8>) -> nat
    decreases s.len(),
{
    if s.len() > 0 && is_dec_digit(s.first()) {
        1 + digits_len(s.drop_first())
    } else {
        0
    }
}

/// The number a digit string names, most significant digit first.
pub open spec fn dec_val(digits: Seq<u8>) -> int
    decreases digits.len(),
{
    if digits.len() == 0 {
        0
    } else {
        dec_val(digits.drop_last()) * 10 + (digits.last() - 0x30)
    }
}

/// Read a decimal number: at least one leading digit, taken greedily.
pub open spec fn parse_dec(s: Seq<u8>) -> Option<(int, Seq<u8>)> {
    if digits_len(s) == 0 {
        None
    } else {
        Some((dec_val(s.take(digits_len(s) as int)), s.skip(digits_len(s) as int)))
    }
}

/// Read a decimal number that must fit in a `u32`.
pub open spec fn parse_dec_u32(s: Seq<u8>) -> Option<(u32, Seq<u8>)> {
    match parse_dec(s) {
        Some((v, r)) => if v <= u32::MAX {
            Some((v as u32, r))
        } else {
            None
        },
        None => None,
    }
}

/// The characters that may follow a backslash as a short escape.
pub open spec fn is_short_escape(e: u8) -> bool {
    e == 0x22 || e == 0x5c || e == 0x2f || e == 0x62 || e == 0x74 || e == 0x6e || e == 0x66
        || e == 0x72
}

/// The byte a short escape stands for; quote, backslash and slash stand for
/// themselves.
pub open spec fn short_unescape(e: u8) -> u8 {
    if e == 0x62 {
        0x08
    } else if e == 0x74 {
        0x09
    } else if e == 0x6e {
        0x0a
    } else if e == 0x66 {
        0x0c
    } else if e == 0x72 {
        0x0d
    } else {
        e
    }
}

/// A lowercase hexadecimal digit?
pub open spec fn is_hex_lower(b: u8) -> bool {
    is_dec_digit(b) || (0x61 <= b <= 0x66)
}

/// The value of a lowercase hexadecimal digit.
pub open spec fn hex_val(b: u8) -> int {
    if is_dec_digit(b) {
        b - 0x30
    } else {
        b - 0x57
    }
}

/// Read string content up to and including the closing quote, undoing the
/// escapes.  Unescaped control bytes are not accepted.
pub open spec fn parse_string_body(s: Seq<u8>) -> Option<(Seq<u8>, Seq<u8>)>
    decreases s.len(),
{
    if s.len() == 0 {
        None
    } else if s.first() == 0x22 {
        Some((Seq::empty(), s.drop_first()))
    } else if s.first() == 0x5c {
        if s.len() >= 2 && is_short_escape(s[1]) {
            match parse_string_body(s.skip(2)) {
                Some((c, r)) => Some((seq![short_unescape(s[1])] + c, r)),
                None => None,
            }
        } else if s.len() >= 6 && s[1] == 0x75 && s[2] == 0x30 && s[3] == 0x30 && is_hex_lower(
            s[4],
        ) && is_hex_lower(s[5]) {
            match parse_string_body(s.skip(6)) {
                Some((c, r)) => Some((seq![(hex_val(s[4]) * 16 + hex_val(s[5])) as u8] + c, r)),
                None => None,
            }
        } else {
            None
        }
    } else if s.first() < 0x20 {
        None
    } else {
        match parse_string_body(s.drop_first()) {
            Some((c, r)) => Some((seq![s.first()] + c, r)),
            None => None,
        }
    }
}

/// Read a whole JSON string, opening quote included.
pub open spec fn parse_json_string(s: Seq<u8>) -> Option<(Seq<u8>, Seq<u8>)> {
    if s.len() > 0 && s.first() == 0x22 {
        parse_string_body(s.drop_first())
    } else {
        None
    }
}

/// Read the items of a non-empty byte array, closing bracket included.
pub open spec fn parse_array_items(s: Seq<u8>) -> Option<(Seq<u8>, Seq<u8>)>
    decreases s.len(),
{
    let k = digits_len(s);
    if k == 0 || k > s.len() {
        None
    } else {
        let v = dec_val(s.take(k as int));
        let r = s.skip(k as int);
        if v > 255 {
            None
        } else if r.len() > 0 && r.first() == 0x2c {
            match parse_array_items(r.drop_first()) {
                Some((items, rest)) => Some((seq![v as u8] + items, rest)),
                None => None,
            }
        } else if r.len() > 0 && r.first() == 0x5d {
            Some((seq![v as u8], r.drop_first()))
        } else {
            None
        }
    }
}

/// Read a whole byte array.
pub open spec fn parse_json_byte_array(s: Seq<u8>) -> Option<(Seq<u8>, Seq<u8>)> {
    if s.len() >= 2 && s.first() == 0x5b && s[1] == 0x5d {
        Some((Seq::empty(), s.skip(2)))
    } else if s.len() > 0 && s.first() == 0x5b {
        parse_array_items(s.drop_first())
    } else {
        None
    }
}

/// Read `true` or `false`.
pub open spec fn parse_json_bool(s: Seq<u8>) -> Option<(bool, Seq<u8>)> {
    if s.len() >= 4 && s.take(4) == json_bool(true) {
        Some((true, s.skip(4)))
    } else if s.len() >= 5 && s.take(5) == json_bool(false) {
        Some((false, s.skip(5)))
    } else {
        None
    }
}

/// Demand an exact literal at the front.
pub open spec fn expect_bytes(s: Seq<u8>, l: Seq<u8>) -> Option<Seq<u8>> {
    if l.len() <= s.len() && s.take(l.len() as int) == l {
        Some(s.skip(l.len() as int))
    } else {
        None
    }
}

// ---------------------------------------------------------------------------
// The readers invert the emitters
// ---------------------------------------------------------------------------
/// Every byte of a decimal rendering is a digit.
pub proof fn lemma_dec_bytes_are_digits(n: nat)
    ensures
        dec_bytes(n).len() >= 1,
        forall|i: int| 0 <= i < dec_bytes(n).len() ==> is_dec_digit(#[trigger] dec_bytes(n)[i]),
    decreases n,
{
    if n < 10 {
    } else {
        lemma_dec_bytes_are_digits(n / 10);
        assert forall|i: int| 0 <= i < dec_bytes(n).len() implies is_dec_digit(
            #[trigger] dec_bytes(n)[i],
        ) by {
            if i < dec_bytes(n / 10).len() {
                assert(dec_bytes(n)[i] == dec_bytes(n / 10)[i]);
            } else {
                assert(dec_bytes(n)[i] == dec_digit(n % 10));
            }
        }
    }
}

/// A run of digits followed by a non-digit is scanned exactly to its end.
pub proof fn lemma_digits_len_exact(d: Seq<u8>, r: Seq<u8>)
    requires
        forall|i: int| 0 <= i < d.len() ==> is_dec_digit(#[trigger] d[i]),
        r.len() == 0 || !is_dec_digit(r.first()),
    ensures
        digits_len(d + r) == d.len(),
    decreases d.len(),
{
    if d.len() == 0 {
        assert(d + r =~= r);
    } else {
        lemma_digits_len_exact(d.drop_first(), r);
        assert((d + r).first() == d[0]);
        assert((d + r).drop_first() =~= d.drop_first() + r);
    }
}

/// Reading back a decimal rendering yields the number itself.
pub proof fn lemma_dec_val_of_dec_bytes(n: nat)
    ensures
        dec_val(dec_bytes(n)) == n,
    decreases n,
{
    if n < 10 {
        let s = dec_bytes(n);
        assert(s.len() == 1);
        assert(s.last() == dec_digit(n));
        assert(s.drop_last() =~= Seq::<u8>::empty());
        assert(dec_val(Seq::<u8>::empty()) == 0);
        assert(dec_val(s) == 0 * 10 + (dec_digit(n) - 0x30));
    } else {
        lemma_dec_val_of_dec_bytes(n / 10);
        let s = dec_bytes(n);
        assert(s.drop_last() =~= dec_bytes(n / 10));
        assert(s.last() == dec_digit(n % 10));
        assert(dec_val(s) == dec_val(dec_bytes(n / 10)) * 10 + (dec_digit(n % 10) - 0x30));
    }
}

/// Reading a number off the front of `dec_bytes(n) + rest` yields `n` and
/// `rest`, whenever `rest` does not begin with another digit.
pub proof fn lemma_parse_dec_of_dec_bytes(n: nat, rest: Seq<u8>)
    requires
        rest.len() == 0 || !is_dec_digit(rest.first()),
    ensures
        parse_dec(dec_bytes(n) + rest) == Some((n as int, rest)),
{
    let d = dec_bytes(n);
    lemma_dec_bytes_are_digits(n);
    lemma_digits_len_exact(d, rest);
    lemma_dec_val_of_dec_bytes(n);
    assert((d + rest).take(d.len() as int) =~= d);
    assert((d + rest).skip(d.len() as int) =~= rest);
}


/// Reading a string body off escaped content followed by the closing quote
/// yields the content back: unescaping inverts escaping.
pub proof fn lemma_parse_string_body_of_escaped(content: Seq<u8>, rest: Seq<u8>)
    ensures
        parse_string_body(esc_bytes(content) + seq![0x22u8] + rest) == Some((content, rest)),
    decreases content.len(),
{
    let q: Seq<u8> = seq![0x22u8];
    let s = esc_bytes(content) + q + rest;
    if content.len() == 0 {
        assert(esc_bytes(content) =~= Seq::<u8>::empty());
        assert(s =~= q + rest);
        assert(s.first() == 0x22);
        assert(s.drop_first() =~= rest);
    } else {
        let b = content.first();
        let tail = content.drop_first();
        lemma_parse_string_body_of_escaped(tail, rest);
        let s2 = esc_bytes(tail) + q + rest;
        assert(esc_bytes(content) == esc_byte(b) + esc_bytes(tail));
        assert(s =~= esc_byte(b) + s2);
        assert(seq![b] + tail =~= content);
        if b == 0x22 || b == 0x5c || b == 0x08 || b == 0x09 || b == 0x0a || b == 0x0c
            || b == 0x0d {
            let e = esc_byte(b)[1];
            assert(s.len() >= 2);
            assert(s[0] == 0x5c);
            assert(s[1] == e);
            assert(is_short_escape(e));
            assert(short_unescape(e) == b);
            assert(s.skip(2) =~= s2);
            assert(seq![short_unescape(s[1])] + tail =~= content);
        } else if b < 0x20 {
            assert(s.len() >= 6);
            assert(s[0] == 0x5c);
            assert(s[1] == 0x75);
            assert(s[2] == 0x30);
            assert(s[3] == 0x30);
            assert(s[4] == hex_digit((b / 16) as nat));
            assert(s[5] == hex_digit((b % 16) as nat));
            assert(!is_short_escape(s[1]));
            assert(is_hex_lower(s[4]));
            assert(is_hex_lower(s[5]));
            assert(hex_val(s[4]) == b / 16);
            assert(hex_val(s[5]) == b % 16);
            assert(hex_val(s[4]) * 16 + hex_val(s[5]) == b);
            assert(s.skip(6) =~= s2);
            assert(seq![(hex_val(s[4]) * 16 + hex_val(s[5])) as u8] + tail =~= content);
        } else {
            assert(s.first() == b);
            assert(b != 0x22 && b != 0x5c && b >= 0x20);
            assert(s.drop_first() =~= s2);
        }
    }
}

/// Reading a whole JSON string off the emitter's output yields the content
/// back.
pub proof fn lemma_parse_json_string_of(content: Seq<u8>, rest: Seq<u8>)
    ensures
        parse_json_string(json_string(content) + rest) == Some((content, rest)),
{
    let s = json_string(content) + rest;
    assert(s =~= seq![0x22u8] + (esc_bytes(content) + seq![0x22u8] + rest));
    assert(s.first() == 0x22);
    assert(s.drop_first() =~= esc_bytes(content) + seq![0x22u8] + rest);
    lemma_parse_string_body_of_escaped(content, rest);
}

/// Reading the items of a non-empty array off the emitter's output yields
/// the items back.
pub proof fn lemma_parse_array_items_of(items: Seq<u8>, rest: Seq<u8>)
    requires
        items.len() > 0,
    ensures
        parse_array_items(
            dec_bytes(items.first() as nat) + array_items_rest(items.drop_first())
                + seq![0x5du8] + rest,
        ) == Some((items, rest)),
    decreases items.len(),
{
    let v = items.first();
    let tail = items.drop_first();
    let d = dec_bytes(v as nat);
    let s = d + array_items_rest(tail) + seq![0x5du8] + rest;
    let after = array_items_rest(tail) + seq![0x5du8] + rest;
    assert(s =~= d + after);
    lemma_dec_bytes_are_digits(v as nat);
    if tail.len() == 0 {
        assert(array_items_rest(tail) =~= Seq::<u8>::empty());
        assert(after =~= seq![0x5du8] + rest);
        assert(after.first() == 0x5d);
    } else {
        assert(array_items_rest(tail) == seq![0x2cu8] + dec_bytes(tail.first() as nat)
            + array_items_rest(tail.drop_first()));
        assert(after.first() == 0x2c);
    }
    assert(!is_dec_digit(after.first()));
    lemma_digits_len_exact(d, after);
    lemma_dec_val_of_dec_bytes(v as nat);
    assert(digits_len(s) == d.len());
    assert(s.take(d.len() as int) =~= d);
    assert(s.skip(d.len() as int) =~= after);
    if tail.len() == 0 {
        assert(after.drop_first() =~= rest);
        assert(seq![v] =~= items);
    } else {
        assert(after.drop_first() =~= dec_bytes(tail.first() as nat) + array_items_rest(
            tail.drop_first(),
        ) + seq![0x5du8] + rest);
        lemma_parse_array_items_of(tail, rest);
        assert(seq![v] + tail =~= items);
    }
}

/// Reading a whole byte array off the emitter's output yields the items
/// back.
pub proof fn lemma_parse_json_byte_array_of(items: Seq<u8>, rest: Seq<u8>)
    ensures
        parse_json_byte_array(json_byte_array(items) + rest) == Some((items, rest)),
{
    let s = json_byte_array(items) + rest;
    if items.len() == 0 {
        assert(s =~= seq![0x5bu8, 0x5du8] + rest);
        assert(s.len() >= 2 && s[0] == 0x5b && s[1] == 0x5d);
        assert(s.skip(2) =~= rest);
    } else {
        let inner = dec_bytes(items.first() as nat) + array_items_rest(items.drop_first())
            + seq![0x5du8] + rest;
        assert(s =~= seq![0x5bu8] + inner);
        lemma_dec_bytes_are_digits(items.first() as nat);
        assert(inner.first() == dec_bytes(items.first() as nat).first());
        assert(is_dec_digit(inner.first()));
        assert(s[0] == 0x5b);
        assert(s.len() >= 2 && s[1] == inner.first());
        assert(s[1] != 0x5d);
        assert(s.drop_first() =~= inner);
        lemma_parse_array_items_of(items, rest);
    }
}

/// Reading a boolean off the emitter's output yields the value back.
pub proof fn lemma_parse_json_bool_of(b: bool, rest: Seq<u8>)
    ensures
        parse_json_bool(json_bool(b) + rest) == Some((b, rest)),
{
    let s = json_bool(b) + rest;
    if b {
        assert(s.take(4) =~= json_bool(true));
        assert(s.skip(4) =~= rest);
    } else {
        assert(s.len() >= 5);
        assert(s.take(4)[0] == 0x66);
        assert(json_bool(true)[0] == 0x74);
        assert(s.take(4) != json_bool(true));
        assert(s.take(5) =~= json_bool(false));
        assert(s.skip(5) =~= rest);
    }
}

/// Demanding a literal off itself-plus-rest yields the rest.
pub proof fn lemma_expect_bytes_of(l: Seq<u8>, rest: Seq<u8>)
    ensures
        expect_bytes(l + rest, l) == Some(rest),
{
    assert((l + rest).take(l.len() as int) =~= l);
    assert((l + rest).skip(l.len() as int) =~= rest);
}


// ---------------------------------------------------------------------------
// Executable readers
// ---------------------------------------------------------------------------
/// What the digit scan finds: only digits, as many as possible.
pub proof fn lemma_digits_len_char(s: Seq<u8>)
    ensures
        digits_len(s) <= s.len(),
        forall|j: int| 0 <= j < digits_len(s) ==> is_dec_digit(#[trigger] s[j]),
        digits_len(s) == s.len() || !is_dec_digit(s[digits_len(s) as int]),
    decreases s.len(),
{
    if s.len() > 0 && is_dec_digit(s.first()) {
        lemma_digits_len_char(s.drop_first());
        assert forall|j: int| 0 <= j < digits_len(s) implies is_dec_digit(#[trigger] s[j]) by {
            if j > 0 {
                assert(s[j] == s.drop_first()[j - 1]);
            }
        }
        if digits_len(s) < s.len() {
            assert(s[digits_len(s) as int] == s.drop_first()[
                digits_len(s.drop_first()) as int
            ]);
        }
    }
}

/// A digit string names a non-negative number.
pub proof fn lemma_dec_val_nonneg(d: Seq<u8>)
    requires
        forall|m: int| 0 <= m < d.len() ==> is_dec_digit(#[trigger] d[m]),
    ensures
        dec_val(d) >= 0,
    decreases d.len(),
{
    if d.len() > 0 {
        assert(forall|m: int| 0 <= m < d.drop_last().len() ==> is_dec_digit(
            #[trigger] d.drop_last()[m],
        ));
        lemma_dec_val_nonneg(d.drop_last());
        assert(d.last() >= 0x30);
    }
}

/// A longer digit prefix never names a smaller number.
pub proof fn lemma_dec_val_mono(s: Seq<u8>, i: int, j: int)
    requires
        0 <= i <= j <= s.len(),
        forall|m: int| 0 <= m < j ==> is_dec_digit(#[trigger] s[m]),
    ensures
        0 <= dec_val(s.take(i)) <= dec_val(s.take(j)),
    decreases j - i,
{
    assert(forall|m: int| 0 <= m < i ==> is_dec_digit(#[trigger] s.take(i)[m]));
    lemma_dec_val_nonneg(s.take(i));
    if i < j {
        lemma_dec_val_mono(s, i, j - 1);
        assert(s.take(j).drop_last() =~= s.take(j - 1));
        assert(s.take(j).last() == s[j - 1]);
        assert(dec_val(s.take(j)) == dec_val(s.take(j - 1)) * 10 + (s[j - 1] - 0x30));
        assert(s[j - 1] >= 0x30);
        assert(dec_val(s.take(j - 1)) * 10 >= dec_val(s.take(j - 1)));
    }
}

/// Read a decimal `u32` at `pos`: as many digits as there are, rejecting
/// values that do not fit.
pub fn parse_u32_at(data: &Vec<u8>, pos: usize) -> (r: Option<(u32, usize)>)
    requires
        pos <= data@.len(),
    ensures
        match parse_dec_u32(data@.skip(pos as int)) {
            None => r is None,
            Some((v, rest)) => (r matches Some((w, p)) && w == v && pos < p <= data@.len()
                && data@.skip(p as int) == rest),
        },
{
    let ghost s = data@.skip(pos as int);
    proof {
        lemma_digits_len_char(s);
    }
    let ghost k = digits_len(s);
    if pos == data.len() || data[pos] < 0x30 || data[pos] > 0x39 {
        proof {
            if pos < data@.len() {
                assert(s.first() == data@[pos as int]);
            }
            assert(k == 0);
        }
        return None;
    }
    let mut i: usize = pos;
    let mut acc: u64 = 0;
    while i < data.len() && 0x30 <= data[i] && data[i] <= 0x39
        invariant
            pos <= i <= data@.len(),
            i - pos <= k,
            k <= s.len(),
            s == data@.skip(pos as int),
            k == digits_len(s),
            forall|j: int| 0 <= j < k ==> is_dec_digit(#[trigger] s[j]),
            k == s.len() || !is_dec_digit(s[k as int]),
            acc as int == dec_val(s.take(i - pos)),
            acc <= u32::MAX,
        decreases data@.len() - i,
    {
        proof {
            assert(s[(i - pos) as int] == data@[i as int]);
            if i - pos == k {
                assert(k < s.len());
                assert(false);
            }
        }
        let d: u8 = data[i] - 0x30;
        let acc2: u64 = acc * 10 + d as u64;
        proof {
            assert(s.take(i - pos + 1).drop_last() =~= s.take((i - pos) as int));
            assert(s.take(i - pos + 1).last() == s[(i - pos) as int]);
            assert(acc2 as int == dec_val(s.take(i - pos + 1)));
        }
        if acc2 > 0xFFFF_FFFF {
            proof {
                lemma_dec_val_mono(s, i - pos + 1, k as int);
                assert(dec_val(s.take(k as int)) > u32::MAX);
            }
            return None;
        }
        acc = acc2;
        i += 1;
    }
    proof {
        if i - pos < k {
            assert(is_dec_digit(s[(i - pos) as int]));
            assert(s[(i - pos) as int] == data@[i as int]);
            assert(false);
        }
        assert(i - pos == k);
        assert(data@.skip(i as int) =~= s.skip(k as int));
    }
    Some((acc as u32, i))
}

/// The executable short-escape map.
fn short_unescape_try(e: u8) -> (r: Option<u8>)
    ensures
        r is Some <==> is_short_escape(e),
        (r matches Some(u) ==> u == short_unescape(e)),
{
    if e == 0x22 {
        Some(0x22)
    } else if e == 0x5c {
        Some(0x5c)
    } else if e == 0x2f {
        Some(0x2f)
    } else if e == 0x62 {
        Some(0x08)
    } else if e == 0x74 {
        Some(0x09)
    } else if e == 0x6e {
        Some(0x0a)
    } else if e == 0x66 {
        Some(0x0c)
    } else if e == 0x72 {
        Some(0x0d)
    } else {
        None
    }
}

/// The executable lowercase hex-digit value.
fn hex_val_try(b: u8) -> (r: Option<u8>)
    ensures
        r is Some <==> is_hex_lower(b),
        (r matches Some(v) ==> v as int == hex_val(b) && v < 16),
{
    if 0x30 <= b && b <= 0x39 {
        Some(b - 0x30)
    } else if 0x61 <= b && b <= 0x66 {
        Some(b - 0x57)
    } else {
        None
    }
}

/// Read string content at `pos` — the opening quote already consumed —
/// up to and including the closing quote.
fn parse_body_at(data: &Vec<u8>, pos: usize) -> (r: Option<(Vec<u8>, usize)>)
    requires
        pos <= data@.len(),
    ensures
        match parse_string_body(data@.skip(pos as int)) {
            None => r is None,
            Some((c, rest)) => (r matches Some((v, p)) && v@ == c && pos < p <= data@.len()
                && data@.skip(p as int) == rest),
        },
    decreases data@.len() - pos,
{
    let ghost s = data@.skip(pos as int);
    if pos == data.len() {
        return None;
    }
    let c = data[pos];
    proof {
        assert(s.first() == c);
    }
    if c == 0x22 {
        proof {
            assert(s.drop_first() =~= data@.skip(pos + 1));
        }
        return Some((Vec::new(), pos + 1));
    }
    if c == 0x5c {
        if data.len() - pos < 2 {
            return None;
        }
        let e = data[pos + 1];
        proof {
            assert(s[1] == e);
        }
        match short_unescape_try(e) {
            Some(u) => {
                proof {
                    assert(data@.skip(pos + 2) =~= s.skip(2));
                }
                match parse_body_at(data, pos + 2) {
                    Some((mut v, p)) => {
                        v.insert(0, u);
                        proof {
                            assert(v@ =~= seq![short_unescape(s[1])] + v@.drop_first());
                        }
                        Some((v, p))
                    },
                    None => None,
                }
            },
            None => {
                if e == 0x75 {
                    if data.len() - pos < 6 {
                        return None;
                    }
                    if data[pos + 2] != 0x30 || data[pos + 3] != 0x30 {
                        proof {
                            assert(s[2] == data@[pos + 2]);
                            assert(s[3] == data@[pos + 3]);
                        }
                        return None;
                    }
                    let h1 = hex_val_try(data[pos + 4]);
                    let h2 = hex_val_try(data[pos + 5]);
                    proof {
                        assert(s[4] == data@[pos + 4]);
                        assert(s[5] == data@[pos + 5]);
                    }
                    match (h1, h2) {
                        (Some(v1), Some(v2)) => {
                            let b: u8 = v1 * 16 + v2;
                            proof {
                                assert(b as int == hex_val(s[4]) * 16 + hex_val(s[5]));
                                assert(data@.skip(pos + 6) =~= s.skip(6));
                            }
                            match parse_body_at(data, pos + 6) {
                                Some((mut v, p)) => {
                                    v.insert(0, b);
                                    proof {
                                        assert(v@ =~= seq![
                                            (hex_val(s[4]) * 16 + hex_val(s[5])) as u8,
                                        ] + v@.drop_first());
                                    }
                                    Some((v, p))
                                },
                                None => None,
                            }
                        },
                        _ => None,
                    }
                } else {
                    None
                }
            },
        }
    } else if c < 0x20 {
        None
    } else {
        proof {
            assert(data@.skip(pos + 1) =~= s.drop_first());
        }
        match parse_body_at(data, pos + 1) {
            Some((mut v, p)) => {
                v.insert(0, c);
                proof {
                    assert(v@ =~= seq![s.first()] + v@.drop_first());
                }
                Some((v, p))
            },
            None => None,
        }
    }
}

/// Read a whole JSON string at `pos`, opening quote included.
pub fn parse_string_at(data: &Vec<u8>, pos: usize) -> (r: Option<(Vec<u8>, usize)>)
    requires
        pos <= data@.len(),
    ensures
        match parse_json_string(data@.skip(pos as int)) {
            None => r is None,
            Some((c, rest)) => (r matches Some((v, p)) && v@ == c && pos < p <= data@.len()
                && data@.skip(p as int) == rest),
        },
{
    let ghost s = data@.skip(pos as int);
    if pos == data.len() || data[pos] != 0x22 {
        proof {
            if pos < data@.len() {
                assert(s.first() == data@[pos as int]);
            }
        }
        return None;
    }
    proof {
        assert(s.first() == data@[pos as int]);
        assert(s.drop_first() =~= data@.skip(pos + 1));
    }
    parse_body_at(data, pos + 1)
}

/// Read the items of a non-empty byte array at `pos`, closing bracket
/// included.
fn parse_items_at(data: &Vec<u8>, pos: usize) -> (r: Option<(Vec<u8>, usize)>)
    requires
        pos <= data@.len(),
    ensures
        match parse_array_items(data@.skip(pos as int)) {
            None => r is None,
            Some((items, rest)) => (r matches Some((v, p)) && v@ == items && pos < p
                <= data@.len() && data@.skip(p as int) == rest),
        },
    decreases data@.len() - pos,
{
    let ghost s = data@.skip(pos as int);
    proof {
        lemma_digits_len_char(s);
        if digits_len(s) > 0 {
            lemma_dec_val_mono(s, 0, digits_len(s) as int);
            assert(s.take(0) =~= Seq::<u8>::empty());
        }
    }
    match parse_u32_at(data, pos) {
        None => {
            proof {
                if digits_len(s) > 0 {
                    lemma_dec_val_mono(s, 0, digits_len(s) as int);
                }
            }
            None
        },
        Some((w, p)) => {
            if w > 255 {
                return None;
            }
            if p == data.len() {
                return None;
            }
            let ch = data[p];
            proof {
                assert(data@.skip(p as int).first() == data@[p as int]);
            }
            if ch == 0x2c {
                proof {
                    assert(data@.skip(p + 1) =~= data@.skip(p as int).drop_first());
                }
                match parse_items_at(data, p + 1) {
                    Some((mut v, p2)) => {
                        v.insert(0, w as u8);
                        proof {
                            assert(v@ =~= seq![w as u8] + v@.drop_first());
                        }
                        Some((v, p2))
                    },
                    None => None,
                }
            } else if ch == 0x5d {
                let mut v: Vec<u8> = Vec::new();
                v.push(w as u8);
                proof {
                    assert(v@ =~= seq![w as u8]);
                    assert(data@.skip(p + 1) =~= data@.skip(p as int).drop_first());
                }
                Some((v, p + 1))
            } else {
                None
            }
        },
    }
}

/// Read a whole byte array at `pos`.
pub fn parse_byte_array_at(data: &Vec<u8>, pos: usize) -> (r: Option<(Vec<u8>, usize)>)
    requires
        pos <= data@.len(),
    ensures
        match parse_json_byte_array(data@.skip(pos as int)) {
            None => r is None,
            Some((items, rest)) => (r matches Some((v, p)) && v@ == items && pos < p
                <= data@.len() && data@.skip(p as int) == rest),
        },
{
    let ghost s = data@.skip(pos as int);
    if pos == data.len() || data[pos] != 0x5b {
        proof {
            if pos < data@.len() {
                assert(s.first() == data@[pos as int]);
            }
        }
        return None;
    }
    proof {
        assert(s.first() == data@[pos as int]);
    }
    if data.len() - pos >= 2 && data[pos + 1] == 0x5d {
        proof {
            assert(s[1] == data@[pos + 1]);
            assert(data@.skip(pos + 2) =~= s.skip(2));
        }
        return Some((Vec::new(), pos + 2));
    }
    proof {
        if s.len() >= 2 {
            assert(s[1] == data@[pos + 1]);
        }
        assert(s.drop_first() =~= data@.skip(pos + 1));
    }
    parse_items_at(data, pos + 1)
}

/// Read `true` or `false` at `pos`.
pub fn parse_bool_at(data: &Vec<u8>, pos: usize) -> (r: Option<(bool, usize)>)
    requires
        pos <= data@.len(),
    ensures
        match parse_json_bool(data@.skip(pos as int)) {
            None => r is None,
            Some((b, rest)) => (r matches Some((w, p)) && w == b && pos < p <= data@.len()
                && data@.skip(p as int) == rest),
        },
{
    let ghost s = data@.skip(pos as int);
    if data.len() - pos >= 4 && data[pos] == 0x74 && data[pos + 1] == 0x72 && data[pos + 2]
        == 0x75 && data[pos + 3] == 0x65 {
        proof {
            assert(s.take(4) =~= json_bool(true));
            assert(data@.skip(pos + 4) =~= s.skip(4));
        }
        Some((true, pos + 4))
    } else if data.len() - pos >= 5 && data[pos] == 0x66 && data[pos + 1] == 0x61 && data[pos
        + 2] == 0x6c && data[pos + 3] == 0x73 && data[pos + 4] == 0x65 {
        proof {
            assert(s.take(5) =~= json_bool(false));
            assert(s.take(4)[0] == data@[pos as int]);
            assert(data@.skip(pos + 5) =~= s.skip(5));
        }
        Some((false, pos + 5))
    } else {
        proof {
            if s.len() >= 4 && s.take(4) == json_bool(true) {
                assert(s.take(4)[0] == data@[pos as int]);
                assert(s.take(4)[1] == data@[pos + 1]);
                assert(s.take(4)[2] == data@[pos + 2]);
                assert(s.take(4)[3] == data@[pos + 3]);
            }
            if s.len() >= 5 && s.take(5) == json_bool(false) {
                assert(s.take(5)[0] == data@[pos as int]);
                assert(s.take(5)[1] == data@[pos + 1]);
                assert(s.take(5)[2] == data@[pos + 2]);
                assert(s.take(5)[3] == data@[pos + 3]);
                assert(s.take(5)[4] == data@[pos + 4]);
            }
        }
        None
    }
}

/// Demand an exact literal at `pos`.
pub fn expect_at(data: &Vec<u8>, pos: usize, lit: &Vec<u8>) -> (r: Option<usize>)
    requires
        pos <= data@.len(),
    ensures
        match expect_bytes(data@.skip(pos as int), lit@) {
            None => r is None,
            Some(rest) => (r matches Some(p) && pos <= p <= data@.len() && data@.skip(p as int)
                == rest),
        },
{
    let ghost s = data@.skip(pos as int);
    if data.len() - pos < lit.len() {
        return None;
    }
    let mut i: usize = 0;
    while i < lit.len()
        invariant
            pos + lit@.len() <= data@.len(),
            data@.len() <= usize::MAX,
            i <= lit@.len(),
            s == data@.skip(pos as int),
            forall|j: int| 0 <= j < i ==> data@[pos + j] == lit@[j],
        decreases lit@.len() - i,
    {
        if data[pos + i] != lit[i] {
            proof {
                assert(s[i as int] == data@[pos + i]);
                if lit@.len() <= s.len() && s.take(lit@.len() as int) == lit@ {
                    assert(s.take(lit@.len() as int)[i as int] == s[i as int]);
                }
            }
            return None;
        }
        i += 1;
    }
    proof {
        assert forall|j: int| 0 <= j < lit@.len() implies s.take(lit@.len() as int)[j]
            == lit@[j] by {
            assert(s[j] == data@[pos + j]);
        }
        assert(s.take(lit@.len() as int) =~= lit@);
        assert(data@.skip(pos + lit@.len()) =~= s.skip(lit@.len() as int));
    }
    Some(pos + lit.len())
}

} // verus!
