//! A small JSON document model with a verified printer.
//!
//! `JsonV` is the mathematical shape of a document; `Json` is its executable
//! counterpart. `print_json` gives the canonical text of a document as a byte
//! sequence, and `encode_json` produces exactly that text.

use vstd::prelude::*;

verus! {

/// Mathematical JSON document: the value a text denotes.
#[verifier::ext_equal]
pub enum JsonV {
    Null,
    Bool(bool),
    Int(int),
    Str(Seq<u8>),
    Arr(Seq<JsonV>),
    Obj(Seq<(Seq<u8>, JsonV)>),
}

/// A document the printer can render: every integer fits in `i64`.
pub open spec fn wf_jsonv(j: JsonV) -> bool
    decreases j,
{
    match j {
        JsonV::Null => true,
        JsonV::Bool(_) => true,
        JsonV::Int(v) => i64::MIN <= v <= i64::MAX,
        JsonV::Str(_) => true,
        JsonV::Arr(es) => forall|i: int| 0 <= i < es.len() ==> wf_jsonv(#[trigger] es[i]),
        JsonV::Obj(ms) => forall|i: int| 0 <= i < ms.len() ==> wf_jsonv(#[trigger] ms[i].1),
    }
}

/// Executable JSON document. String contents and object keys are raw bytes
/// (the unescaped text between the quotes).
#[derive(Debug)]
pub enum Json {
    Null,
    Bool(bool),
    Int(i64),
    Str(Vec<u8>),
    Arr(Vec<Json>),
    Obj(Vec<(Vec<u8>, Json)>),
}

/// The document an executable value denotes.
pub open spec fn jview(j: Json) -> JsonV
    decreases j,
{
    match j {
        Json::Null => JsonV::Null,
        Json::Bool(b) => JsonV::Bool(b),
        Json::Int(v) => JsonV::Int(v as int),
        Json::Str(s) => JsonV::Str(s@),
        Json::Arr(es) => JsonV::Arr(jviews(es@)),
        Json::Obj(ms) => JsonV::Obj(mviews(ms@)),
    }
}

/// The documents a sequence of executable values denotes.
pub open spec fn jviews(es: Seq<Json>) -> Seq<JsonV>
    decreases es,
{
    if es.len() == 0 {
        Seq::empty()
    } else {
        seq![jview(es[0])] + jviews(es.drop_first())
    }
}

/// The members a sequence of executable key-value pairs denotes.
pub open spec fn mviews(ms: Seq<(Vec<u8>, Json)>) -> Seq<(Seq<u8>, JsonV)>
    decreases ms,
{
    if ms.len() == 0 {
        Seq::empty()
    } else {
        seq![(ms[0].0@, jview(ms[0].1))] + mviews(ms.drop_first())
    }
}

pub broadcast proof fn lemma_jviews(es: Seq<Json>)
    ensures
        (#[trigger] jviews(es)).len() == es.len(),
        forall|i: int| 0 <= i < es.len() ==> jviews(es)[i] == jview(es[i]),
    decreases es.len(),
{
    if es.len() > 0 {
        lemma_jviews(es.drop_first());
    }
}

pub broadcast proof fn lemma_mviews(ms: Seq<(Vec<u8>, Json)>)
    ensures
        (#[trigger] mviews(ms)).len() == ms.len(),
        forall|i: int| 0 <= i < ms.len() ==> mviews(ms)[i] == (ms[i].0@, jview(ms[i].1)),
    decreases ms.len(),
{
    if ms.len() > 0 {
        lemma_mviews(ms.drop_first());
    }
}

impl View for Json {
    type V = JsonV;

    open spec fn view(&self) -> JsonV {
        jview(*self)
    }
}

/// The bytes of an ASCII character sequence, one byte per character.
pub open spec fn ascii(s: Seq<char>) -> Seq<u8> {
    Seq::new(s.len(), |i: int| s[i] as u8)
}

/// Decimal digits of `n`, most significant first.
pub open spec fn dec_digits(n: nat) -> Seq<u8>
    decreases n,
{
    if n < 10 {
        seq![(48 + n) as u8]
    } else {
        dec_digits(n / 10).push((48 + n % 10) as u8)
    }
}

/// Canonical text of an integer: optional minus sign, then decimal digits.
pub open spec fn print_int(v: int) -> Seq<u8> {
    if v < 0 {
        seq![45u8] + dec_digits((-v) as nat)
    } else {
        dec_digits(v as nat)
    }
}

/// Lower-case hexadecimal digit for `n < 16`.
pub open spec fn hex_digit(n: nat) -> u8 {
    if n < 10 {
        (48 + n) as u8
    } else {
        (87 + n) as u8
    }
}

/// Escape of one string byte: quotes and backslashes get a two-byte escape,
/// control bytes a `\u00xx` escape, everything else stands as itself.
pub open spec fn esc_byte(b: u8) -> Seq<u8> {
    if b == 34 {
        seq![92u8, 34u8]
    } else if b == 92 {
        seq![92u8, 92u8]
    } else if b < 32 {
        seq![92u8, 117u8, 48u8, 48u8, hex_digit((b / 16) as nat), hex_digit((b % 16) as nat)]
    } else {
        seq![b]
    }
}

/// Escape of a whole string body.
pub open spec fn esc_bytes(s: Seq<u8>) -> Seq<u8>
    decreases s.len(),
{
    if s.len() == 0 {
        Seq::empty()
    } else {
        esc_byte(s[0]) + esc_bytes(s.drop_first())
    }
}

/// Canonical text of a string: the escaped body between double quotes.
pub open spec fn print_str(s: Seq<u8>) -> Seq<u8> {
    seq![34u8] + esc_bytes(s) + seq![34u8]
}

/// Canonical text of a document: no whitespace anywhere.
pub open spec fn print_json(j: JsonV) -> Seq<u8>
    decreases j, 1int,
{
    match j {
        JsonV::Null => ascii("null"@),
        JsonV::Bool(b) => if b {
            ascii("true"@)
        } else {
            ascii("false"@)
        },
        JsonV::Int(v) => print_int(v),
        JsonV::Str(s) => print_str(s),
        JsonV::Arr(es) => seq![91u8] + print_elems(es) + seq![93u8],
        JsonV::Obj(ms) => seq![123u8] + print_membs(ms) + seq![125u8],
    }
}

/// Comma-separated texts of array elements.
pub open spec fn print_elems(es: Seq<JsonV>) -> Seq<u8>
    decreases es, 0int,
{
    if es.len() == 0 {
        Seq::empty()
    } else if es.len() == 1 {
        print_json(es[0])
    } else {
        print_json(es[0]) + seq![44u8] + print_elems(es.drop_first())
    }
}

/// Comma-separated texts of object members, each `"key":value`.
pub open spec fn print_membs(ms: Seq<(Seq<u8>, JsonV)>) -> Seq<u8>
    decreases ms, 0int,
{
    if ms.len() == 0 {
        Seq::empty()
    } else if ms.len() == 1 {
        print_str(ms[0].0) + seq![58u8] + print_json(ms[0].1)
    } else {
        print_str(ms[0].0) + seq![58u8] + print_json(ms[0].1) + seq![44u8] + print_membs(
            ms.drop_first(),
        )
    }
}

/// JSON insignificant whitespace: space, tab, line feed, carriage return.
pub open spec fn is_ws(b: u8) -> bool {
    b == 32 || b == 9 || b == 10 || b == 13
}

/// ASCII decimal digit.
pub open spec fn is_digit(b: u8) -> bool {
    48 <= b <= 57
}

/// ASCII hexadecimal digit, either case.
pub open spec fn is_hex(b: u8) -> bool {
    is_digit(b) || (97 <= b <= 102) || (65 <= b <= 70)
}

/// Value of a hexadecimal digit.
pub open spec fn hex_val(b: u8) -> int {
    if is_digit(b) {
        b - 48
    } else if 97 <= b <= 102 {
        b - 87
    } else {
        b - 55
    }
}

/// First position at or after `pos` holding no whitespace.
pub open spec fn skip_ws(s: Seq<u8>, pos: int) -> int
    decreases s.len() - pos,
{
    if 0 <= pos < s.len() && is_ws(s[pos]) {
        skip_ws(s, pos + 1)
    } else {
        pos
    }
}

/// `skip_ws`, clamped below by `pos` so that progress is evident.
pub open spec fn wsp(s: Seq<u8>, pos: int) -> int {
    let q = skip_ws(s, pos);
    if q < pos {
        pos
    } else {
        q
    }
}

/// First position at or after `pos` holding no decimal digit.
pub open spec fn digits_end(s: Seq<u8>, pos: int) -> int
    decreases s.len() - pos,
{
    if 0 <= pos < s.len() && is_digit(s[pos]) {
        digits_end(s, pos + 1)
    } else {
        pos
    }
}

/// Numeric value of a run of decimal digits.
pub open spec fn dec_val(ds: Seq<u8>) -> int
    decreases ds.len(),
{
    if ds.len() == 0 {
        0
    } else {
        dec_val(ds.drop_last()) * 10 + (ds.last() - 48)
    }
}

/// Byte named by a one-character escape, if the character names one.
pub open spec fn unescape_simple(e: u8) -> Option<u8> {
    if e == 34 {
        Some(34u8)
    } else if e == 92 {
        Some(92u8)
    } else if e == 47 {
        Some(47u8)
    } else if e == 98 {
        Some(8u8)
    } else if e == 102 {
        Some(12u8)
    } else if e == 110 {
        Some(10u8)
    } else if e == 114 {
        Some(13u8)
    } else if e == 116 {
        Some(9u8)
    } else {
        None
    }
}

/// Parses a string body starting just after the opening quote; yields the
/// unescaped bytes and the position just after the closing quote.
pub open spec fn parse_str_body(s: Seq<u8>, pos: int) -> Option<(Seq<u8>, int)>
    decreases s.len() - pos,
{
    if pos < 0 || pos >= s.len() {
        None
    } else if s[pos] == 34 {
        Some((Seq::empty(), pos + 1))
    } else if s[pos] == 92 {
        if pos + 1 >= s.len() {
            None
        } else if s[pos + 1] == 117 {
            if pos + 6 <= s.len() && is_hex(s[pos + 2]) && is_hex(s[pos + 3]) && is_hex(s[pos + 4])
                && is_hex(s[pos + 5]) {
                let v = hex_val(s[pos + 2]) * 4096 + hex_val(s[pos + 3]) * 256 + hex_val(
                    s[pos + 4],
                ) * 16 + hex_val(s[pos + 5]);
                if v < 128 {
                    match parse_str_body(s, pos + 6) {
                        Some((cs, p2)) => Some((seq![v as u8] + cs, p2)),
                        None => None,
                    }
                } else {
                    None
                }
            } else {
                None
            }
        } else {
            match unescape_simple(s[pos + 1]) {
                Some(cb) => match parse_str_body(s, pos + 2) {
                    Some((cs, p2)) => Some((seq![cb] + cs, p2)),
                    None => None,
                },
                None => None,
            }
        }
    } else if s[pos] >= 32 {
        match parse_str_body(s, pos + 1) {
            Some((cs, p2)) => Some((seq![s[pos]] + cs, p2)),
            None => None,
        }
    } else {
        None
    }
}

/// Parses one JSON value, skipping leading whitespace; yields the value and
/// the position just after its text.
pub open spec fn parse_value(s: Seq<u8>, pos: int) -> Option<(JsonV, int)>
    decreases s.len() - pos, 1int,
{
    let p = wsp(s, pos);
    if p >= s.len() {
        None
    } else if s[p] == 110 {  // 'n'
        if s.len() - p >= 4 && s[p + 1] == 117 && s[p + 2] == 108 && s[p + 3] == 108 {
            Some((JsonV::Null, p + 4))
        } else {
            None
        }
    } else if s[p] == 116 {  // 't'
        if s.len() - p >= 4 && s[p + 1] == 114 && s[p + 2] == 117 && s[p + 3] == 101 {
            Some((JsonV::Bool(true), p + 4))
        } else {
            None
        }
    } else if s[p] == 102 {  // 'f'
        if s.len() - p >= 5 && s[p + 1] == 97 && s[p + 2] == 108 && s[p + 3] == 115 && s[p + 4]
            == 101 {
            Some((JsonV::Bool(false), p + 5))
        } else {
            None
        }
    } else if s[p] == 34 {  // '"'
        match parse_str_body(s, p + 1) {
            Some((cs, p2)) => Some((JsonV::Str(cs), p2)),
            None => None,
        }
    } else if s[p] == 45 || is_digit(s[p]) {  // number
        let neg = s[p] == 45;
        let d0 = if neg {
            p + 1
        } else {
            p
        };
        let dend = digits_end(s, d0);
        if dend == d0 {
            None
        } else if s[d0] == 48 && dend > d0 + 1 {
            None  // leading zero
        } else {
            let m = dec_val(s.subrange(d0, dend));
            let v: int = if neg {
                -m
            } else {
                m
            };
            if i64::MIN <= v <= i64::MAX {
                Some((JsonV::Int(v), dend))
            } else {
                None
            }
        }
    } else if s[p] == 91 {  // '['
        let q = wsp(s, p + 1);
        if q < s.len() && s[q] == 93 {
            Some((JsonV::Arr(Seq::empty()), q + 1))
        } else {
            match parse_elems(s, p + 1) {
                Some((es, p2)) => Some((JsonV::Arr(es), p2)),
                None => None,
            }
        }
    } else if s[p] == 123 {  // '{'
        let q = wsp(s, p + 1);
        if q < s.len() && s[q] == 125 {
            Some((JsonV::Obj(Seq::empty()), q + 1))
        } else {
            match parse_membs(s, p + 1) {
                Some((ms, p2)) => Some((JsonV::Obj(ms), p2)),
                None => None,
            }
        }
    } else {
        None
    }
}

/// Parses a non-empty comma-separated element list and its closing bracket.
pub open spec fn parse_elems(s: Seq<u8>, pos: int) -> Option<(Seq<JsonV>, int)>
    decreases s.len() - pos, 2int,
{
    match parse_value(s, pos) {
        Some((v, p2)) => {
            if p2 <= pos || p2 > s.len() {
                None
            } else {
                let q = wsp(s, p2);
                if q < s.len() && s[q] == 44 {  // ','
                    match parse_elems(s, q + 1) {
                        Some((es, p3)) => Some((seq![v] + es, p3)),
                        None => None,
                    }
                } else if q < s.len() && s[q] == 93 {  // ']'
                    Some((seq![v], q + 1))
                } else {
                    None
                }
            }
        },
        None => None,
    }
}

/// Parses a non-empty comma-separated member list and its closing brace.
pub open spec fn parse_membs(s: Seq<u8>, pos: int) -> Option<(Seq<(Seq<u8>, JsonV)>, int)>
    decreases s.len() - pos, 2int,
{
    let p = wsp(s, pos);
    if p >= s.len() || s[p] != 34 {
        None
    } else {
        match parse_str_body(s, p + 1) {
            Some((k, p2)) => {
                if p2 <= pos || p2 > s.len() {
                    None
                } else {
                    let c = wsp(s, p2);
                    if c < s.len() && s[c] == 58 {  // ':'
                        match parse_value(s, c + 1) {
                            Some((v, p3)) => {
                                if p3 <= pos || p3 > s.len() {
                                    None
                                } else {
                                    let q = wsp(s, p3);
                                    if q < s.len() && s[q] == 44 {  // ','
                                        match parse_membs(s, q + 1) {
                                            Some((ms, p4)) => Some((seq![(k, v)] + ms, p4)),
                                            None => None,
                                        }
                                    } else if q < s.len() && s[q] == 125 {  // '}'
                                        Some((seq![(k, v)], q + 1))
                                    } else {
                                        None
                                    }
                                }
                            },
                            None => None,
                        }
                    } else {
                        None
                    }
                }
            },
            None => None,
        }
    }
}

/// Parses a whole document: one value, with only whitespace around it.
pub open spec fn parse_doc(s: Seq<u8>) -> Option<JsonV> {
    match parse_value(s, 0) {
        Some((j, p)) => if wsp(s, p) == s.len() {
            Some(j)
        } else {
            None
        },
        None => None,
    }
}

/// Appends the decimal digits of `n`.
fn encode_u64(n: u64, out: &mut Vec<u8>)
    ensures
        final(out)@ == old(out)@ + dec_digits(n as nat),
    decreases n,
{
    if n < 10 {
        out.push((48 + n) as u8);
        assert(out@ =~= old(out)@ + dec_digits(n as nat));
    } else {
        encode_u64(n / 10, out);
        out.push((48 + n % 10) as u8);
        assert(out@ =~= old(out)@ + dec_digits(n as nat));
    }
}

/// Appends the canonical text of `v`.
fn encode_i64(v: i64, out: &mut Vec<u8>)
    ensures
        final(out)@ == old(out)@ + print_int(v as int),
{
    if v < 0 {
        out.push(45u8);
        let mag: u64 = if v == i64::MIN {
            9223372036854775808u64
        } else {
            (-v) as u64
        };
        encode_u64(mag, out);
        assert(out@ =~= old(out)@ + print_int(v as int));
    } else {
        encode_u64(v as u64, out);
    }
}

/// Appends the escaped form of the string bytes `s[i..]`.
fn encode_str_tail(s: &Vec<u8>, i: usize, out: &mut Vec<u8>)
    requires
        i <= s@.len(),
    ensures
        final(out)@ == old(out)@ + esc_bytes(s@.skip(i as int)),
    decreases s@.len() - i,
{
    if i == s.len() {
        assert(out@ =~= old(out)@ + esc_bytes(s@.skip(i as int)));
    } else {
        let b = s[i];
        if b == 34 {
            out.push(92u8);
            out.push(34u8);
        } else if b == 92 {
            out.push(92u8);
            out.push(92u8);
        } else if b < 32 {
            out.push(92u8);
            out.push(117u8);
            out.push(48u8);
            out.push(48u8);
            let hi = b / 16;
            let lo = b % 16;
            out.push(if hi < 10 { 48 + hi } else { 87 + hi });
            out.push(if lo < 10 { 48 + lo } else { 87 + lo });
        } else {
            out.push(b);
        }
        assert(out@ =~= old(out)@ + esc_byte(s@[i as int]));
        let ghost mid = out@;
        encode_str_tail(s, i + 1, out);
        proof {
            assert(s@.skip(i as int).drop_first() =~= s@.skip(i as int + 1));
            assert(s@.skip(i as int)[0] == s@[i as int]);
            assert(out@ =~= old(out)@ + esc_bytes(s@.skip(i as int)));
        }
    }
}

/// Appends the canonical text of the string whose bytes are `s`.
fn encode_str(s: &Vec<u8>, out: &mut Vec<u8>)
    ensures
        final(out)@ == old(out)@ + print_str(s@),
{
    out.push(34u8);
    encode_str_tail(s, 0, out);
    out.push(34u8);
    proof {
        assert(s@.skip(0) =~= s@);
        assert(out@ =~= old(out)@ + print_str(s@));
    }
}

/// Appends the canonical text of `j`.
pub fn encode_json(j: &Json, out: &mut Vec<u8>)
    ensures
        final(out)@ == old(out)@ + print_json(j@),
    decreases j,
{
    match j {
        Json::Null => {
            out.push(110u8);
            out.push(117u8);
            out.push(108u8);
            out.push(108u8);
            proof {
                reveal_strlit("null");
                assert(out@ =~= old(out)@ + ascii("null"@));
            }
        },
        Json::Bool(b) => {
            if *b {
                out.push(116u8);
                out.push(114u8);
                out.push(117u8);
                out.push(101u8);
                proof {
                    reveal_strlit("true");
                    assert(out@ =~= old(out)@ + ascii("true"@));
                }
            } else {
                out.push(102u8);
                out.push(97u8);
                out.push(108u8);
                out.push(115u8);
                out.push(101u8);
                proof {
                    reveal_strlit("false");
                    assert(out@ =~= old(out)@ + ascii("false"@));
                }
            }
        },
        Json::Int(v) => {
            encode_i64(*v, out);
        },
        Json::Str(s) => {
            encode_str(s, out);
        },
        Json::Arr(es) => {
            out.push(91u8);
            encode_elems(es, 0, out);
            out.push(93u8);
            proof {
                assert(es@.skip(0) =~= es@);
                assert(out@ =~= old(out)@ + print_json(j@));
            }
        },
        Json::Obj(ms) => {
            out.push(123u8);
            encode_membs(ms, 0, out);
            out.push(125u8);
            proof {
                assert(ms@.skip(0) =~= ms@);
                assert(out@ =~= old(out)@ + print_json(j@));
            }
        },
    }
}

/// Appends the comma-separated texts of the elements `es[i..]`.
fn encode_elems(es: &Vec<Json>, i: usize, out: &mut Vec<u8>)
    requires
        i <= es@.len(),
    ensures
        final(out)@ == old(out)@ + print_elems(jviews(es@.skip(i as int))),
    decreases es, es@.len() - i,
{
    broadcast use lemma_jviews;

    if i == es.len() {
        assert(out@ =~= old(out)@ + print_elems(jviews(es@.skip(i as int))));
    } else {
        encode_json(&es[i], out);
        if i + 1 < es.len() {
            out.push(44u8);
        }
        encode_elems(es, i + 1, out);
        proof {
            let tail = es@.skip(i as int);
            assert(tail.drop_first() =~= es@.skip(i as int + 1));
            assert(jviews(tail)[0] == jview(es@[i as int]));
            assert(jviews(tail).drop_first() =~= jviews(tail.drop_first())) by {
                assert(forall|k: int|
                    0 <= k < tail.drop_first().len() ==> jviews(tail).drop_first()[k] == jviews(
                        tail.drop_first(),
                    )[k]);
            }
            assert(out@ =~= old(out)@ + print_elems(jviews(es@.skip(i as int))));
        }
    }
}

/// Appends the comma-separated texts of the members `ms[i..]`.
fn encode_membs(ms: &Vec<(Vec<u8>, Json)>, i: usize, out: &mut Vec<u8>)
    requires
        i <= ms@.len(),
    ensures
        final(out)@ == old(out)@ + print_membs(mviews(ms@.skip(i as int))),
    decreases ms, ms@.len() - i,
{
    broadcast use lemma_mviews;

    if i == ms.len() {
        assert(out@ =~= old(out)@ + print_membs(mviews(ms@.skip(i as int))));
    } else {
        encode_str(&ms[i].0, out);
        out.push(58u8);
        encode_json(&ms[i].1, out);
        if i + 1 < ms.len() {
            out.push(44u8);
        }
        encode_membs(ms, i + 1, out);
        proof {
            let tail = ms@.skip(i as int);
            assert(tail.drop_first() =~= ms@.skip(i as int + 1));
            assert(mviews(tail)[0] == (ms@[i as int].0@, jview(ms@[i as int].1)));
            assert(mviews(tail).drop_first() =~= mviews(tail.drop_first())) by {
                assert(forall|k: int|
                    0 <= k < tail.drop_first().len() ==> mviews(tail).drop_first()[k] == mviews(
                        tail.drop_first(),
                    )[k]);
            }
            assert(out@ =~= old(out)@ + print_membs(mviews(ms@.skip(i as int))));
        }
    }
}

/// `t` is the text of `s` from `pos` on.
pub open spec fn seg(s: Seq<u8>, pos: int, t: Seq<u8>) -> bool {
    0 <= pos && pos + t.len() <= s.len() && s.subrange(pos, pos + t.len() as int) == t
}

proof fn lemma_seg_split(s: Seq<u8>, pos: int, a: Seq<u8>, b: Seq<u8>)
    requires
        seg(s, pos, a + b),
    ensures
        seg(s, pos, a),
        seg(s, pos + a.len(), b),
{
    assert(s.subrange(pos, pos + a.len() as int) =~= (a + b).subrange(0, a.len() as int));
    assert((a + b).subrange(0, a.len() as int) =~= a);
    assert(s.subrange(pos + a.len(), pos + a.len() + b.len() as int) =~= (a + b).subrange(
        a.len() as int,
        (a + b).len() as int,
    ));
    assert((a + b).subrange(a.len() as int, (a + b).len() as int) =~= b);
}

proof fn lemma_seg_index(s: Seq<u8>, pos: int, t: Seq<u8>, i: int)
    requires
        seg(s, pos, t),
        0 <= i < t.len(),
    ensures
        s[pos + i] == t[i],
{
    assert(t[i] == s.subrange(pos, pos + t.len() as int)[i]);
}

/// Ten to the `n`.
pub open spec fn pow10(n: nat) -> int
    decreases n,
{
    if n == 0 {
        1
    } else {
        10 * pow10((n - 1) as nat)
    }
}

/// Every byte of `ds` is a decimal digit.
pub open spec fn all_digits(ds: Seq<u8>) -> bool {
    forall|i: int| 0 <= i < ds.len() ==> is_digit(#[trigger] ds[i])
}

proof fn lemma_pow10_mono(a: nat, b: nat)
    requires
        a <= b,
    ensures
        pow10(a) <= pow10(b),
        pow10(a) >= 1,
    decreases b,
{
    if b > 0 {
        if a == b {
            lemma_pow10_mono((a - 1) as nat, (b - 1) as nat);
        } else {
            lemma_pow10_mono(a, (b - 1) as nat);
        }
    }
}

proof fn lemma_dec_val_bounds(ds: Seq<u8>)
    requires
        all_digits(ds),
    ensures
        0 <= dec_val(ds) < pow10(ds.len()),
    decreases ds.len(),
{
    if ds.len() > 0 {
        assert(all_digits(ds.drop_last()));
        lemma_dec_val_bounds(ds.drop_last());
    }
}

proof fn lemma_dec_val_lower(ds: Seq<u8>)
    requires
        all_digits(ds),
        ds.len() >= 1,
        ds[0] != 48,
    ensures
        dec_val(ds) >= pow10((ds.len() - 1) as nat),
    decreases ds.len(),
{
    if ds.len() == 1 {
    } else {
        assert(all_digits(ds.drop_last()));
        assert(ds.drop_last()[0] == ds[0]);
        lemma_dec_val_lower(ds.drop_last());
        lemma_dec_val_bounds(ds.drop_last());
        assert(dec_val(ds) == dec_val(ds.drop_last()) * 10 + (ds.last() - 48));
    }
}

proof fn lemma_digits_end(s: Seq<u8>, pos: int)
    requires
        0 <= pos <= s.len(),
    ensures
        pos <= digits_end(s, pos) <= s.len(),
        forall|i: int| pos <= i < digits_end(s, pos) ==> is_digit(#[trigger] s[i]),
        digits_end(s, pos) == s.len() || !is_digit(s[digits_end(s, pos)]),
    decreases s.len() - pos,
{
    if pos < s.len() && is_digit(s[pos]) {
        lemma_digits_end(s, pos + 1);
    }
}

/// Position just after any whitespace at `pos`.
fn ws_end(s: &Vec<u8>, pos: usize) -> (r: usize)
    requires
        pos <= s@.len(),
    ensures
        r as int == skip_ws(s@, pos as int),
        r as int == wsp(s@, pos as int),
        pos <= r <= s@.len(),
    decreases s@.len() - pos,
{
    if pos < s.len() && (s[pos] == 32 || s[pos] == 9 || s[pos] == 10 || s[pos] == 13) {
        ws_end(s, pos + 1)
    } else {
        pos
    }
}

/// Position just after any run of decimal digits at `pos`.
fn digits_end_exec(s: &Vec<u8>, pos: usize) -> (r: usize)
    requires
        pos <= s@.len(),
    ensures
        r as int == digits_end(s@, pos as int),
        pos <= r <= s@.len(),
    decreases s@.len() - pos,
{
    if pos < s.len() && 48 <= s[pos] && s[pos] <= 57 {
        digits_end_exec(s, pos + 1)
    } else {
        pos
    }
}

/// Numeric value of the digit run `s[d0..k]`; the run is short enough to fit.
fn dec_val_u64(s: &Vec<u8>, d0: usize, k: usize) -> (r: u64)
    requires
        d0 <= k <= s@.len(),
        k - d0 <= 19,
        forall|i: int| d0 <= i < k ==> is_digit(#[trigger] s@[i]),
    ensures
        r as int == dec_val(s@.subrange(d0 as int, k as int)),
    decreases k - d0,
{
    proof {
        assert(all_digits(s@.subrange(d0 as int, k as int)));
        lemma_dec_val_bounds(s@.subrange(d0 as int, k as int));
        lemma_pow10_mono((k - d0) as nat, 19);
        assert(pow10(19) == 10000000000000000000) by {
            reveal_with_fuel(pow10, 21);
        }
    }
    if k == d0 {
        assert(s@.subrange(d0 as int, k as int).len() == 0);
        0
    } else {
        let hi = dec_val_u64(s, d0, k - 1);
        proof {
            assert(all_digits(s@.subrange(d0 as int, k as int - 1)));
            lemma_dec_val_bounds(s@.subrange(d0 as int, k as int - 1));
            lemma_pow10_mono((k - d0 - 1) as nat, 18);
            assert(pow10(18) == 1000000000000000000) by {
                reveal_with_fuel(pow10, 21);
            }
            assert(s@.subrange(d0 as int, k as int).drop_last() =~= s@.subrange(
                d0 as int,
                k as int - 1,
            ));
            assert(s@.subrange(d0 as int, k as int).last() == s@[k as int - 1]);
        }
        hi * 10 + (s[k - 1] - 48) as u64
    }
}

/// Value of one hexadecimal digit byte.
fn hexv(b: u8) -> (r: u8)
    requires
        is_hex(b),
    ensures
        r as int == hex_val(b),
{
    if b <= 57 {
        b - 48
    } else if b >= 97 {
        b - 87
    } else {
        b - 55
    }
}

/// Decodes a string body starting just after the opening quote, appending the
/// unescaped bytes to `acc`; returns the position just after the closing quote.
fn parse_str_body_exec(s: &Vec<u8>, pos: usize, acc: &mut Vec<u8>) -> (r: Option<usize>)
    requires
        pos <= s@.len(),
    ensures
        ({
            let sp = parse_str_body(s@, pos as int);
            match r {
                Some(p2) => sp matches Some((cs, q)) && final(acc)@ == old(acc)@ + cs && p2 as int
                    == q && pos < p2 <= s@.len(),
                None => sp is None,
            }
        }),
    decreases s@.len() - pos,
{
    if pos >= s.len() {
        None
    } else if s[pos] == 34 {
        assert(acc@ =~= acc@ + Seq::<u8>::empty());
        Some(pos + 1)
    } else if s[pos] == 92 {
        if pos + 1 >= s.len() {
            None
        } else if s[pos + 1] == 117 {
            if s.len() - pos >= 6 && is_hex_exec(s[pos + 2]) && is_hex_exec(s[pos + 3])
                && is_hex_exec(s[pos + 4]) && is_hex_exec(s[pos + 5]) {
                let v: u32 = (hexv(s[pos + 2]) as u32) * 4096 + (hexv(s[pos + 3]) as u32) * 256 + (
                hexv(s[pos + 4]) as u32) * 16 + (hexv(s[pos + 5]) as u32);
                if v < 128 {
                    acc.push(v as u8);
                    let ghost mid = acc@;
                    let r2 = parse_str_body_exec(s, pos + 6, acc);
                    proof {
                        if r2 is Some {
                            let (cs, q) = parse_str_body(s@, pos as int + 6)->Some_0;
                            assert(acc@ =~= old(acc)@ + (seq![v as u8] + cs));
                        }
                    }
                    match r2 {
                        Some(p2) => Some(p2),
                        None => None,
                    }
                } else {
                    None
                }
            } else {
                None
            }
        } else {
            let e = s[pos + 1];
            let cb: u8 = if e == 34 {
                34u8
            } else if e == 92 {
                92u8
            } else if e == 47 {
                47u8
            } else if e == 98 {
                8u8
            } else if e == 102 {
                12u8
            } else if e == 110 {
                10u8
            } else if e == 114 {
                13u8
            } else if e == 116 {
                9u8
            } else {
                return None;
            };
            acc.push(cb);
            let r2 = parse_str_body_exec(s, pos + 2, acc);
            proof {
                if r2 is Some {
                    let (cs, q) = parse_str_body(s@, pos as int + 2)->Some_0;
                    assert(acc@ =~= old(acc)@ + (seq![cb] + cs));
                }
            }
            match r2 {
                Some(p2) => Some(p2),
                None => None,
            }
        }
    } else if s[pos] >= 32 {
        let b = s[pos];
        acc.push(b);
        let r2 = parse_str_body_exec(s, pos + 1, acc);
        proof {
            if r2 is Some {
                let (cs, q) = parse_str_body(s@, pos as int + 1)->Some_0;
                assert(acc@ =~= old(acc)@ + (seq![b] + cs));
            }
        }
        match r2 {
            Some(p2) => Some(p2),
            None => None,
        }
    } else {
        None
    }
}

/// Executable test for a hexadecimal digit byte.
fn is_hex_exec(b: u8) -> (r: bool)
    ensures
        r == is_hex(b),
{
    (48 <= b && b <= 57) || (97 <= b && b <= 102) || (65 <= b && b <= 70)
}

proof fn lemma_jviews_append(a: Seq<Json>, b: Seq<Json>)
    ensures
        jviews(a + b) == jviews(a) + jviews(b),
    decreases a.len(),
{
    if a.len() == 0 {
        assert(a + b =~= b);
        assert(jviews(a + b) =~= jviews(a) + jviews(b));
    } else {
        assert((a + b).drop_first() =~= a.drop_first() + b);
        assert((a + b)[0] == a[0]);
        lemma_jviews_append(a.drop_first(), b);
        assert(jviews(a + b) =~= jviews(a) + jviews(b));
    }
}

proof fn lemma_mviews_append(a: Seq<(Vec<u8>, Json)>, b: Seq<(Vec<u8>, Json)>)
    ensures
        mviews(a + b) == mviews(a) + mviews(b),
    decreases a.len(),
{
    if a.len() == 0 {
        assert(a + b =~= b);
        assert(mviews(a + b) =~= mviews(a) + mviews(b));
    } else {
        assert((a + b).drop_first() =~= a.drop_first() + b);
        assert((a + b)[0] == a[0]);
        lemma_mviews_append(a.drop_first(), b);
        assert(mviews(a + b) =~= mviews(a) + mviews(b));
    }
}

/// Decodes one JSON value starting at `pos`, skipping leading whitespace.
pub fn parse_value_exec(s: &Vec<u8>, pos: usize) -> (r: Option<(Json, usize)>)
    requires
        pos <= s@.len(),
    ensures
        ({
            let sp = parse_value(s@, pos as int);
            match r {
                Some(jp) => sp == Some((jp.0@, jp.1 as int)) && pos < jp.1 <= s@.len(),
                None => sp is None,
            }
        }),
    decreases s@.len() - pos, 1int,
{
    let p = ws_end(s, pos);
    if p >= s.len() {
        None
    } else if s[p] == 110 {
        if s.len() - p >= 4 && s[p + 1] == 117 && s[p + 2] == 108 && s[p + 3] == 108 {
            Some((Json::Null, p + 4))
        } else {
            None
        }
    } else if s[p] == 116 {
        if s.len() - p >= 4 && s[p + 1] == 114 && s[p + 2] == 117 && s[p + 3] == 101 {
            Some((Json::Bool(true), p + 4))
        } else {
            None
        }
    } else if s[p] == 102 {
        if s.len() - p >= 5 && s[p + 1] == 97 && s[p + 2] == 108 && s[p + 3] == 115 && s[p + 4]
            == 101 {
            Some((Json::Bool(false), p + 5))
        } else {
            None
        }
    } else if s[p] == 34 {
        let mut body: Vec<u8> = Vec::new();
        match parse_str_body_exec(s, p + 1, &mut body) {
            Some(p2) => {
                proof {
                    let (cs, q) = parse_str_body(s@, p as int + 1)->Some_0;
                    assert(body@ =~= cs);
                }
                Some((Json::Str(body), p2))
            },
            None => None,
        }
    } else if s[p] == 45 || (48 <= s[p] && s[p] <= 57) {
        let neg = s[p] == 45;
        let d0 = if neg {
            p + 1
        } else {
            p
        };
        let dend = digits_end_exec(s, d0);
        proof {
            lemma_digits_end(s@, d0 as int);
        }
        if dend == d0 {
            None
        } else if s[d0] == 48 && dend > d0 + 1 {
            None
        } else if dend - d0 > 19 {
            proof {
                let ds = s@.subrange(d0 as int, dend as int);
                assert(all_digits(ds));
                assert(ds[0] == s@[d0 as int]);
                if ds[0] == 48 {
                    assert(false);
                }
                lemma_dec_val_lower(ds);
                lemma_pow10_mono(19, (ds.len() - 1) as nat);
                assert(pow10(19) == 10000000000000000000) by {
                    reveal_with_fuel(pow10, 21);
                }
            }
            None
        } else {
            let m = dec_val_u64(s, d0, dend);
            if neg {
                if m > 9223372036854775808u64 {
                    None
                } else {
                    let v: i64 = if m == 9223372036854775808u64 {
                        i64::MIN
                    } else {
                        -(m as i64)
                    };
                    Some((Json::Int(v), dend))
                }
            } else {
                if m > 9223372036854775807u64 {
                    None
                } else {
                    Some((Json::Int(m as i64), dend))
                }
            }
        }
    } else if s[p] == 91 {
        let q = ws_end(s, p + 1);
        if q < s.len() && s[q] == 93 {
            Some((Json::Arr(Vec::new()), q + 1))
        } else {
            let mut elems: Vec<Json> = Vec::new();
            match parse_elems_exec(s, p + 1, &mut elems) {
                Some(p2) => {
                    proof {
                        let (es, q2) = parse_elems(s@, p as int + 1)->Some_0;
                        assert(jviews(Seq::<Json>::empty()) + es =~= es);
                    }
                    Some((Json::Arr(elems), p2))
                },
                None => None,
            }
        }
    } else if s[p] == 123 {
        let q = ws_end(s, p + 1);
        if q < s.len() && s[q] == 125 {
            Some((Json::Obj(Vec::new()), q + 1))
        } else {
            let mut membs: Vec<(Vec<u8>, Json)> = Vec::new();
            match parse_membs_exec(s, p + 1, &mut membs) {
                Some(p2) => {
                    proof {
                        let (ms, q2) = parse_membs(s@, p as int + 1)->Some_0;
                        assert(mviews(Seq::<(Vec<u8>, Json)>::empty()) + ms =~= ms);
                    }
                    Some((Json::Obj(membs), p2))
                },
                None => None,
            }
        }
    } else {
        None
    }
}

/// Decodes a non-empty element list and its closing bracket, appending the
/// elements to `acc`.
fn parse_elems_exec(s: &Vec<u8>, pos: usize, acc: &mut Vec<Json>) -> (r: Option<usize>)
    requires
        pos <= s@.len(),
    ensures
        ({
            let sp = parse_elems(s@, pos as int);
            match r {
                Some(p2) => sp matches Some((es, q)) && jviews(final(acc)@) == jviews(old(acc)@)
                    + es && p2 as int == q && pos < p2 <= s@.len(),
                None => sp is None,
            }
        }),
    decreases s@.len() - pos, 2int,
{
    match parse_value_exec(s, pos) {
        Some(jp) => {
            let (j, p2) = jp;
            let ghost jv = j@;
            acc.push(j);
            proof {
                lemma_jviews_append(old(acc)@, seq![acc@.last()]);
                assert(acc@ =~= old(acc)@ + seq![acc@.last()]);
                assert(jviews(seq![acc@.last()]) =~= seq![jv]) by {
                    assert(seq![acc@.last()].drop_first() =~= Seq::<Json>::empty());
                    assert(jviews(Seq::<Json>::empty()) =~= Seq::<JsonV>::empty());
                    assert(seq![acc@.last()][0] == acc@.last());
                }
            }
            let q = ws_end(s, p2);
            if q < s.len() && s[q] == 44 {
                let ghost mid = acc@;
                let r2 = parse_elems_exec(s, q + 1, acc);
                proof {
                    if r2 is Some {
                        let (es, p3) = parse_elems(s@, q as int + 1)->Some_0;
                        assert(jviews(acc@) =~= jviews(old(acc)@) + (seq![jv] + es));
                    }
                }
                match r2 {
                    Some(p3) => Some(p3),
                    None => None,
                }
            } else if q < s.len() && s[q] == 93 {
                proof {
                    assert(jviews(acc@) =~= jviews(old(acc)@) + seq![jv]);
                }
                Some(q + 1)
            } else {
                None
            }
        },
        None => None,
    }
}

/// Decodes a non-empty member list and its closing brace, appending the
/// members to `acc`.
fn parse_membs_exec(s: &Vec<u8>, pos: usize, acc: &mut Vec<(Vec<u8>, Json)>) -> (r: Option<usize>)
    requires
        pos <= s@.len(),
    ensures
        ({
            let sp = parse_membs(s@, pos as int);
            match r {
                Some(p2) => sp matches Some((ms, q)) && mviews(final(acc)@) == mviews(old(acc)@)
                    + ms && p2 as int == q && pos < p2 <= s@.len(),
                None => sp is None,
            }
        }),
    decreases s@.len() - pos, 2int,
{
    let p = ws_end(s, pos);
    if p >= s.len() {
        None
    } else if s[p] != 34 {
        None
    } else {
        let mut key: Vec<u8> = Vec::new();
        match parse_str_body_exec(s, p + 1, &mut key) {
            Some(p2) => {
                proof {
                    let (cs, q0) = parse_str_body(s@, p as int + 1)->Some_0;
                    assert(key@ =~= cs);
                }
                let c = ws_end(s, p2);
                if c < s.len() && s[c] == 58 {
                    match parse_value_exec(s, c + 1) {
                        Some(jp) => {
                            let (j, p3) = jp;
                            let ghost gk = key@;
                            let ghost gj = j@;
                            acc.push((key, j));
                            proof {
                                lemma_mviews_append(old(acc)@, seq![acc@.last()]);
                                assert(acc@ =~= old(acc)@ + seq![acc@.last()]);
                                assert(mviews(seq![acc@.last()]) =~= seq![(gk, gj)]) by {
                                    assert(seq![acc@.last()].drop_first() =~= Seq::<(
                                        Vec<u8>,
                                        Json,
                                    )>::empty());
                                    assert(mviews(Seq::<(Vec<u8>, Json)>::empty()) =~= Seq::<(
                                        Seq<u8>,
                                        JsonV,
                                    )>::empty());
                                    assert(seq![acc@.last()][0] == acc@.last());
                                }
                            }
                            let q = ws_end(s, p3);
                            if q < s.len() && s[q] == 44 {
                                let r2 = parse_membs_exec(s, q + 1, acc);
                                proof {
                                    if r2 is Some {
                                        let (ms, p4) = parse_membs(s@, q as int + 1)->Some_0;
                                        assert(mviews(acc@) =~= mviews(old(acc)@) + (seq![(gk, gj)]
                                            + ms));
                                    }
                                }
                                match r2 {
                                    Some(p4) => Some(p4),
                                    None => None,
                                }
                            } else if q < s.len() && s[q] == 125 {
                                proof {
                                    assert(mviews(acc@) =~= mviews(old(acc)@) + seq![(gk, gj)]);
                                }
                                Some(q + 1)
                            } else {
                                None
                            }
                        },
                        None => None,
                    }
                } else {
                    None
                }
            },
            None => None,
        }
    }
}

proof fn lemma_dec_digits_all(n: nat)
    ensures
        dec_digits(n).len() >= 1,
        all_digits(dec_digits(n)),
        n == 0 ==> dec_digits(n) =~= seq![48u8],
        n > 0 ==> dec_digits(n)[0] != 48,
    decreases n,
{
    if n >= 10 {
        lemma_dec_digits_all(n / 10);
        assert(dec_digits(n) == dec_digits(n / 10).push((48 + n % 10) as u8));
        assert(dec_digits(n)[0] == dec_digits(n / 10)[0]);
    }
}

proof fn lemma_dec_val_digits(n: nat)
    ensures
        dec_val(dec_digits(n)) == n,
    decreases n,
{
    if n < 10 {
        assert(dec_digits(n) =~= seq![(48 + n) as u8]);
        assert(dec_digits(n).drop_last() =~= Seq::<u8>::empty());
        assert(dec_val(Seq::<u8>::empty()) == 0);
        assert(dec_digits(n).last() == (48 + n) as u8);
    } else {
        lemma_dec_val_digits(n / 10);
        assert(dec_digits(n).drop_last() =~= dec_digits(n / 10));
        assert(dec_digits(n).last() == (48 + n % 10) as u8);
    }
}

proof fn lemma_digits_end_exact(s: Seq<u8>, d0: int, e: int)
    requires
        0 <= d0 <= e <= s.len(),
        forall|i: int| d0 <= i < e ==> is_digit(#[trigger] s[i]),
        e == s.len() || !is_digit(s[e]),
    ensures
        digits_end(s, d0) == e,
    decreases e - d0,
{
    if d0 < e {
        lemma_digits_end_exact(s, d0 + 1, e);
    }
}

/// The first byte of a printed value: never whitespace and never one of the
/// delimiters a composite parse looks for.
proof fn lemma_print_first(j: JsonV)
    requires
        wf_jsonv(j),
    ensures
        print_json(j).len() >= 1,
        !is_ws(print_json(j)[0]),
        print_json(j)[0] != 93,
        print_json(j)[0] != 125,
        print_json(j)[0] != 44,
        print_json(j)[0] != 58,
{
    match j {
        JsonV::Null => {
            reveal_strlit("null");
            assert(print_json(j)[0] == 110);
        },
        JsonV::Bool(b) => {
            if b {
                reveal_strlit("true");
                assert(print_json(j)[0] == 116);
            } else {
                reveal_strlit("false");
                assert(print_json(j)[0] == 102);
            }
        },
        JsonV::Int(v) => {
            if v < 0 {
                assert(print_json(j)[0] == 45);
            } else {
                lemma_dec_digits_all(v as nat);
                assert(print_json(j)[0] == dec_digits(v as nat)[0]);
                assert(is_digit(print_json(j)[0]));
            }
        },
        JsonV::Str(cs) => {
            assert(print_json(j)[0] == 34);
        },
        JsonV::Arr(es) => {
            assert(print_json(j)[0] == 91);
        },
        JsonV::Obj(ms) => {
            assert(print_json(j)[0] == 123);
        },
    }
}

proof fn lemma_rt_str(s: Seq<u8>, pos: int, cs: Seq<u8>)
    requires
        seg(s, pos, esc_bytes(cs) + seq![34u8]),
    ensures
        parse_str_body(s, pos) == Some((cs, pos + esc_bytes(cs).len() + 1)),
    decreases cs.len(),
{
    if cs.len() == 0 {
        assert(esc_bytes(cs) + seq![34u8] =~= seq![34u8]);
        lemma_seg_index(s, pos, seq![34u8], 0);
    } else {
        let b = cs[0];
        let e0 = esc_byte(b);
        let rest = esc_bytes(cs.drop_first()) + seq![34u8];
        assert(esc_bytes(cs) + seq![34u8] =~= e0 + rest);
        lemma_seg_split(s, pos, e0, rest);
        let pos2 = pos + e0.len();
        lemma_rt_str(s, pos2, cs.drop_first());
        if b == 34 {
            lemma_seg_index(s, pos, e0, 0);
            lemma_seg_index(s, pos, e0, 1);
            assert(seq![34u8] + cs.drop_first() =~= cs);
        } else if b == 92 {
            lemma_seg_index(s, pos, e0, 0);
            lemma_seg_index(s, pos, e0, 1);
            assert(unescape_simple(92) == Some(92u8));
            assert(seq![92u8] + cs.drop_first() =~= cs);
        } else if b < 32 {
            lemma_seg_index(s, pos, e0, 0);
            lemma_seg_index(s, pos, e0, 1);
            lemma_seg_index(s, pos, e0, 2);
            lemma_seg_index(s, pos, e0, 3);
            lemma_seg_index(s, pos, e0, 4);
            lemma_seg_index(s, pos, e0, 5);
            assert(s[pos] == 92 && s[pos + 1] == 117 && s[pos + 2] == 48 && s[pos + 3] == 48);
            assert(s[pos + 4] == hex_digit((b / 16) as nat) && s[pos + 5] == hex_digit(
                (b % 16) as nat,
            ));
            assert(is_hex(s[pos + 2]) && is_hex(s[pos + 3]) && is_hex(s[pos + 4]) && is_hex(
                s[pos + 5],
            ));
            assert(hex_val(s[pos + 2]) == 0 && hex_val(s[pos + 3]) == 0);
            assert(hex_val(s[pos + 4]) == b / 16 && hex_val(s[pos + 5]) == b % 16);
            assert(hex_val(s[pos + 2]) * 4096 + hex_val(s[pos + 3]) * 256 + hex_val(s[pos + 4])
                * 16 + hex_val(s[pos + 5]) == b);
            assert(seq![b] + cs.drop_first() =~= cs);
        } else {
            lemma_seg_index(s, pos, e0, 0);
            assert(s[pos] == b);
            assert(seq![b] + cs.drop_first() =~= cs);
        }
    }
}

/// The text after position `e` cannot extend a number ending there.
pub open spec fn no_digit_at(s: Seq<u8>, e: int) -> bool {
    e == s.len() || !is_digit(s[e])
}

proof fn lemma_rt_int(s: Seq<u8>, pos: int, v: int)
    requires
        i64::MIN <= v <= i64::MAX,
        seg(s, pos, print_int(v)),
        no_digit_at(s, pos + print_int(v).len()),
    ensures
        parse_value(s, pos) == Some((JsonV::Int(v), pos + print_int(v).len())),
{
    let m: nat = if v < 0 {
        (-v) as nat
    } else {
        v as nat
    };
    lemma_dec_digits_all(m);
    lemma_dec_val_digits(m);
    let dd = dec_digits(m);
    let d0 = if v < 0 {
        pos + 1
    } else {
        pos
    };
    if v < 0 {
        assert(print_int(v) =~= seq![45u8] + dd);
        lemma_seg_split(s, pos, seq![45u8], dd);
        lemma_seg_index(s, pos, seq![45u8], 0);
        assert(s[pos] == 45);
    }
    assert(seg(s, d0, dd));
    assert forall|i: int| d0 <= i < d0 + dd.len() implies is_digit(#[trigger] s[i]) by {
        lemma_seg_index(s, d0, dd, i - d0);
        assert(is_digit(dd[i - d0]));
    }
    lemma_digits_end_exact(s, d0, d0 + dd.len());
    assert(s.subrange(d0, d0 + dd.len() as int) == dd);
    if v >= 0 {
        lemma_seg_index(s, d0, dd, 0);
        assert(is_digit(s[pos]));
        assert(s[pos] != 45 && s[pos] != 110 && s[pos] != 116 && s[pos] != 102 && s[pos] != 34);
        assert(!is_ws(s[pos]));
    }
    if m == 0 {
        assert(dd =~= seq![48u8]);
    } else {
        lemma_seg_index(s, d0, dd, 0);
        assert(s[d0] != 48);
    }
}

proof fn lemma_rt_value(s: Seq<u8>, pos: int, j: JsonV)
    requires
        wf_jsonv(j),
        seg(s, pos, print_json(j)),
        j is Int ==> no_digit_at(s, pos + print_json(j).len()),
    ensures
        parse_value(s, pos) == Some((j, pos + print_json(j).len())),
    decreases j, 0int,
{
    lemma_print_first(j);
    lemma_seg_index(s, pos, print_json(j), 0);
    assert(!is_ws(s[pos]));
    match j {
        JsonV::Null => {
            reveal_strlit("null");
            lemma_seg_index(s, pos, print_json(j), 1);
            lemma_seg_index(s, pos, print_json(j), 2);
            lemma_seg_index(s, pos, print_json(j), 3);
        },
        JsonV::Bool(b) => {
            if b {
                reveal_strlit("true");
            } else {
                reveal_strlit("false");
                lemma_seg_index(s, pos, print_json(j), 4);
            }
            lemma_seg_index(s, pos, print_json(j), 1);
            lemma_seg_index(s, pos, print_json(j), 2);
            lemma_seg_index(s, pos, print_json(j), 3);
        },
        JsonV::Int(v) => {
            lemma_rt_int(s, pos, v);
        },
        JsonV::Str(cs) => {
            assert(print_json(j) =~= seq![34u8] + (esc_bytes(cs) + seq![34u8]));
            lemma_seg_split(s, pos, seq![34u8], esc_bytes(cs) + seq![34u8]);
            lemma_rt_str(s, pos + 1, cs);
        },
        JsonV::Arr(es) => {
            if es.len() == 0 {
                assert(print_json(j) =~= seq![91u8, 93u8]);
                lemma_seg_index(s, pos, print_json(j), 1);
                assert(es =~= Seq::<JsonV>::empty());
            } else {
                assert(print_json(j) =~= seq![91u8] + (print_elems(es) + seq![93u8]));
                lemma_seg_split(s, pos, seq![91u8], print_elems(es) + seq![93u8]);
                lemma_rt_elems(s, pos + 1, es);
                assert(es[0] == es.first());
                lemma_print_first(es[0]);
                assert(print_elems(es)[0] == print_json(es[0])[0]) by {
                    if es.len() == 1 {
                    } else {
                        assert(print_elems(es) == print_json(es[0]) + seq![44u8] + print_elems(
                            es.drop_first(),
                        ));
                    }
                }
                lemma_seg_index(s, pos + 1, print_elems(es) + seq![93u8], 0);
                assert(s[pos + 1] == print_json(es[0])[0]);
            }
        },
        JsonV::Obj(ms) => {
            if ms.len() == 0 {
                assert(print_json(j) =~= seq![123u8, 125u8]);
                lemma_seg_index(s, pos, print_json(j), 1);
                assert(ms =~= Seq::<(Seq<u8>, JsonV)>::empty());
            } else {
                assert(print_json(j) =~= seq![123u8] + (print_membs(ms) + seq![125u8]));
                lemma_seg_split(s, pos, seq![123u8], print_membs(ms) + seq![125u8]);
                lemma_rt_membs(s, pos + 1, ms);
                assert(print_membs(ms)[0] == 34) by {
                    assert(print_membs(ms)[0] == print_str(ms[0].0)[0]);
                }
                lemma_seg_index(s, pos + 1, print_membs(ms) + seq![125u8], 0);
                assert(s[pos + 1] == 34);
            }
        },
    }
}

proof fn lemma_rt_elems(s: Seq<u8>, pos: int, es: Seq<JsonV>)
    requires
        es.len() >= 1,
        forall|i: int| 0 <= i < es.len() ==> wf_jsonv(#[trigger] es[i]),
        seg(s, pos, print_elems(es) + seq![93u8]),
    ensures
        parse_elems(s, pos) == Some((es, pos + print_elems(es).len() + 1)),
    decreases es, 1int,
{
    let e0 = print_json(es[0]);
    if es.len() == 1 {
        assert(print_elems(es) + seq![93u8] =~= e0 + seq![93u8]);
        lemma_seg_split(s, pos, e0, seq![93u8]);
        lemma_seg_index(s, pos + e0.len(), seq![93u8], 0);
        assert(s[pos + e0.len()] == 93);
        lemma_rt_value(s, pos, es[0]);
        let p2 = pos + e0.len();
        assert(wsp(s, p2) == p2);
        assert(seq![es[0]] =~= es);
    } else {
        let rest = print_elems(es.drop_first()) + seq![93u8];
        assert(print_elems(es) + seq![93u8] =~= e0 + (seq![44u8] + rest));
        lemma_seg_split(s, pos, e0, seq![44u8] + rest);
        lemma_seg_split(s, pos + e0.len(), seq![44u8], rest);
        lemma_seg_index(s, pos + e0.len(), seq![44u8], 0);
        assert(s[pos + e0.len()] == 44);
        lemma_rt_value(s, pos, es[0]);
        let p2 = pos + e0.len();
        assert(wsp(s, p2) == p2);
        assert(forall|i: int|
            0 <= i < es.drop_first().len() ==> wf_jsonv(#[trigger] es.drop_first()[i]));
        lemma_rt_elems(s, p2 + 1, es.drop_first());
        assert(seq![es[0]] + es.drop_first() =~= es);
    }
}

proof fn lemma_rt_membs(s: Seq<u8>, pos: int, ms: Seq<(Seq<u8>, JsonV)>)
    requires
        ms.len() >= 1,
        forall|i: int| 0 <= i < ms.len() ==> wf_jsonv((#[trigger] ms[i]).1),
        seg(s, pos, print_membs(ms) + seq![125u8]),
    ensures
        parse_membs(s, pos) == Some((ms, pos + print_membs(ms).len() + 1)),
    decreases ms, 1int,
{
    let k = ms[0].0;
    let v = ms[0].1;
    let kt = print_str(k);
    let vt = print_json(v);
    let head = kt + seq![58u8] + vt;
    if ms.len() == 1 {
        assert(print_membs(ms) + seq![125u8] =~= kt + (seq![58u8] + (vt + seq![125u8])));
        lemma_seg_split(s, pos, kt, seq![58u8] + (vt + seq![125u8]));
        lemma_seg_split(s, pos + kt.len(), seq![58u8], vt + seq![125u8]);
        lemma_seg_index(s, pos + kt.len(), seq![58u8], 0);
        lemma_seg_split(s, pos + kt.len() + 1, vt, seq![125u8]);
        lemma_seg_index(s, pos + kt.len() + 1 + vt.len(), seq![125u8], 0);
        assert(kt =~= seq![34u8] + (esc_bytes(k) + seq![34u8]));
        lemma_seg_split(s, pos, seq![34u8], esc_bytes(k) + seq![34u8]);
        lemma_seg_index(s, pos, seq![34u8], 0);
        lemma_rt_str(s, pos + 1, k);
        let p2 = pos + kt.len();
        assert(wsp(s, pos) == pos);
        assert(wsp(s, p2) == p2);
        lemma_rt_value(s, p2 + 1, v);
        let p3 = p2 + 1 + vt.len();
        assert(wsp(s, p3) == p3);
        assert(seq![(k, v)] =~= ms);
    } else {
        let rest = print_membs(ms.drop_first()) + seq![125u8];
        assert(print_membs(ms) + seq![125u8] =~= kt + (seq![58u8] + (vt + (seq![44u8] + rest))));
        lemma_seg_split(s, pos, kt, seq![58u8] + (vt + (seq![44u8] + rest)));
        lemma_seg_split(s, pos + kt.len(), seq![58u8], vt + (seq![44u8] + rest));
        lemma_seg_index(s, pos + kt.len(), seq![58u8], 0);
        lemma_seg_split(s, pos + kt.len() + 1, vt, seq![44u8] + rest);
        lemma_seg_split(s, pos + kt.len() + 1 + vt.len(), seq![44u8], rest);
        lemma_seg_index(s, pos + kt.len() + 1 + vt.len(), seq![44u8], 0);
        assert(kt =~= seq![34u8] + (esc_bytes(k) + seq![34u8]));
        lemma_seg_split(s, pos, seq![34u8], esc_bytes(k) + seq![34u8]);
        lemma_seg_index(s, pos, seq![34u8], 0);
        lemma_rt_str(s, pos + 1, k);
        let p2 = pos + kt.len();
        assert(wsp(s, pos) == pos);
        assert(wsp(s, p2) == p2);
        lemma_rt_value(s, p2 + 1, v);
        let p3 = p2 + 1 + vt.len();
        assert(wsp(s, p3) == p3);
        assert(forall|i: int|
            0 <= i < ms.drop_first().len() ==> wf_jsonv((#[trigger] ms.drop_first()[i]).1));
        lemma_rt_membs(s, p3 + 1, ms.drop_first());
        assert(seq![(k, v)] + ms.drop_first() =~= ms);
    }
}

/// Law: parsing the canonical text of a well-formed document yields exactly
/// that document.
pub proof fn lemma_print_parse_roundtrip(j: JsonV)
    requires
        wf_jsonv(j),
    ensures
        parse_doc(print_json(j)) == Some(j),
{
    let s = print_json(j);
    assert(s.subrange(0, s.len() as int) =~= s);
    lemma_rt_value(s, 0, j);
    assert(wsp(s, s.len() as int) == s.len());
}

/// Decodes a whole document: one value with only whitespace around it.
pub fn decode_doc(s: &Vec<u8>) -> (r: Option<Json>)
    ensures
        ({
            let sp = parse_doc(s@);
            match r {
                Some(j) => sp == Some(j@),
                None => sp is None,
            }
        }),
{
    match parse_value_exec(s, 0) {
        Some(jp) => {
            let (j, p) = jp;
            let q = ws_end(s, p);
            if q == s.len() {
                Some(j)
            } else {
                None
            }
        },
        None => None,
    }
}

/// The canonical text of `j` as a fresh byte vector.
pub fn encode_doc(j: &Json) -> (out: Vec<u8>)
    ensures
        out@ == print_json(j@),
{
    let mut out: Vec<u8> = Vec::new();
    encode_json(j, &mut out);
    proof {
        assert(out@ =~= print_json(j@));
    }
    out
}

} // verus!
