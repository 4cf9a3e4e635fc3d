//! The wire round trip: reading back what the writer produced.
//!
//! The writer emits no insignificant whitespace and escapes exactly what
//! the reader unescapes, so a written value parses back to itself. The
//! statement is compositional: a serialized value embedded anywhere in a
//! larger buffer parses from its start position, provided the byte after
//! it (if any) could not extend a number token. Number literals read from
//! the wire (`Num`) are carried verbatim by the writer and are not covered
//! here; nothing in this crate constructs one.

use vstd::prelude::*;

use crate::json::{JsonV, sp_ser, ser_items, ser_members, esc_seq, esc_byte, dec_digits, int_lit,
    sp_value, sp_items, sp_members, sp_str_body, sp_ws, sp_digits, sp_hex4, sp_num_len,
    sp_num_value, sp_parse, dec_val, hex_digit, hex_digit_val, utf8_enc, is_digit, is_ws_byte};

verus! {

broadcast use vstd::seq::group_seq_axioms;

/// Values the writer can produce and the reader hands back unchanged:
/// integer literals in range, strings, and containers of the same. A `Num`
/// carries a token read from the wire; the writer copies it verbatim, and
/// it is out of scope here.
pub open spec fn wf_json(v: JsonV) -> bool
    decreases v,
{
    match v {
        JsonV::Null => true,
        JsonV::Bool(_) => true,
        JsonV::Int(n) => -0x8000_0000_0000_0000 <= n < 0x8000_0000_0000_0000,
        JsonV::Num(_) => false,
        JsonV::Str(_) => true,
        JsonV::Arr(elems) => forall|i: int| 0 <= i < elems.len() ==> wf_json(#[trigger] elems[i]),
        JsonV::Obj(pairs) => forall|i: int| 0 <= i < pairs.len() ==> wf_json(
            #[trigger] pairs[i].1,
        ),
    }
}

/// A byte that cannot extend a number token.
pub open spec fn num_barrier(s: Seq<u8>, e: int) -> bool {
    e == s.len() || (!is_digit(s[e]) && s[e] != 0x2e && s[e] != 0x65 && s[e] != 0x45)
}

/// A subrange of an embedded sequence is the sequence's subrange.
proof fn lemma_sub(s: Seq<u8>, i: int, t: Seq<u8>, a: int, b: int)
    requires
        0 <= i,
        i + t.len() <= s.len(),
        s.subrange(i, i + t.len()) == t,
        0 <= a <= b <= t.len(),
    ensures
        s.subrange(i + a, i + b) == t.subrange(a, b),
        forall|k: int| 0 <= k < t.len() ==> s[i + k] == #[trigger] t[k],
{
    assert forall|k: int| 0 <= k < t.len() implies s[i + k] == #[trigger] t[k] by {
        assert(s.subrange(i, i + t.len())[k] == s[i + k]);
    }
    assert(s.subrange(i + a, i + b) =~= t.subrange(a, b));
}

/// No whitespace follows where the writer put none.
proof fn lemma_ws_stops(s: Seq<u8>, i: nat)
    requires
        i >= s.len() || !is_ws_byte(s[i as int]),
    ensures
        sp_ws(s, i) == 0,
{
}

/// The escaped form of a string body parses back to the body.
proof fn lemma_str_parses(t: Seq<u8>, s: Seq<u8>, i: nat)
    requires
        i + esc_seq(t).len() + 1 <= s.len(),
        s.subrange(i as int, (i + esc_seq(t).len()) as int) == esc_seq(t),
        s[(i + esc_seq(t).len()) as int] == 0x22,
    ensures
        sp_str_body(s, i) == Some((t, esc_seq(t).len() as nat)),
    decreases t.len(),
{
    lemma_sub(s, i as int, esc_seq(t), 0, esc_seq(t).len() as int);
    if t.len() == 0 {
        assert(s[i as int] == 0x22);
    } else {
        let c = t[0];
        let rest = t.drop_first();
        let eb = esc_byte(c);
        assert(esc_seq(t) == eb + esc_seq(rest));
        let j = i + eb.len();
        assert(s.subrange(j as int, (j + esc_seq(rest).len()) as int) == esc_seq(rest)) by {
            lemma_sub(s, i as int, esc_seq(t), eb.len() as int, esc_seq(t).len() as int);
            assert(esc_seq(t).subrange(eb.len() as int, esc_seq(t).len() as int) =~= esc_seq(
                rest,
            ));
        }
        assert(s[(j + esc_seq(rest).len()) as int] == 0x22);
        lemma_str_parses(rest, s, j);
        assert(seq![c] + rest =~= t);
        assert forall|k: int| 0 <= k < eb.len() implies s[i + k] == #[trigger] eb[k] by {
            assert(esc_seq(t)[k] == eb[k]);
        }
        if c == 0x22 {
            assert(eb[0] == 0x5c && eb[1] == 0x22);
            assert(s[i as int] == 0x5c && s[i as int + 1] == 0x22);
        } else if c == 0x5c {
            assert(eb[0] == 0x5c && eb[1] == 0x5c);
            assert(s[i as int] == 0x5c && s[i as int + 1] == 0x5c);
        } else if c < 0x20 {
            assert(eb[0] == 0x5c && eb[1] == 0x75 && eb[2] == 0x30 && eb[3] == 0x30 && eb[4]
                == hex_digit((c / 16) as nat) && eb[5] == hex_digit((c % 16) as nat));
            assert(s[i as int] == 0x5c && s[i as int + 1] == 0x75);
            assert(s[i as int + 2] == 0x30 && s[i as int + 3] == 0x30);
            assert(s[i as int + 4] == hex_digit((c / 16) as nat));
            assert(s[i as int + 5] == hex_digit((c % 16) as nat));
            assert(hex_digit_val(hex_digit((c / 16) as nat)) == Some((c / 16) as nat));
            assert(hex_digit_val(hex_digit((c % 16) as nat)) == Some((c % 16) as nat));
            assert(hex_digit_val(0x30) == Some(0nat));
            assert(sp_hex4(s, i + 2) == Some(
                (0 * 0x1000 + 0 * 0x100 + (c / 16) * 0x10 + (c % 16)) as nat,
            ));
            assert(0 * 0x1000 + 0 * 0x100 + (c / 16) * 0x10 + (c % 16) == c as int);
            assert(utf8_enc(c as nat) =~= seq![c]);
        } else {
            assert(eb[0] == c);
            assert(s[i as int] == c);
        }
    }
}

/// Decimal digits are digits, and carry no leading zero unless the number
/// is a single zero.
proof fn lemma_dec_digits_shape(n: nat)
    ensures
        dec_digits(n).len() >= 1,
        forall|k: int| 0 <= k < dec_digits(n).len() ==> is_digit(#[trigger] dec_digits(n)[k]),
        n >= 10 ==> dec_digits(n)[0] != 0x30,
        n < 10 ==> dec_digits(n).len() == 1,
        dec_val(dec_digits(n)) == n,
    decreases n,
{
    if n >= 10 {
        lemma_dec_digits_shape(n / 10);
        assert(dec_digits(n).drop_last() =~= dec_digits(n / 10));
        assert forall|k: int| 0 <= k < dec_digits(n).len() implies is_digit(
            #[trigger] dec_digits(n)[k],
        ) by {
            if k < dec_digits(n).len() - 1 {
                assert(dec_digits(n)[k] == dec_digits(n / 10)[k]);
            }
        }
        assert(dec_digits(n)[0] == dec_digits(n / 10)[0]);
        assert(n / 10 >= 1);
        if n / 10 < 10 {
            assert(dec_digits(n / 10)[0] == (0x30 + n / 10) as u8);
        }
        assert(dec_digits(n).last() == (0x30 + n % 10) as u8);
        assert(dec_val(dec_digits(n)) == dec_val(dec_digits(n / 10)) * 10 + ((0x30 + n % 10)
            - 0x30));
    } else {
        assert(dec_digits(n).drop_last() =~= Seq::<u8>::empty());
        assert(dec_digits(n)[0] == (0x30 + n) as u8);
        assert(dec_val(Seq::<u8>::empty()) == 0);
        assert(dec_val(dec_digits(n)) == dec_val(Seq::<u8>::empty()) * 10 + ((0x30 + n)
            - 0x30));
    }
}

/// A digit run embedded with a barrier after it scans to exactly its
/// length.
proof fn lemma_digit_run(s: Seq<u8>, i: nat, d: nat)
    requires
        i + d <= s.len(),
        forall|k: int| i <= k < i + d ==> is_digit(#[trigger] s[k]),
        i + d == s.len() || !is_digit(s[(i + d) as int]),
    ensures
        sp_digits(s, i) == d,
    decreases d,
{
    if d > 0 {
        lemma_digit_run(s, i + 1, (d - 1) as nat);
    }
}

/// An integer literal embedded with a barrier after it parses back to its
/// value.
#[verifier::rlimit(100)]
#[verifier::spinoff_prover]
proof fn lemma_int_parses(n: int, s: Seq<u8>, i: nat)
    requires
        -0x8000_0000_0000_0000 <= n < 0x8000_0000_0000_0000,
        i + int_lit(n).len() <= s.len(),
        s.subrange(i as int, (i + int_lit(n).len()) as int) == int_lit(n),
        num_barrier(s, (i + int_lit(n).len()) as int),
    ensures
        sp_num_len(s, i) == Some(int_lit(n).len() as nat),
        sp_num_value(s, i, int_lit(n).len() as nat) == JsonV::Int(n),
        int_lit(n).len() >= 1,
        is_digit(s[i as int]) || s[i as int] == 0x2d,
{
    let mag: nat = if n < 0 {
        (-n) as nat
    } else {
        n as nat
    };
    lemma_dec_digits_shape(mag);
    let lit = int_lit(n);
    lemma_sub(s, i as int, lit, 0, lit.len() as int);
    let sign: nat = if n < 0 {
        1
    } else {
        0
    };
    let p = i + sign;
    let d = dec_digits(mag).len();
    if n < 0 {
        assert(lit == seq![0x2du8] + dec_digits(mag));
        assert(lit[0] == 0x2d);
        assert(s[i as int] == lit[0]);
    }
    assert forall|k: int| p <= k < p + d implies is_digit(#[trigger] s[k]) by {
        assert(s[i + (k - i)] == lit[k - i]);
        assert(lit[k - i] == dec_digits(mag)[k - p]);
    }
    lemma_digit_run(s, p, d as nat);
    let q = p + d;
    assert(num_barrier(s, q as int));
    // the scan: sign, the digit run, no fraction, no exponent
    assert(sp_digits(s, p) == d);
    assert(lit[sign as int] == dec_digits(mag)[0]);
    assert(s[p as int] == lit[sign as int]);
    let ilen: nat = if s[p as int] == 0x30 {
        1
    } else {
        sp_digits(s, p)
    };
    if s[p as int] == 0x30 {
        assert(dec_digits(mag)[0] == 0x30);
        assert(mag < 10);
        assert(d == 1);
    }
    assert(ilen == d);
    assert(sp_num_len(s, i) == Some((sign + d) as nat));
    assert(s.subrange(p as int, q as int) =~= dec_digits(mag)) by {
        if n < 0 {
            lemma_sub(s, i as int, lit, 1, lit.len() as int);
            assert(lit.subrange(1, lit.len() as int) =~= dec_digits(mag));
        }
    }
    assert(dec_val(s.subrange(p as int, q as int)) == mag);
    assert(sp_num_value(s, i, (sign + d) as nat) == JsonV::Int(n));
}

/// The first byte of a serialization: a letter of a literal, a quote, a
/// sign or digit, or an opening bracket or brace — never whitespace, never
/// a separator, never a closer.
proof fn lemma_ser_head(v: JsonV)
    requires
        wf_json(v),
    ensures
        sp_ser(v).len() >= 1,
        ({
            let h = sp_ser(v)[0];
            h == 0x6e || h == 0x74 || h == 0x66 || h == 0x22 || h == 0x2d || is_digit(h) || h
                == 0x5b || h == 0x7b
        }),
{
    match v {
        JsonV::Int(n) => {
            let mag: nat = if n < 0 {
                (-n) as nat
            } else {
                n as nat
            };
            lemma_dec_digits_shape(mag);
            if n >= 0 {
                assert(sp_ser(v) == dec_digits(mag));
            }
        },
        _ => {},
    }
}

/// A serialized value embedded with a barrier after it parses back to the
/// value, consuming exactly its serialization.
#[verifier::rlimit(100)]
#[verifier::spinoff_prover]
pub proof fn lemma_ser_parses(v: JsonV, s: Seq<u8>, i: nat)
    requires
        wf_json(v),
        i + sp_ser(v).len() <= s.len(),
        s.subrange(i as int, (i + sp_ser(v).len()) as int) == sp_ser(v),
        num_barrier(s, (i + sp_ser(v).len()) as int),
    ensures
        sp_ser(v).len() >= 1,
        sp_value(s, i) == Some((v, (sp_ser(v).len() - 1) as nat)),
    decreases v, 0int,
{
    let ser = sp_ser(v);
    lemma_sub(s, i as int, ser, 0, ser.len() as int);
    match v {
        JsonV::Null => {
            assert(s[i as int] == 0x6e);
        },
        JsonV::Bool(b) => {
            if b {
                assert(s[i as int] == 0x74);
            } else {
                assert(s[i as int] == 0x66);
            }
        },
        JsonV::Int(n) => {
            lemma_int_parses(n, s, i);
        },
        JsonV::Num(_) => {},
        JsonV::Str(t) => {
            assert(ser[0] == 0x22);
            assert(s[i as int] == ser[0]);
            assert(s.subrange(i as int + 1, (i + 1 + esc_seq(t).len()) as int) == esc_seq(t)) by {
                lemma_sub(s, i as int, ser, 1, 1 + esc_seq(t).len() as int);
                assert(ser.subrange(1, 1 + esc_seq(t).len() as int) =~= esc_seq(t));
            }
            assert(ser[(1 + esc_seq(t).len()) as int] == 0x22);
            assert(s[(i + 1 + esc_seq(t).len()) as int] == ser[(1 + esc_seq(t).len()) as int]);
            lemma_str_parses(t, s, i + 1);
        },
        JsonV::Arr(elems) => {
            assert(ser[0] == 0x5b);
            assert(s[i as int] == ser[0]);
            assert(ser[ser.len() - 1] == 0x5d);
            assert(s[(i + ser.len() - 1) as int] == ser[ser.len() - 1]);
            if elems.len() == 0 {
                assert(ser_items(elems) =~= Seq::<u8>::empty());
                assert(elems =~= Seq::<JsonV>::empty());
                assert(ser.len() == 2);
                lemma_ws_stops(s, i + 1);
            } else {
                assert(s.subrange(i as int + 1, (i + 1 + ser_items(elems).len()) as int) == ser_items(
                    elems,
                )) by {
                    lemma_sub(s, i as int, ser, 1, 1 + ser_items(elems).len() as int);
                    assert(ser.subrange(1, 1 + ser_items(elems).len() as int) =~= ser_items(
                        elems,
                    ));
                }
                lemma_sub(s, i as int + 1, ser_items(elems), 0, ser_items(elems).len() as int);
                lemma_ser_head(elems[0]);
                assert(ser_items(elems)[0] == sp_ser(elems[0])[0]) by {
                    if elems.len() > 1 {
                        assert(ser_items(elems) == sp_ser(elems[0]) + seq![0x2cu8] + ser_items(
                            elems.drop_first(),
                        ));
                    }
                }
                assert(s[(i + 1) as int] == ser_items(elems)[0]);
                lemma_ws_stops(s, i + 1);
                lemma_items_parse(elems, s, i + 1);
                assert(s[(i + 1) as int] != 0x5d);
            }
        },
        JsonV::Obj(pairs) => {
            assert(ser[0] == 0x7b);
            assert(s[i as int] == ser[0]);
            assert(ser[ser.len() - 1] == 0x7d);
            assert(s[(i + ser.len() - 1) as int] == ser[ser.len() - 1]);
            if pairs.len() == 0 {
                assert(ser_members(pairs) =~= Seq::<u8>::empty());
                assert(pairs =~= Seq::<(Seq<u8>, JsonV)>::empty());
                assert(ser.len() == 2);
                lemma_ws_stops(s, i + 1);
            } else {
                assert(s.subrange(i as int + 1, (i + 1 + ser_members(pairs).len()) as int) == ser_members(
                    pairs,
                )) by {
                    lemma_sub(s, i as int, ser, 1, 1 + ser_members(pairs).len() as int);
                    assert(ser.subrange(1, 1 + ser_members(pairs).len() as int) =~= ser_members(
                        pairs,
                    ));
                }
                lemma_sub(
                    s,
                    i as int + 1,
                    ser_members(pairs),
                    0,
                    ser_members(pairs).len() as int,
                );
                assert(ser_members(pairs)[0] == 0x22) by {
                    let rhead = seq![0x22u8] + esc_seq(pairs[0].0) + seq![0x22u8, 0x3au8]
                        + sp_ser(pairs[0].1);
                    assert(rhead[0] == 0x22);
                    if pairs.len() > 1 {
                        assert(ser_members(pairs) == rhead + seq![0x2cu8] + ser_members(
                            pairs.drop_first(),
                        ));
                    } else {
                        assert(ser_members(pairs) == rhead);
                    }
                }
                assert(s[(i + 1) as int] == ser_members(pairs)[0]);
                lemma_ws_stops(s, i + 1);
                lemma_members_parse(pairs, s, i + 1);
            }
        },
    }
}

/// Serialized elements followed by the closing bracket parse back to the
/// element list.
#[verifier::rlimit(100)]
#[verifier::spinoff_prover]
proof fn lemma_items_parse(elems: Seq<JsonV>, s: Seq<u8>, i: nat)
    requires
        elems.len() >= 1,
        forall|k: int| 0 <= k < elems.len() ==> wf_json(#[trigger] elems[k]),
        i + ser_items(elems).len() + 1 <= s.len(),
        s.subrange(i as int, (i + ser_items(elems).len()) as int) == ser_items(elems),
        s[(i + ser_items(elems).len()) as int] == 0x5d,
    ensures
        sp_items(s, i) == Some((elems, ser_items(elems).len() as nat)),
    decreases elems, 1int,
{
    let all = ser_items(elems);
    lemma_sub(s, i as int, all, 0, all.len() as int);
    let v0 = elems[0];
    let s0 = sp_ser(v0);
    if elems.len() == 1 {
        assert(all == s0);
        lemma_ser_parses(v0, s, i);
        let e = i + s0.len();
        lemma_ws_stops(s, e as nat);
        assert(s[e as int] == 0x5d);
        assert(seq![v0] =~= elems);
    } else {
        let rest = elems.drop_first();
        assert(all == s0 + seq![0x2cu8] + ser_items(rest));
        assert(all[s0.len() as int] == 0x2c);
        assert(s[(i + s0.len()) as int] == all[s0.len() as int]);
        assert(s.subrange(i as int, (i + s0.len()) as int) == s0) by {
            lemma_sub(s, i as int, all, 0, s0.len() as int);
            assert(all.subrange(0, s0.len() as int) =~= s0);
        }
        lemma_ser_parses(v0, s, i);
        let e = i + s0.len();
        lemma_ws_stops(s, e as nat);
        let j = e + 1;
        lemma_ser_head(rest[0]);
        assert(ser_items(rest)[0] == sp_ser(rest[0])[0]) by {
            if rest.len() > 1 {
                assert(ser_items(rest) == sp_ser(rest[0]) + seq![0x2cu8] + ser_items(
                    rest.drop_first(),
                ));
            }
        }
        assert(all[(s0.len() + 1) as int] == ser_items(rest)[0]);
        assert(s[j as int] == all[(s0.len() + 1) as int]);
        lemma_ws_stops(s, j as nat);
        assert(s.subrange(j as int, (j + ser_items(rest).len()) as int) == ser_items(rest)) by {
            lemma_sub(s, i as int, all, s0.len() as int + 1, all.len() as int);
            assert(all.subrange(s0.len() as int + 1, all.len() as int) =~= ser_items(rest));
        }
        assert(s[(j + ser_items(rest).len()) as int] == 0x5d);
        lemma_items_parse(rest, s, j as nat);
        assert(seq![v0] + rest =~= elems);
    }
}

/// The wire form of one member.
spec fn mser(p: (Seq<u8>, JsonV)) -> Seq<u8> {
    seq![0x22u8] + esc_seq(p.0) + seq![0x22u8, 0x3au8] + sp_ser(p.1)
}

/// One serialized member embedded in a buffer: the key string, the colon
/// and the value all scan where the member scan looks for them.
#[verifier::rlimit(100)]
#[verifier::spinoff_prover]
proof fn lemma_member_head(p: (Seq<u8>, JsonV), s: Seq<u8>, i: nat)
    requires
        wf_json(p.1),
        i + mser(p).len() <= s.len(),
        s.subrange(i as int, (i + mser(p).len()) as int) == mser(p),
        num_barrier(s, (i + mser(p).len()) as int),
    ensures
        mser(p).len() == 3 + esc_seq(p.0).len() + sp_ser(p.1).len(),
        s[i as int] == 0x22,
        sp_str_body(s, i + 1) == Some((p.0, esc_seq(p.0).len() as nat)),
        s[(i + 2 + esc_seq(p.0).len()) as int] == 0x3a,
        sp_ws(s, i + 2 + esc_seq(p.0).len()) == 0,
        sp_ws(s, i + 3 + esc_seq(p.0).len()) == 0,
        sp_value(s, i + 3 + esc_seq(p.0).len()) == Some((p.1, (sp_ser(p.1).len() - 1) as nat)),
    decreases p, 0int,
{
    let all = mser(p);
    let el = esc_seq(p.0).len() as int;
    lemma_sub(s, i as int, all, 0, all.len() as int);
    assert(all[0] == 0x22 && all[1 + el] == 0x22 && all[2 + el] == 0x3a);
    assert(s[i as int] == all[0]);
    assert(s.subrange(i as int + 1, i + 1 + el) == esc_seq(p.0)) by {
        lemma_sub(s, i as int, all, 1, 1 + el);
        assert(all.subrange(1, 1 + el) =~= esc_seq(p.0));
    }
    assert(s[(i + 1 + el) as int] == all[1 + el]);
    lemma_str_parses(p.0, s, i + 1);
    assert(s[(i + 2 + el) as int] == all[2 + el]);
    lemma_ws_stops(s, i + 2 + esc_seq(p.0).len());
    lemma_ser_head(p.1);
    assert(all[3 + el] == sp_ser(p.1)[0]);
    assert(s[(i + 3 + el) as int] == all[3 + el]);
    lemma_ws_stops(s, i + 3 + esc_seq(p.0).len());
    assert(s.subrange(i + 3 + el, i + 3 + el + sp_ser(p.1).len()) == sp_ser(p.1)) by {
        lemma_sub(s, i as int, all, 3 + el, all.len() as int);
        assert(all.subrange(3 + el, all.len() as int) =~= sp_ser(p.1));
    }
    lemma_ser_parses(p.1, s, (i + 3 + esc_seq(p.0).len()) as nat);
}

/// Serialized members followed by the closing brace parse back to the
/// pair list.
#[verifier::rlimit(100)]
#[verifier::spinoff_prover]
proof fn lemma_members_parse(pairs: Seq<(Seq<u8>, JsonV)>, s: Seq<u8>, i: nat)
    requires
        pairs.len() >= 1,
        forall|k: int| 0 <= k < pairs.len() ==> wf_json(#[trigger] pairs[k].1),
        i + ser_members(pairs).len() + 1 <= s.len(),
        s.subrange(i as int, (i + ser_members(pairs).len()) as int) == ser_members(pairs),
        s[(i + ser_members(pairs).len()) as int] == 0x7d,
    ensures
        sp_members(s, i) == Some((pairs, ser_members(pairs).len() as nat)),
    decreases pairs, 1int,
{
    let all = ser_members(pairs);
    lemma_sub(s, i as int, all, 0, all.len() as int);
    let p0 = pairs[0];
    let head = mser(p0);
    assert(ser_members(pairs) == if pairs.len() == 1 {
        head
    } else {
        head + seq![0x2cu8] + ser_members(pairs.drop_first())
    });
    assert(s.subrange(i as int, (i + head.len()) as int) == head) by {
        lemma_sub(s, i as int, all, 0, head.len() as int);
        assert(all.subrange(0, head.len() as int) =~= head);
    }
    let el = esc_seq(p0.0).len() as int;
    let e = i + head.len();
    if pairs.len() == 1 {
        assert(e == i + all.len());
        assert(s[e as int] == 0x7d);
    } else {
        assert(all[head.len() as int] == 0x2c);
        assert(s[e as int] == all[head.len() as int]);
    }
    lemma_member_head(p0, s, i);
    lemma_ws_stops(s, e as nat);
    if pairs.len() == 1 {
        assert(seq![(p0.0, p0.1)] =~= pairs);
        assert((p0.0, p0.1) == p0);
    } else {
        let rest = pairs.drop_first();
        let j = e + 1;
        let rhead = mser(rest[0]);
        assert(ser_members(rest)[0] == 0x22) by {
            assert(rhead[0] == 0x22);
            if rest.len() > 1 {
                assert(ser_members(rest) == rhead + seq![0x2cu8] + ser_members(
                    rest.drop_first(),
                ));
            } else {
                assert(ser_members(rest) == rhead);
            }
        }
        assert(all[(head.len() + 1) as int] == ser_members(rest)[0]);
        assert(s[j as int] == all[(head.len() + 1) as int]);
        lemma_ws_stops(s, j as nat);
        assert(s.subrange(j as int, (j + ser_members(rest).len()) as int) == ser_members(rest))
            by {
            lemma_sub(s, i as int, all, head.len() as int + 1, all.len() as int);
            assert(all.subrange(head.len() as int + 1, all.len() as int) =~= ser_members(rest));
        }
        assert(s[(j + ser_members(rest).len()) as int] == 0x7d);
        lemma_members_parse(rest, s, j as nat);
        assert(seq![(p0.0, p0.1)] + rest =~= pairs);
        assert((p0.0, p0.1) == p0);
    }
}

/// The wire round trip: a written value parses back to itself.
pub proof fn lemma_wire_round_trip(v: JsonV)
    requires
        wf_json(v),
    ensures
        sp_parse(sp_ser(v)) == Some(v),
{
    let s = sp_ser(v);
    assert(s.subrange(0, s.len() as int) =~= s);
    lemma_ser_head(v);
    lemma_ws_stops(s, 0nat);
    lemma_ser_parses(v, s, 0);
    lemma_ws_stops(s, s.len() as nat);
}


/// The wire round trip for one newline-terminated line: what the settings
/// writer and the command framer emit parses back to the written value.
pub proof fn lemma_wire_round_trip_line(v: JsonV)
    requires
        wf_json(v),
    ensures
        sp_parse(sp_ser(v) + seq![0x0au8]) == Some(v),
{
    let ser = sp_ser(v);
    let s = ser + seq![0x0au8];
    lemma_ser_head(v);
    assert(s.subrange(0, ser.len() as int) =~= ser);
    assert(s[0] == ser[0]);
    lemma_ws_stops(s, 0nat);
    assert(num_barrier(s, ser.len() as int)) by {
        assert(s[ser.len() as int] == 0x0a);
    }
    lemma_ser_parses(v, s, 0);
    assert(s[ser.len() as int] == 0x0a);
    lemma_ws_stops(s, (ser.len() + 1) as nat);
    assert(sp_ws(s, ser.len() as nat) == 1);
}

/// Round trip for a command: its wire form parses back to its JSON form,
/// and decoding that restores the command — populated fields preserved,
/// absent fields never on the wire at all.
pub proof fn lemma_command_wire_round_trip(c: crate::types::CmdV)
    ensures
        sp_parse(sp_ser(crate::types::cmd_json(c))) == Some(crate::types::cmd_json(c)),
        crate::types::cmd_of_json(crate::types::cmd_json(c)) == Some(c),
{
    lemma_cmd_json_wf(c);
    lemma_wire_round_trip(crate::types::cmd_json(c));
    crate::types::lemma_cmd_json_round_trip(c);
}

/// A command's JSON form holds nothing but strings and containers.
#[verifier::rlimit(100)]
#[verifier::spinoff_prover]
proof fn lemma_cmd_json_wf(c: crate::types::CmdV)
    ensures
        wf_json(crate::types::cmd_json(c)),
{
    let pairs = crate::types::cmd_pairs(c);
    if c.images is Some {
        let imgs = crate::types::images_json(c.images->0);
        assert forall|k: int| 0 <= k < imgs.len() implies wf_json(#[trigger] imgs[k]) by {
            assert(imgs[k] == (c.images->0).map_values(
                |a: crate::types::ImageV| crate::types::image_json(a),
            )[k]);
            assert(imgs[k] == crate::types::image_json(c.images->0[k]));
            let ip = crate::types::image_json(c.images->0[k])->Obj_0;
            assert(forall|t: int| 0 <= t < ip.len() ==> wf_json(#[trigger] ip[t].1));
        }
    }
    assert forall|k: int| 0 <= k < pairs.len() implies wf_json(#[trigger] pairs[k].1) by {
    }
}

} // verus!
