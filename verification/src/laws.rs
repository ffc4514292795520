//! The laws the codec obeys: decoding inverts encoding, the empty string is
//! exactly the zero value, and integer order of packed values follows
//! lexicographic order of the strings.

use crate::codec::iter_chars;
use crate::codec::lemma_special_ok;
use crate::codec::lemma_table_ok;
use crate::codec::spec_decode;
use crate::codec::spec_encode;
use crate::codec::stored_tag;
use crate::codec::table_codes;
use crate::codec::uro_char;
use crate::codec::uro_units;
use crate::pages::block_of;
use crate::pages::in_uro;
use crate::pages::page_entry;
use crate::pages::spec_code_of;
use crate::pages::spec_page_of;
use crate::pages::URO_LO;
use crate::pages::URO_PAGE;
use crate::units::extract_units;
use crate::units::fold_units;
use crate::units::padded;
use crate::width::char_slots;
use crate::width::coding_bits;
use crate::width::special_slots;
use crate::width::tag_bits;
use crate::width::valid_width;
use vstd::arithmetic::div_mod::lemma_fundamental_div_mod_converse;
use vstd::arithmetic::power2::lemma_pow2_adds;
use vstd::arithmetic::power2::lemma_pow2_pos;
use vstd::arithmetic::power2::pow2;
use vstd::prelude::*;

verus! {

/// Round trip, URO delta mode.
proof fn lemma_round_trip_special(s: Seq<char>, n: nat)
    requires
        valid_width(n),
        s.len() > 0,
        special_slots(n) > 0,
        in_uro(s[0]),
        spec_encode(s, n) is Ok,
    ensures
        spec_decode(spec_encode(s, n)->Ok_0, n) == s,
{
    crate::width::lemma_width_facts(n);
    let cb = coding_bits(n);
    let tb = tag_bits(n);
    let cap = special_slots(n);
    let slots = char_slots(n);
    let us = uro_units(s);
    let l = us.len();
    let v = spec_encode(s, n)->Ok_0;
    let t = stored_tag(URO_PAGE as int, n);
    let pay = padded(15, us, cap) * pow2((cb - 15 * cap) as nat);
    lemma_special_ok(s, n);
    crate::units::lemma_fold_units_bound(15, us);
    crate::units::lemma_padded_bound(15, us, cap);
    // the payload is the fold, left-justified in the coding region
    lemma_pow2_adds((15 * (cap - l)) as nat, (cb - 15 * cap) as nat);
    assert(15 * (cap - l) + (cb - 15 * cap) == cb - 15 * l) by (nonlinear_arith)
        requires
            l <= cap,
            15 * cap <= cb,
    ;
    assert(pay == fold_units(15, us) * pow2((cb - 15 * l) as nat)) by (nonlinear_arith)
        requires
            pay == (fold_units(15, us) * pow2((15 * (cap - l)) as nat)) * pow2(
                (cb - 15 * cap) as nat,
            ),
            pow2((15 * (cap - l)) as nat) * pow2((cb - 15 * cap) as nat) == pow2(
                (cb - 15 * l) as nat,
            ),
    ;
    // the payload stays below the tag's place value
    lemma_pow2_adds(15 * cap, (cb - 15 * cap) as nat);
    lemma_pow2_pos((cb - 15 * cap) as nat);
    vstd::arithmetic::mul::lemma_mul_strict_inequality(
        padded(15, us, cap) as int,
        pow2(15 * cap) as int,
        pow2((cb - 15 * cap) as nat) as int,
    );
    assert(pay < pow2(cb));
    // so the decoder recovers tag and payload
    lemma_fundamental_div_mod_converse(v as int, pow2(cb) as int, t, pay as int);
    assert(v / pow2(cb) == t);
    assert(v % pow2(cb) == pay);
    // the re-justified payload is the fold, left-justified in 128 bits
    let acc = pay * pow2((128 - cb) as nat);
    lemma_pow2_adds((cb - 15 * l) as nat, (128 - cb) as nat);
    assert(acc == fold_units(15, us) * pow2((128 - 15 * l) as nat)) by (nonlinear_arith)
        requires
            acc == (fold_units(15, us) * pow2((cb - 15 * l) as nat)) * pow2((128 - cb) as nat),
            pow2((cb - 15 * l) as nat) * pow2((128 - cb) as nat) == pow2((128 - 15 * l) as nat),
            15 * l <= cb,
            cb <= 128,
    ;
    assert(15 * l <= cb) by (nonlinear_arith)
        requires
            l <= cap,
            15 * cap <= cb,
    ;
    // the units come back out, and map back to the characters
    crate::units::lemma_extract_of_fold(15, us, slots);
    assert(acc < pow2(128)) by {
        lemma_pow2_adds(15 * l, (128 - 15 * l) as nat);
        lemma_pow2_pos((128 - 15 * l) as nat);
        vstd::arithmetic::mul::lemma_mul_strict_inequality(
            fold_units(15, us) as int,
            pow2(15 * l) as int,
            pow2((128 - 15 * l) as nat) as int,
        );
    }
    crate::codec::lemma_iter_chars_special(acc, slots);
    let tag4 = if tb == 2 {
        t * 4
    } else {
        t
    };
    assert(tag4 == URO_PAGE as int);
    assert(extract_units(15, acc, slots).map_values(|u: nat| uro_char(u)) =~= s) by {
        assert forall|j: int| 0 <= j < l implies uro_char(us[j]) == s[j] by {
            assert(in_uro(s[j]));
            let w = (URO_LO + us[j] - 1) as u32;
            assert(w == s[j] as u32);
            vstd::utf8::char_u32_cast(s[j], w);
        }
    }
}

/// Round trip, 6-bit table mode.
proof fn lemma_round_trip_table(s: Seq<char>, p: int, n: nat)
    requires
        valid_width(n),
        s.len() > 0,
        spec_page_of(s[0]) == Some(p),
        crate::codec::page_available(p, n),
        spec_encode(s, n) is Ok,
        spec_encode(s, n) == crate::codec::spec_encode_table(s, p, n),
    ensures
        spec_decode(spec_encode(s, n)->Ok_0, n) == s,
{
    crate::width::lemma_width_facts(n);
    let cb = coding_bits(n);
    let tb = tag_bits(n);
    let cap = char_slots(n);
    let cs = table_codes(s, p);
    let l = cs.len();
    let v = spec_encode(s, n)->Ok_0;
    crate::pages::lemma_page_scan_some(s[0], 0);
    let t = stored_tag(p, n);
    let pay = padded(6, cs, cap);
    lemma_table_ok(s, p, n);
    crate::units::lemma_fold_units_bound(6, cs);
    crate::units::lemma_padded_bound(6, cs, cap);
    // the page is never the URO tag: that page holds no characters
    assert(p != URO_PAGE as int) by {
        crate::pages::lemma_code_scan_some(p, s[0], 1);
    }
    // the payload is the fold, left-justified in the coding region
    assert(pay == fold_units(6, cs) * pow2((cb - 6 * l) as nat)) by (nonlinear_arith)
        requires
            pay == fold_units(6, cs) * pow2((6 * (cap - l)) as nat),
            6 * (cap - l) == cb - 6 * l,
    ;
    assert(6 * (cap - l) == cb - 6 * l) by (nonlinear_arith)
        requires
            l <= cap,
            6 * cap == cb,
    ;
    // so the decoder recovers tag and payload
    assert(pay < pow2(cb));
    lemma_fundamental_div_mod_converse(v as int, pow2(cb) as int, t, pay as int);
    assert(v / pow2(cb) == t);
    assert(v % pow2(cb) == pay);
    // the re-justified payload is the fold, left-justified in 128 bits
    let acc = pay * pow2((128 - cb) as nat);
    lemma_pow2_adds((cb - 6 * l) as nat, (128 - cb) as nat);
    assert(acc == fold_units(6, cs) * pow2((128 - 6 * l) as nat)) by (nonlinear_arith)
        requires
            acc == (fold_units(6, cs) * pow2((cb - 6 * l) as nat)) * pow2((128 - cb) as nat),
            pow2((cb - 6 * l) as nat) * pow2((128 - cb) as nat) == pow2((128 - 6 * l) as nat),
            6 * l <= cb,
            cb <= 128,
    ;
    // the tag normalizes back to the page index
    let tag4 = if tb == 2 {
        t * 4
    } else {
        t
    };
    assert(tag4 == p);
    // the codes come back out, and look up to the characters
    crate::units::lemma_extract_of_fold(6, cs, cap);
    assert(acc < pow2(128)) by {
        lemma_pow2_adds(6 * l, (128 - 6 * l) as nat);
        lemma_pow2_pos((128 - 6 * l) as nat);
        vstd::arithmetic::mul::lemma_mul_strict_inequality(
            fold_units(6, cs) as int,
            pow2(6 * l) as int,
            pow2((128 - 6 * l) as nat) as int,
        );
    }
    crate::codec::lemma_iter_chars_table(p, acc, cap);
    assert(extract_units(6, acc, cap).map_values(|u: nat| page_entry(p, u as int)) =~= s) by {
        assert forall|j: int| 0 <= j < l implies page_entry(p, cs[j] as int) == s[j] by {
            crate::pages::lemma_code_scan_some(p, s[j], 1);
        }
    }
}

/// Strict lexicographic order on strings by Unicode scalar value: a proper
/// prefix sorts before its extensions.
pub open spec fn lex_lt(a: Seq<char>, b: Seq<char>) -> bool
    decreases a.len(),
{
    b.len() > 0 && (a.len() == 0 || (a[0] as int) < (b[0] as int) || (a[0] == b[0] && lex_lt(
        a.drop_first(),
        b.drop_first(),
    )))
}

/// Within one page, lexicographic order of strings is lexicographic order
/// of their code sequences.
proof fn lemma_codes_lex(a: Seq<char>, b: Seq<char>, p: int)
    requires
        lex_lt(a, b),
        0 <= p < 16,
        forall|j: int| 0 <= j < a.len() ==> spec_code_of(p, #[trigger] a[j]) is Some,
        forall|j: int| 0 <= j < b.len() ==> spec_code_of(p, #[trigger] b[j]) is Some,
    ensures
        crate::units::units_lt(table_codes(a, p), table_codes(b, p)),
    decreases a.len(),
{
    let ca = table_codes(a, p);
    let cb = table_codes(b, p);
    if a.len() > 0 {
        crate::pages::lemma_code_scan_some(p, a[0], 1);
        crate::pages::lemma_code_scan_some(p, b[0], 1);
        let i = spec_code_of(p, a[0])->Some_0;
        let j = spec_code_of(p, b[0])->Some_0;
        if (a[0] as int) < (b[0] as int) {
            if j < i {
                crate::pages::lemma_entry_mono(p, j, i);
            }
            assert(i != j);
            assert(ca[0] < cb[0]);
        } else {
            assert(a[0] == b[0]);
            assert forall|k: int| 0 <= k < a.drop_first().len() implies spec_code_of(
                p,
                #[trigger] a.drop_first()[k],
            ) is Some by {
                assert(a.drop_first()[k] == a[k + 1]);
            }
            assert forall|k: int| 0 <= k < b.drop_first().len() implies spec_code_of(
                p,
                #[trigger] b.drop_first()[k],
            ) is Some by {
                assert(b.drop_first()[k] == b[k + 1]);
            }
            lemma_codes_lex(a.drop_first(), b.drop_first(), p);
            assert(table_codes(a.drop_first(), p) =~= ca.drop_first());
            assert(table_codes(b.drop_first(), p) =~= cb.drop_first());
            assert(ca[0] == cb[0]);
        }
    }
}

/// Within the URO block, lexicographic order of strings is lexicographic
/// order of their delta units.
proof fn lemma_uro_units_lex(a: Seq<char>, b: Seq<char>)
    requires
        lex_lt(a, b),
        forall|j: int| 0 <= j < a.len() ==> in_uro(#[trigger] a[j]),
        forall|j: int| 0 <= j < b.len() ==> in_uro(#[trigger] b[j]),
    ensures
        crate::units::units_lt(uro_units(a), uro_units(b)),
    decreases a.len(),
{
    let ua = uro_units(a);
    let ub = uro_units(b);
    if a.len() > 0 {
        assert(in_uro(a[0]));
        assert(in_uro(b[0]));
        if (a[0] as int) < (b[0] as int) {
            crate::pages::lemma_uro_scalar(a[0]);
            crate::pages::lemma_uro_scalar(b[0]);
            assert(ua[0] < ub[0]);
        } else {
            assert(a[0] == b[0]);
            assert forall|k: int| 0 <= k < a.drop_first().len() implies in_uro(
                #[trigger] a.drop_first()[k],
            ) by {
                assert(a.drop_first()[k] == a[k + 1]);
            }
            assert forall|k: int| 0 <= k < b.drop_first().len() implies in_uro(
                #[trigger] b.drop_first()[k],
            ) by {
                assert(b.drop_first()[k] == b[k + 1]);
            }
            lemma_uro_units_lex(a.drop_first(), b.drop_first());
            assert(uro_units(a.drop_first()) =~= ua.drop_first());
            assert(uro_units(b.drop_first()) =~= ub.drop_first());
            assert(ua[0] == ub[0]);
        }
    }
}

/// The block a nonempty encoding goes through.
pub open spec fn enc_block(s: Seq<char>, n: nat) -> int {
    if special_slots(n) > 0 && in_uro(s[0]) {
        URO_PAGE as int
    } else {
        spec_page_of(s[0])->Some_0
    }
}

/// The coding region of a nonempty encoding: everything below the tag.
pub open spec fn enc_payload(s: Seq<char>, n: nat) -> nat {
    if special_slots(n) > 0 && in_uro(s[0]) {
        (padded(15, uro_units(s), special_slots(n)) * pow2(
            (coding_bits(n) - 15 * special_slots(n)) as nat,
        )) as nat
    } else {
        padded(6, table_codes(s, spec_page_of(s[0])->Some_0), char_slots(n))
    }
}

/// A nonempty encoding splits into its block's stored tag on top and a
/// positive payload below, the payload staying under the tag's place value.
proof fn lemma_encode_decompose(s: Seq<char>, n: nat)
    requires
        valid_width(n),
        s.len() > 0,
        spec_encode(s, n) is Ok,
    ensures
        block_of(s[0]) == Some(enc_block(s, n)),
        0 <= enc_block(s, n) < 16,
        crate::codec::page_available(enc_block(s, n), n),
        spec_encode(s, n)->Ok_0 == stored_tag(enc_block(s, n), n) * pow2(coding_bits(n))
            + enc_payload(s, n),
        0 < enc_payload(s, n) < pow2(coding_bits(n)),
{
    crate::width::lemma_width_facts(n);
    let cb = coding_bits(n);
    if special_slots(n) > 0 && in_uro(s[0]) {
        lemma_special_ok(s, n);
        let cap = special_slots(n);
        let us = uro_units(s);
        crate::units::lemma_padded_bound(15, us, cap);
        crate::units::lemma_padded_pos(15, us, cap);
        lemma_pow2_adds(15 * cap, (cb - 15 * cap) as nat);
        lemma_pow2_pos((cb - 15 * cap) as nat);
        vstd::arithmetic::mul::lemma_mul_strict_inequality(
            padded(15, us, cap) as int,
            pow2(15 * cap) as int,
            pow2((cb - 15 * cap) as nat) as int,
        );
        assert(padded(15, us, cap) * pow2((cb - 15 * cap) as nat) > 0) by (nonlinear_arith)
            requires
                padded(15, us, cap) > 0,
                pow2((cb - 15 * cap) as nat) > 0,
        ;
    } else {
        if in_uro(s[0]) {
            crate::pages::lemma_uro_no_page(s[0]);
        }
        let p = spec_page_of(s[0])->Some_0;
        crate::pages::lemma_page_scan_some(s[0], 0);
        lemma_table_ok(s, p, n);
        crate::units::lemma_padded_bound(6, table_codes(s, p), char_slots(n));
        crate::units::lemma_padded_pos(6, table_codes(s, p), char_slots(n));
    }
}

/// A nonempty string never encodes to the zero value: zero is the empty
/// string alone.
pub proof fn lemma_nonempty_positive(s: Seq<char>, n: nat)
    requires
        valid_width(n),
        s.len() > 0,
        spec_encode(s, n) is Ok,
    ensures
        spec_encode(s, n)->Ok_0 > 0,
{
    lemma_encode_decompose(s, n);
    vstd::arithmetic::mul::lemma_mul_nonnegative(
        stored_tag(enc_block(s, n), n),
        pow2(coding_bits(n)) as int,
    );
}

/// Order preservation within one block: for two strings encoding through
/// the same page (or both through the URO block), lexicographic order of
/// the strings is unsigned integer order of the packed values; this
/// includes a string against its own proper prefix-extensions.
pub proof fn lemma_order_same_block(a: Seq<char>, b: Seq<char>, n: nat)
    requires
        valid_width(n),
        a.len() > 0,
        b.len() > 0,
        enc_block(a, n) == enc_block(b, n),
        lex_lt(a, b),
        spec_encode(a, n) is Ok,
        spec_encode(b, n) is Ok,
    ensures
        spec_encode(a, n)->Ok_0 < spec_encode(b, n)->Ok_0,
{
    crate::width::lemma_width_facts(n);
    let cb = coding_bits(n);
    lemma_encode_decompose(a, n);
    lemma_encode_decompose(b, n);
    // the two strings use one mode: both URO, or both the same table page
    assert(block_of(a[0]) == block_of(b[0]));
    if special_slots(n) > 0 && in_uro(a[0]) {
        assert(in_uro(b[0])) by {
            if !in_uro(b[0]) {
                crate::pages::lemma_block_of_some(b[0]);
                crate::pages::lemma_uro_no_page(a[0]);
            }
        }
        let cap = special_slots(n);
        lemma_special_ok(a, n);
        lemma_special_ok(b, n);
        lemma_uro_units_lex(a, b);
        crate::units::lemma_padded_order(15, uro_units(a), uro_units(b), cap);
        lemma_pow2_pos((cb - 15 * cap) as nat);
        vstd::arithmetic::mul::lemma_mul_strict_inequality(
            padded(15, uro_units(a), cap) as int,
            padded(15, uro_units(b), cap) as int,
            pow2((cb - 15 * cap) as nat) as int,
        );
    } else {
        assert(!(special_slots(n) > 0 && in_uro(b[0]))) by {
            if in_uro(b[0]) {
                crate::pages::lemma_uro_no_page(b[0]);
                crate::pages::lemma_block_of_some(a[0]);
            }
        }
        let p = spec_page_of(a[0])->Some_0;
        crate::pages::lemma_page_scan_some(a[0], 0);
        lemma_table_ok(a, p, n);
        lemma_table_ok(b, p, n);
        lemma_codes_lex(a, b, p);
        crate::units::lemma_padded_order(6, table_codes(a, p), table_codes(b, p), char_slots(n));
    }
}

/// Order preservation across blocks: whenever the first characters' blocks
/// are ordered, so are the packed values, whatever the rest of the strings.
pub proof fn lemma_order_cross_block(a: Seq<char>, b: Seq<char>, n: nat)
    requires
        valid_width(n),
        a.len() > 0,
        b.len() > 0,
        enc_block(a, n) < enc_block(b, n),
        spec_encode(a, n) is Ok,
        spec_encode(b, n) is Ok,
    ensures
        spec_encode(a, n)->Ok_0 < spec_encode(b, n)->Ok_0,
{
    crate::width::lemma_width_facts(n);
    let cb = coding_bits(n);
    lemma_encode_decompose(a, n);
    lemma_encode_decompose(b, n);
    let pa = enc_block(a, n);
    let pb = enc_block(b, n);
    let ta = stored_tag(pa, n);
    let tb = stored_tag(pb, n);
    assert(ta < tb) by {
        if tag_bits(n) == 2 {
            vstd::arithmetic::div_mod::lemma_fundamental_div_mod(pa, 4);
            vstd::arithmetic::div_mod::lemma_fundamental_div_mod(pb, 4);
            assert(pa / 4 < pb / 4) by (nonlinear_arith)
                requires
                    pa == 4 * (pa / 4),
                    pb == 4 * (pb / 4),
                    pa < pb,
            ;
        }
    }
    assert(ta * pow2(cb) + enc_payload(a, n) < tb * pow2(cb)) by (nonlinear_arith)
        requires
            ta < tb,
            enc_payload(a, n) < pow2(cb),
    ;
    vstd::arithmetic::mul::lemma_mul_nonnegative(tb, pow2(cb) as int);
}

/// Order preservation, in full: unsigned integer comparison of packed
/// values reproduces Unicode lexicographic comparison of the strings,
/// whenever both strings encode at the width.
pub proof fn lemma_order_preserving(a: Seq<char>, b: Seq<char>, n: nat)
    requires
        valid_width(n),
        lex_lt(a, b),
        spec_encode(a, n) is Ok,
        spec_encode(b, n) is Ok,
    ensures
        spec_encode(a, n)->Ok_0 < spec_encode(b, n)->Ok_0,
{
    if a.len() == 0 {
        lemma_nonempty_positive(b, n);
    } else {
        lemma_encode_decompose(a, n);
        lemma_encode_decompose(b, n);
        if enc_block(a, n) == enc_block(b, n) {
            lemma_order_same_block(a, b, n);
        } else {
            if (a[0] as int) < (b[0] as int) {
                crate::pages::lemma_block_order(a[0], b[0]);
            }
            lemma_order_cross_block(a, b, n);
        }
    }
}

/// Capacity boundary, table pages: a nonempty string of characters all from
/// the (available) page of its first character encodes exactly when it has
/// at most `char_slots(n)` of them; any more fail with `TooLong`.
pub proof fn lemma_capacity_table(s: Seq<char>, p: int, n: nat)
    requires
        valid_width(n),
        s.len() > 0,
        spec_page_of(s[0]) == Some(p),
        crate::codec::page_available(p, n),
        forall|j: int| 0 <= j < s.len() ==> spec_code_of(p, #[trigger] s[j]) is Some,
    ensures
        s.len() <= char_slots(n) ==> spec_encode(s, n) is Ok,
        s.len() > char_slots(n) ==> spec_encode(s, n) == Err::<nat, crate::codec::EncodeError>(
            crate::codec::EncodeError::TooLong,
        ),
{
    if in_uro(s[0]) {
        crate::pages::lemma_uro_no_page(s[0]);
    }
    crate::codec::lemma_table_prefix(s, p);
    assert(crate::codec::table_prefix(s, p) == s.len());
}

/// Capacity boundary, URO block: a nonempty string of URO characters, at a
/// width with 15-bit room, encodes exactly when it has at most
/// `special_slots(n)` of them; any more fail with `TooLong`.
pub proof fn lemma_capacity_special(s: Seq<char>, n: nat)
    requires
        valid_width(n),
        s.len() > 0,
        special_slots(n) > 0,
        forall|j: int| 0 <= j < s.len() ==> in_uro(#[trigger] s[j]),
    ensures
        s.len() <= special_slots(n) ==> spec_encode(s, n) is Ok,
        s.len() > special_slots(n) ==> spec_encode(s, n) == Err::<nat, crate::codec::EncodeError>(
            crate::codec::EncodeError::TooLong,
        ),
{
    assert(in_uro(s[0]));
    crate::codec::lemma_uro_prefix(s);
    assert(crate::codec::uro_prefix(s) == s.len());
}

/// The empty string encodes to the zero value at every width, and the zero
/// value decodes to the empty string.
pub proof fn lemma_empty(n: nat)
    requires
        valid_width(n),
    ensures
        spec_encode(Seq::<char>::empty(), n) == Ok::<nat, crate::codec::EncodeError>(0),
        spec_decode(0, n) == Seq::<char>::empty(),
{
    lemma_round_trip(Seq::<char>::empty(), n);
}

/// Decoding is total and bounded: any value of a width, well-formed or not,
/// decodes to at most `char_slots(n)` characters.
pub proof fn lemma_decode_bounded(v: nat, n: nat)
    requires
        valid_width(n),
    ensures
        spec_decode(v, n).len() <= char_slots(n),
{
    let cb = coding_bits(n);
    let t = v / pow2(cb);
    let tag = if tag_bits(n) == 2 {
        t * 4
    } else {
        t
    };
    crate::codec::lemma_iter_chars_len(
        tag as int,
        (v % pow2(cb)) * pow2((128 - cb) as nat),
        char_slots(n),
    );
}

/// Round trip: whenever a string encodes at a width, decoding the packed
/// value yields exactly that string.
pub proof fn lemma_round_trip(s: Seq<char>, n: nat)
    requires
        valid_width(n),
        spec_encode(s, n) is Ok,
    ensures
        spec_decode(spec_encode(s, n)->Ok_0, n) == s,
{
    crate::width::lemma_width_facts(n);
    let cb = coding_bits(n);
    if s.len() == 0 {
        lemma_pow2_pos(cb);
        lemma_pow2_pos(122);
        assert(0nat / pow2(cb) == 0);
        assert(0nat % pow2(cb) == 0);
        assert(0nat * pow2((128 - cb) as nat) == 0) by (nonlinear_arith);
        assert(0nat / pow2(122) == 0);
        assert(iter_chars(0, 0, char_slots(n)) =~= s);
    } else if special_slots(n) > 0 && in_uro(s[0]) {
        lemma_round_trip_special(s, n);
    } else {
        let p = spec_page_of(s[0])->Some_0;
        lemma_round_trip_table(s, p, n);
    }
}

/// Injectivity: no two distinct strings that both encode at a width share a
/// packed value.
pub proof fn lemma_injective(a: Seq<char>, b: Seq<char>, n: nat)
    requires
        valid_width(n),
        spec_encode(a, n) is Ok,
        spec_encode(b, n) is Ok,
        spec_encode(a, n)->Ok_0 == spec_encode(b, n)->Ok_0,
    ensures
        a == b,
{
    lemma_round_trip(a, n);
    lemma_round_trip(b, n);
}

} // verus!
